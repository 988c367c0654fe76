//! Parallel, resumable ranged downloads: planning of byte ranges, the
//! per-range transfer state, and validation of the server's range replies.

pub mod cli;
pub mod content_range;
pub mod download;
pub mod header;
pub mod plan;
pub mod status;
pub mod worker;
