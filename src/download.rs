//! The settings of one transfer, and how a discovered content length turns
//! them into per-worker ranges.
use vstd::prelude::*;
use crate::plan::{plan_ranges, planned_end, planned_len, planned_start, resolve_worker_count, worker_count, KB};
use crate::worker::RangeTask;

verus! {

/// Worker count used where none is requested.
pub const DEFAULT_THREADS: u64 = 5;

/// Chunk size, in kilobytes, used where none is requested.
pub const DEFAULT_MEMORY_KB: u64 = 256;

/// One transfer job: the resource, the output file, the chunk size in
/// kilobytes and the requested worker count.
pub struct Download {
    pub url: String,
    pub filename: String,
    pub memory: u64,
    pub threads: u64,
}

impl Default for Download {
    fn default() -> (r: Download)
        ensures
            r.url@ == Seq::<char>::empty(),
            r.filename@ == Seq::<char>::empty(),
            r.memory == DEFAULT_MEMORY_KB,
            r.threads == DEFAULT_THREADS,
    {
        Download {
            url: String::new(),
            filename: String::new(),
            memory: DEFAULT_MEMORY_KB,
            threads: DEFAULT_THREADS,
        }
    }
}

impl Download {
    /// Whether the settings allow planning: a chunk size of at least one
    /// kilobyte that fits in bytes, and at least one worker.
    pub open spec fn settings_usable(&self) -> bool {
        &&& self.memory >= 1
        &&& self.memory * KB <= u64::MAX
        &&& self.threads >= 1
    }

    /// Plans the transfer of a resource of `content_length` bytes: resolves
    /// the worker count to `min(threads, content_length / (memory * KB) + 1)`,
    /// stores it in `threads`, and splits the resource among that many
    /// workers, one task each (an empty resource gets one task with no byte).
    /// `None`, with nothing changed, only where the settings are unusable.
    pub fn plan_parts(&mut self, content_length: u64) -> (r: Option<Vec<RangeTask>>)
        ensures
            !old(self).settings_usable() ==> r is None && *final(self) == *old(self),
            old(self).settings_usable() ==> {
                let w = worker_count(
                    old(self).threads as int,
                    content_length as int,
                    (old(self).memory * KB) as int,
                );
                let l = content_length as int;
                &&& final(self).threads == w
                &&& final(self).url == old(self).url
                &&& final(self).filename == old(self).filename
                &&& final(self).memory == old(self).memory
                &&& r matches Some(tasks)
                &&& tasks@.len() == w
                &&& forall|i: int|
                    0 <= i < w ==> {
                        let t = #[trigger] tasks@[i];
                        &&& t.wf()
                        &&& t.index == i
                        &&& t.first == planned_start(l, w, i)
                        &&& t.len == planned_len(l, w, i)
                        &&& t.range_end == planned_end(l, w, i)
                        &&& t.chunk_size == old(self).memory * KB
                        &&& t.range_start == t.first
                        &&& t.last_chunk == 0
                        &&& t.phase is Idle
                    }
            },
    {
        if self.memory == 0 || self.memory > u64::MAX / KB || self.threads == 0 {
            return None;
        }
        let chunk_size = self.memory * KB;
        self.threads = resolve_worker_count(self.threads, content_length, chunk_size);
        Some(plan_ranges(content_length, self.threads, chunk_size))
    }
}

/// Seconds to wait before asking again after the connection failed.
pub const CONNECT_RETRY_SECS: u64 = 60;

/// Seconds to wait before asking again when the server answered without a
/// content length.
pub const LENGTH_RETRY_SECS: u64 = 3;

/// What came of the plain request that discovers the content length.
#[derive(Debug, Clone, Copy, PartialEq, Eq, Structural)]
pub enum Discovery {
    ConnectionFailed,
    LengthMissing,
    Length(u64),
}

/// What the orchestrator does next.
#[derive(Debug, Clone, Copy, PartialEq, Eq, Structural)]
pub enum DiscoveryAction {
    /// Wait this many seconds, then ask for the content length again.
    Retry { after_secs: u64 },
    /// Plan and run the transfer of this many bytes.
    Transfer { content_length: u64 },
}

/// The orchestrator's decision after one discovery attempt: a long backoff
/// after a connection failure, a short one when the length is missing, and
/// the transfer once the length is known. It never gives up.
pub fn discovery_action(outcome: Discovery) -> (r: DiscoveryAction)
    ensures
        r == match outcome {
            Discovery::ConnectionFailed => DiscoveryAction::Retry { after_secs: CONNECT_RETRY_SECS },
            Discovery::LengthMissing => DiscoveryAction::Retry { after_secs: LENGTH_RETRY_SECS },
            Discovery::Length(l) => DiscoveryAction::Transfer { content_length: l },
        },
{
    match outcome {
        Discovery::ConnectionFailed => DiscoveryAction::Retry { after_secs: CONNECT_RETRY_SECS },
        Discovery::LengthMissing => DiscoveryAction::Retry { after_secs: LENGTH_RETRY_SECS },
        Discovery::Length(l) => DiscoveryAction::Transfer { content_length: l },
    }
}

} // verus!
