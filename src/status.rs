//! The state of a transfer as it would be saved to disk: the resource, the
//! output file and the progress of each range.
use vstd::prelude::*;
use crate::worker::RangeTask;

verus! {

/// One range's saved progress.
#[derive(Debug, Clone, Copy, PartialEq, Eq, Structural)]
pub struct RangeRecord {
    pub task_no: u64,
    pub range_start: u64,
    pub range_end: u64,
}

pub struct Status {
    pub url: String,
    pub file_name: String,
    pub ranges: Vec<RangeRecord>,
}

impl RangeRecord {
    /// The saved form of a task: its index, resume offset and requested end.
    pub fn of_task(t: &RangeTask) -> (r: RangeRecord)
        ensures
            r == (RangeRecord { task_no: t.index, range_start: t.range_start, range_end: t.range_end }),
    {
        RangeRecord { task_no: t.index, range_start: t.range_start, range_end: t.range_end }
    }
}

impl Status {
    /// A status for `url` and `file_name` with no range recorded.
    pub fn new(url: &str, file_name: &str) -> (r: Status)
        ensures
            r.url@ == url@,
            r.file_name@ == file_name@,
            r.ranges@.len() == 0,
    {
        Status { url: url.to_owned(), file_name: file_name.to_owned(), ranges: Vec::new() }
    }

    /// Reading a saved status is not supported yet: the result is always an
    /// empty status.
    pub fn load_file(file_name: &str) -> (r: Status)
        ensures
            r.url@.len() == 0,
            r.file_name@.len() == 0,
            r.ranges@.len() == 0,
    {
        proof {
            reveal_strlit("");
        }
        Status::new("", "")
    }
}

} // verus!
