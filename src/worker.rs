//! The transfer of one byte range, as a state machine: the caller performs
//! each action (send the ranged request, read a chunk and write it at an
//! offset, sleep) and hands back what came of it.
use vstd::prelude::*;
use crate::content_range::TransferError;

verus! {

/// Seconds a worker waits after a failed attempt before it tries again.
pub const RETRY_BACKOFF_SECS: u64 = 60;

#[derive(Debug, Clone, Copy, PartialEq, Eq, Structural)]
pub enum WorkerPhase {
    /// No request is outstanding; the next attempt may begin.
    Idle,
    /// A ranged request was sent; its validated outcome is awaited.
    Requested,
    /// The body is being read, chunk by chunk.
    Receiving,
    /// The last attempt failed; the worker waits before trying again.
    Backoff,
    /// Every byte of the range has been written.
    Finished,
}

/// What the worker's driver reports back.
#[derive(Debug, Clone, Copy)]
pub enum WorkerEvent {
    /// Begin an attempt (first start, or after the backoff).
    Begin,
    /// The outcome of the ranged request, as the validator judged it
    /// (`ConnectionError` where it could not be sent).
    Responded(Result<(u64, u64, u64), TransferError>),
    /// The read that was asked for: `true` where exactly the asked number of
    /// bytes was read and written at the asked offset and flushed.
    Read(bool),
}

/// What the worker's driver is to do next.
#[derive(Debug, Clone, Copy, PartialEq, Eq, Structural)]
pub enum WorkerAction {
    /// Send `GET` with `Range: bytes=<start>-<end>`.
    SendRequest { start: u64, end: u64 },
    /// Read exactly `len` bytes of the body and write them at file `offset`.
    ReadChunk { offset: u64, len: u64 },
    /// Copy the rest of the body, `len` bytes, to the file from `offset`.
    CopyRest { offset: u64, len: u64 },
    /// Wait this many seconds, then report `Begin`.
    Sleep { secs: u64 },
    /// The range is complete.
    Finish,
    /// The event does not fit the current phase; nothing to do.
    Ignore,
}

/// One worker's byte range and its progress.
pub struct RangeTask {
    /// Position of the task among those of one transfer.
    pub index: u64,
    /// The planned first byte of the range.
    pub first: u64,
    /// The last byte of the range, sent in the `Range` header; where the
    /// range is empty (`len == 0`) it is not used.
    pub range_end: u64,
    /// Number of bytes the task puts into the file, starting at `first`.
    pub len: u64,
    /// Bytes read and written per chunk.
    pub chunk_size: u64,
    /// Resume offset: `first` plus the bytes of every chunk written so far.
    pub range_start: u64,
    /// Whole chunks written so far.
    pub last_chunk: u64,
    pub phase: WorkerPhase,
    /// The (offset, length) of each write confirmed so far, in order.
    pub writes: Ghost<Seq<(int, int)>>,
}

/// The writes of a run without failures: `k` whole chunks from `first` on.
pub open spec fn chunk_writes(first: int, chunk_size: int, k: int) -> Seq<(int, int)> {
    Seq::new(k as nat, |j: int| (first + j * chunk_size, chunk_size))
}

/// Every write of a run without failures, the remainder included.
pub open spec fn full_writes(first: int, len: int, chunk_size: int) -> Seq<(int, int)> {
    let k = len / chunk_size;
    let rem = len % chunk_size;
    if rem > 0 {
        chunk_writes(first, chunk_size, k).push((first + k * chunk_size, rem))
    } else {
        chunk_writes(first, chunk_size, k)
    }
}

impl RangeTask {
    pub open spec fn buffer_chunks(&self) -> int {
        (self.len / self.chunk_size) as int
    }

    pub open spec fn chunk_remainder(&self) -> int {
        (self.len % self.chunk_size) as int
    }

    pub open spec fn wf(&self) -> bool {
        &&& self.chunk_size > 0
        &&& self.first + self.len <= u64::MAX
        &&& self.len > 0 ==> self.range_end == self.first + self.len - 1
        &&& (self.phase is Requested || self.phase is Receiving) ==> self.len > 0
        &&& self.last_chunk <= self.buffer_chunks()
        &&& self.range_start == self.first + self.last_chunk * self.chunk_size
        &&& self.phase is Finished ==> self.last_chunk == self.buffer_chunks()
        &&& self.writes@ == if self.phase is Finished {
            full_writes(self.first as int, self.len as int, self.chunk_size as int)
        } else {
            chunk_writes(self.first as int, self.chunk_size as int, self.last_chunk as int)
        }
    }

    /// The action that follows once the body may be read from the resume
    /// offset on.
    pub open spec fn read_action(&self) -> WorkerAction {
        if self.last_chunk < self.buffer_chunks() {
            WorkerAction::ReadChunk { offset: self.range_start, len: self.chunk_size }
        } else if self.chunk_remainder() > 0 {
            WorkerAction::CopyRest { offset: self.range_start, len: self.chunk_remainder() as u64 }
        } else {
            WorkerAction::Finish
        }
    }

    pub open spec fn with_phase(self, phase: WorkerPhase) -> RangeTask {
        RangeTask { phase, ..self }
    }

    /// The state after `event`, and the action it calls for.
    pub open spec fn next(self, event: WorkerEvent) -> (RangeTask, WorkerAction) {
        if self.phase is Finished {
            (self, WorkerAction::Finish)
        } else {
            match event {
                WorkerEvent::Begin => if self.len == 0 {
                    (
                        RangeTask {
                            phase: WorkerPhase::Finished,
                            writes: Ghost(full_writes(self.first as int, self.len as int, self.chunk_size as int)),
                            ..self
                        },
                        WorkerAction::Finish,
                    )
                } else {
                    (
                        self.with_phase(WorkerPhase::Requested),
                        WorkerAction::SendRequest { start: self.range_start, end: self.range_end },
                    )
                },
                WorkerEvent::Responded(outcome) => if !(self.phase is Requested) {
                    (self, WorkerAction::Ignore)
                } else if outcome is Err {
                    (self.with_phase(WorkerPhase::Backoff), WorkerAction::Sleep { secs: RETRY_BACKOFF_SECS })
                } else if self.read_action() is Finish {
                    (
                        RangeTask {
                            phase: WorkerPhase::Finished,
                            writes: Ghost(full_writes(self.first as int, self.len as int, self.chunk_size as int)),
                            ..self
                        },
                        WorkerAction::Finish,
                    )
                } else {
                    (self.with_phase(WorkerPhase::Receiving), self.read_action())
                },
                WorkerEvent::Read(ok) => if !(self.phase is Receiving) {
                    (self, WorkerAction::Ignore)
                } else if !ok {
                    (self.with_phase(WorkerPhase::Backoff), WorkerAction::Sleep { secs: RETRY_BACKOFF_SECS })
                } else if self.last_chunk < self.buffer_chunks() {
                    let t = RangeTask {
                        range_start: (self.range_start + self.chunk_size) as u64,
                        last_chunk: (self.last_chunk + 1) as u64,
                        writes: Ghost(self.writes@.push((self.range_start as int, self.chunk_size as int))),
                        ..self
                    };
                    if t.read_action() is Finish {
                        (RangeTask { phase: WorkerPhase::Finished, ..t }, WorkerAction::Finish)
                    } else {
                        (t, t.read_action())
                    }
                } else {
                    (
                        RangeTask {
                            phase: WorkerPhase::Finished,
                            writes: Ghost(full_writes(self.first as int, self.len as int, self.chunk_size as int)),
                            ..self
                        },
                        WorkerAction::Finish,
                    )
                },
            }
        }
    }
}

proof fn lemma_chunk_bound(last_chunk: int, chunk_size: int, len: int)
    requires
        chunk_size > 0,
        len >= 0,
        0 <= last_chunk < len / chunk_size,
    ensures
        (last_chunk + 1) * chunk_size <= len,
{
    assert((last_chunk + 1) * chunk_size <= (len / chunk_size) * chunk_size) by (nonlinear_arith)
        requires
            chunk_size > 0,
            last_chunk + 1 <= len / chunk_size,
    ;
    assert((len / chunk_size) * chunk_size <= len) by (nonlinear_arith)
        requires
            chunk_size > 0,
            len >= 0,
    ;
}

proof fn lemma_chunk_writes_push(first: int, chunk_size: int, k: int)
    requires
        k >= 0,
    ensures
        chunk_writes(first, chunk_size, k).push((first + k * chunk_size, chunk_size))
            =~= chunk_writes(first, chunk_size, k + 1),
{
}

impl RangeTask {
    /// A task for the `len` bytes from `first` to `range_end`, read in chunks
    /// of `chunk_size` bytes; nothing written yet. A task with no byte
    /// finishes without sending a request.
    pub fn new(index: u64, first: u64, range_end: u64, len: u64, chunk_size: u64) -> (r: RangeTask)
        requires
            chunk_size > 0,
            first + len <= u64::MAX,
            len > 0 ==> range_end == first + len - 1,
        ensures
            r.wf(),
            r.index == index,
            r.first == first,
            r.range_end == range_end,
            r.len == len,
            r.chunk_size == chunk_size,
            r.range_start == first,
            r.last_chunk == 0,
            r.phase is Idle,
    {
        let r = RangeTask {
            index,
            first,
            range_end,
            len,
            chunk_size,
            range_start: first,
            last_chunk: 0,
            phase: WorkerPhase::Idle,
            writes: Ghost(Seq::empty()),
        };
        assert(r.writes@ =~= chunk_writes(first as int, chunk_size as int, 0));
        r
    }

    fn read_action_exec(&self) -> (r: WorkerAction)
        requires
            self.wf(),
        ensures
            r == self.read_action(),
    {
        if self.last_chunk < self.len / self.chunk_size {
            WorkerAction::ReadChunk { offset: self.range_start, len: self.chunk_size }
        } else if self.len % self.chunk_size > 0 {
            WorkerAction::CopyRest { offset: self.range_start, len: self.len % self.chunk_size }
        } else {
            WorkerAction::Finish
        }
    }

    /// Advances the task by one event and returns what is to be done next.
    pub fn step(&mut self, event: WorkerEvent) -> (r: WorkerAction)
        requires
            old(self).wf(),
        ensures
            final(self).wf(),
            (*final(self), r) == old(self).next(event),
    {
        if self.phase == WorkerPhase::Finished {
            return WorkerAction::Finish;
        }
        match event {
            WorkerEvent::Begin => {
                if self.len == 0 {
                    self.phase = WorkerPhase::Finished;
                    self.writes = Ghost(full_writes(self.first as int, self.len as int, self.chunk_size as int));
                    return WorkerAction::Finish;
                }
                self.phase = WorkerPhase::Requested;
                WorkerAction::SendRequest { start: self.range_start, end: self.range_end }
            },
            WorkerEvent::Responded(outcome) => {
                if self.phase != WorkerPhase::Requested {
                    WorkerAction::Ignore
                } else if outcome.is_err() {
                    self.phase = WorkerPhase::Backoff;
                    WorkerAction::Sleep { secs: RETRY_BACKOFF_SECS }
                } else {
                    let action = self.read_action_exec();
                    if action == WorkerAction::Finish {
                        self.phase = WorkerPhase::Finished;
                        self.writes = Ghost(full_writes(self.first as int, self.len as int, self.chunk_size as int));
                    } else {
                        self.phase = WorkerPhase::Receiving;
                    }
                    action
                }
            },
            WorkerEvent::Read(ok) => {
                if self.phase != WorkerPhase::Receiving {
                    WorkerAction::Ignore
                } else if !ok {
                    self.phase = WorkerPhase::Backoff;
                    WorkerAction::Sleep { secs: RETRY_BACKOFF_SECS }
                } else if self.last_chunk < self.len / self.chunk_size {
                    proof {
                        lemma_chunk_bound(self.last_chunk as int, self.chunk_size as int, self.len as int);
                        assert(self.range_start + self.chunk_size == self.first + (self.last_chunk + 1) * self.chunk_size) by (nonlinear_arith)
                            requires
                                self.range_start == self.first + self.last_chunk * self.chunk_size,
                        ;
                        lemma_chunk_writes_push(self.first as int, self.chunk_size as int, self.last_chunk as int);
                    }
                    self.writes = Ghost(self.writes@.push((self.range_start as int, self.chunk_size as int)));
                    self.range_start = self.range_start + self.chunk_size;
                    self.last_chunk = self.last_chunk + 1;
                    let action = self.read_action_exec();
                    if action == WorkerAction::Finish {
                        self.phase = WorkerPhase::Finished;
                    }
                    action
                } else {
                    self.phase = WorkerPhase::Finished;
                    self.writes = Ghost(full_writes(self.first as int, self.len as int, self.chunk_size as int));
                    WorkerAction::Finish
                }
            },
        }
    }

    /// Whether every byte of the range has been written.
    pub fn is_finished(&self) -> (r: bool)
        ensures
            r == self.phase is Finished,
    {
        self.phase == WorkerPhase::Finished
    }
}

/// After a failed attempt, whether its request failed or its body broke off
/// after `k` whole chunks, the next attempt requests the range from
/// `first + k * chunk_size` on, and the writes confirmed so far stay as they
/// were: nothing is written twice and nothing is lost.
pub proof fn lemma_retry_resumes_after_whole_chunks(t: RangeTask, failure: WorkerEvent)
    requires
        t.wf(),
        (t.phase is Receiving && failure == WorkerEvent::Read(false)) || (t.phase is Requested
            && failure matches WorkerEvent::Responded(Err(_))),
    ensures
        ({
            let (failed, a1) = t.next(failure);
            let (retried, a2) = failed.next(WorkerEvent::Begin);
            &&& a1 == WorkerAction::Sleep { secs: RETRY_BACKOFF_SECS }
            &&& a2 == WorkerAction::SendRequest {
                start: (t.first + t.last_chunk * t.chunk_size) as u64,
                end: t.range_end,
            }
            &&& retried.last_chunk == t.last_chunk
            &&& retried.writes@ == t.writes@
        }),
{
}

/// A response that the validator rejects, a mismatched `Content-Range` among
/// them, writes nothing: the task only backs off.
pub proof fn lemma_rejected_response_writes_nothing(t: RangeTask, e: TransferError)
    requires
        t.wf(),
        t.phase is Requested,
    ensures
        ({
            let (u, a) = t.next(WorkerEvent::Responded(Err(e)));
            &&& a == WorkerAction::Sleep { secs: RETRY_BACKOFF_SECS }
            &&& u.writes@ == t.writes@
            &&& u.range_start == t.range_start
            &&& u.last_chunk == t.last_chunk
        }),
{
}

/// Consecutive writes, none empty, that cover `[from, to)` exactly.
pub open spec fn tiles(w: Seq<(int, int)>, from: int, to: int) -> bool {
    &&& w.len() == 0 ==> from == to
    &&& w.len() > 0 ==> w[0].0 == from && w.last().0 + w.last().1 == to
    &&& forall|j: int| 0 <= j < w.len() ==> (#[trigger] w[j]).1 > 0
    &&& forall|j: int| 0 <= j < w.len() - 1 ==> (#[trigger] w[j]).0 + w[j].1 == w[j + 1].0
}

proof fn lemma_chunk_writes_tile(first: int, chunk_size: int, k: int)
    requires
        chunk_size > 0,
        k >= 0,
    ensures
        tiles(chunk_writes(first, chunk_size, k), first, first + k * chunk_size),
{
    let w = chunk_writes(first, chunk_size, k);
    assert forall|j: int| 0 <= j < w.len() - 1 implies (#[trigger] w[j]).0 + w[j].1 == w[j + 1].0 by {
        assert(j * chunk_size + chunk_size == (j + 1) * chunk_size) by (nonlinear_arith);
    }
    if k > 0 {
        assert((k - 1) * chunk_size + chunk_size == k * chunk_size) by (nonlinear_arith);
    } else {
        assert(k * chunk_size == 0);
    }
}

/// Once a task is finished, the writes it confirmed are those of a run
/// without failures, whatever failures and retries came between, and they
/// cover its range `[first, first + len)` exactly, in order.
pub proof fn lemma_finished_task_matches_failure_free_run(t: RangeTask)
    requires
        t.wf(),
        t.phase is Finished,
    ensures
        t.writes@ == full_writes(t.first as int, t.len as int, t.chunk_size as int),
        tiles(t.writes@, t.first as int, t.first + t.len),
{
    let (first, len, cs) = (t.first as int, t.len as int, t.chunk_size as int);
    let k = len / cs;
    let rem = len % cs;
    lemma_chunk_writes_tile(first, cs, k);
    assert(k * cs + rem == len) by (nonlinear_arith)
        requires
            cs > 0,
            k == len / cs,
            rem == len % cs,
    ;
    assert(k >= 0 && rem >= 0) by (nonlinear_arith)
        requires
            cs > 0,
            len >= 0,
            k == len / cs,
            rem == len % cs,
    ;
    if rem > 0 {
        let c = chunk_writes(first, cs, k);
        let w = c.push((first + k * cs, rem));
        assert forall|j: int| 0 <= j < w.len() - 1 implies (#[trigger] w[j]).0 + w[j].1 == w[j + 1].0 by {
            if j < k - 1 {
                assert(w[j] == c[j] && w[j + 1] == c[j + 1]);
            } else {
                assert(w[j] == c[j]);
            }
        }
        assert forall|j: int| 0 <= j < w.len() implies (#[trigger] w[j]).1 > 0 by {
            if j < k {
                assert(w[j] == c[j]);
            }
        }
    }
}

/// The file after copying `src[o .. o + n]` to the same place.
pub open spec fn write_region(file: Seq<u8>, src: Seq<u8>, o: int, n: int) -> Seq<u8> {
    Seq::new(file.len(), |k: int| if o <= k < o + n { src[k] } else { file[k] })
}

/// The file after each write of `w`, in order, copied its bytes from `src`.
pub open spec fn apply_writes(file: Seq<u8>, src: Seq<u8>, w: Seq<(int, int)>) -> Seq<u8>
    decreases w.len(),
{
    if w.len() == 0 {
        file
    } else {
        write_region(apply_writes(file, src, w.drop_last()), src, w.last().0, w.last().1)
    }
}

/// Writes that tile `[a, b)` leave the source's bytes there and touch nothing
/// else.
pub proof fn lemma_tiling_writes_copy_region(file: Seq<u8>, src: Seq<u8>, w: Seq<(int, int)>, a: int, b: int)
    requires
        tiles(w, a, b),
        file.len() == src.len(),
    ensures
        a <= b,
        apply_writes(file, src, w).len() == file.len(),
        forall|k: int|
            0 <= k < file.len() ==> #[trigger] apply_writes(file, src, w)[k] == if a <= k < b {
                src[k]
            } else {
                file[k]
            },
    decreases w.len(),
{
    if w.len() > 0 {
        let p = w.drop_last();
        let c = w.last().0;
        assert(tiles(p, a, c)) by {
            if p.len() > 0 {
                assert(p[0] == w[0]);
                assert(p.last() == w[w.len() - 2]);
            }
            assert forall|j: int| 0 <= j < p.len() implies (#[trigger] p[j]).1 > 0 by {
                assert(p[j] == w[j]);
            }
            assert forall|j: int| 0 <= j < p.len() - 1 implies (#[trigger] p[j]).0 + p[j].1 == p[j + 1].0 by {
                assert(p[j] == w[j] && p[j + 1] == w[j + 1]);
            }
        }
        assert(w[w.len() - 1].1 > 0);
        lemma_tiling_writes_copy_region(file, src, p, a, c);
    }
}

/// What a finished task leaves in the file: whatever failures came between,
/// the bytes of its range are those of the source, and nothing outside the
/// range changed.
pub proof fn lemma_finished_task_copies_its_range(t: RangeTask, file: Seq<u8>, src: Seq<u8>)
    requires
        t.wf(),
        t.phase is Finished,
        file.len() == src.len(),
    ensures
        apply_writes(file, src, t.writes@).len() == file.len(),
        forall|k: int|
            0 <= k < file.len() ==> #[trigger] apply_writes(file, src, t.writes@)[k] == if t.first <= k
                < t.first + t.len {
                src[k]
            } else {
                file[k]
            },
{
    lemma_finished_task_matches_failure_free_run(t);
    lemma_tiling_writes_copy_region(file, src, t.writes@, t.first as int, t.first + t.len);
}

/// In diagnostic mode, whether a received chunk equals the bytes of the
/// local reference copy at the same offset.
pub fn chunk_matches_reference(received: &[u8], reference: &[u8]) -> (r: bool)
    ensures
        r == (received@ == reference@),
{
    if received.len() != reference.len() {
        return false;
    }
    let mut i: usize = 0;
    while i < received.len()
        invariant
            received@.len() == reference@.len(),
            i <= received@.len(),
            forall|j: int| 0 <= j < i ==> received@[j] == reference@[j],
        decreases received@.len() - i,
    {
        if received[i] != reference[i] {
            return false;
        }
        i = i + 1;
    }
    assert(received@ =~= reference@);
    true
}

} // verus!
