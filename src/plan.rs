//! How many workers a transfer gets, and which byte range each one fetches.
use vstd::prelude::*;
use crate::worker::{apply_writes, lemma_finished_task_copies_its_range, RangeTask};

verus! {

/// Bytes in a kilobyte, the unit of the per-worker chunk size setting.
pub const KB: u64 = 1024;

/// The worker count for a resource of `content_length` bytes: the requested
/// count, but never more than there are chunk-sized units of data.
pub open spec fn worker_count(requested: int, content_length: int, chunk_size: int) -> int {
    let units = content_length / chunk_size + 1;
    if requested <= units {
        requested
    } else {
        units
    }
}

/// The nominal span of each worker: all but the last cover exactly this many
/// bytes.
pub open spec fn span(content_length: int, workers: int) -> int {
    content_length / workers
}

pub open spec fn planned_start(content_length: int, workers: int, i: int) -> int {
    i * span(content_length, workers)
}

/// How many bytes worker `i` fetches: the span, and for the last worker
/// everything from its start to the end of the resource.
pub open spec fn planned_len(content_length: int, workers: int, i: int) -> int {
    if i == workers - 1 {
        content_length - (workers - 1) * span(content_length, workers)
    } else {
        span(content_length, workers)
    }
}

/// The last byte of worker `i`'s range (its start where the range is empty).
pub open spec fn planned_end(content_length: int, workers: int, i: int) -> int {
    if planned_len(content_length, workers, i) == 0 {
        planned_start(content_length, workers, i)
    } else {
        planned_start(content_length, workers, i) + planned_len(content_length, workers, i) - 1
    }
}

/// Computes the worker count for a transfer: `min(requested, content_length /
/// chunk_size + 1)`.
pub fn resolve_worker_count(requested: u64, content_length: u64, chunk_size: u64) -> (r: u64)
    requires
        chunk_size > 0,
    ensures
        r == worker_count(requested as int, content_length as int, chunk_size as int),
{
    let whole = content_length / chunk_size;
    if requested <= whole {
        requested
    } else {
        whole + 1
    }
}

/// The computed worker count never exceeds the requested count nor the number
/// of chunk-sized units plus one; for an empty resource it is exactly one.
pub proof fn lemma_worker_count_bound(requested: int, content_length: int, chunk_size: int)
    requires
        requested >= 1,
        content_length >= 0,
        chunk_size > 0,
    ensures
        worker_count(requested, content_length, chunk_size) <= requested,
        worker_count(requested, content_length, chunk_size) <= content_length / chunk_size + 1,
        worker_count(requested, content_length, chunk_size) >= 1,
        content_length == 0 ==> worker_count(requested, content_length, chunk_size) == 1,
{
    assert(content_length / chunk_size >= 0);
    if content_length == 0 {
        assert(content_length / chunk_size == 0);
    }
}

proof fn lemma_start_step(content_length: int, workers: int, i: int)
    requires
        1 <= workers,
        0 <= content_length,
        0 <= i < workers,
    ensures
        planned_start(content_length, workers, i) + span(content_length, workers)
            == planned_start(content_length, workers, i + 1),
        0 <= planned_start(content_length, workers, i),
        planned_start(content_length, workers, i + 1) <= content_length,
        span(content_length, workers) >= 0,
        planned_len(content_length, workers, i) >= span(content_length, workers),
        content_length > 0 && i == workers - 1 ==> planned_len(content_length, workers, i) > 0,
{
    let s = span(content_length, workers);
    assert(s >= 0) by (nonlinear_arith)
        requires
            1 <= workers,
            0 <= content_length,
            s == content_length / workers,
    ;
    assert(i * s + s == (i + 1) * s) by (nonlinear_arith);
    assert(0 <= i * s) by (nonlinear_arith)
        requires
            0 <= i,
            s >= 0,
    ;
    assert((i + 1) * s <= workers * s) by (nonlinear_arith)
        requires
            i + 1 <= workers,
            s >= 0,
    ;
    assert(workers * s <= content_length) by (nonlinear_arith)
        requires
            workers >= 1,
            content_length >= 0,
            s == content_length / workers,
    ;
    assert((workers - 1) * s + s == workers * s) by (nonlinear_arith);
    if s == 0 {
        assert((workers - 1) * s == 0) by (nonlinear_arith)
            requires
                s == 0,
        ;
    }
}

/// Splits `content_length` bytes among `worker_count` workers: worker `i`
/// starts at `i * (content_length / worker_count)`; all but the last fetch
/// that many bytes, and the last fetches the rest, up to the last byte.
/// Where there are more workers than bytes, all but the last get an empty
/// range.
pub fn plan_ranges(content_length: u64, worker_count: u64, chunk_size: u64) -> (r: Vec<RangeTask>)
    requires
        worker_count >= 1,
        chunk_size > 0,
    ensures
        r@.len() == worker_count,
        forall|i: int|
            0 <= i < worker_count ==> {
                let t = #[trigger] r@[i];
                let (l, w) = (content_length as int, worker_count as int);
                &&& t.wf()
                &&& t.index == i
                &&& t.first == planned_start(l, w, i)
                &&& t.len == planned_len(l, w, i)
                &&& t.range_end == planned_end(l, w, i)
                &&& t.chunk_size == chunk_size
                &&& t.range_start == t.first
                &&& t.last_chunk == 0
                &&& t.phase is Idle
            },
{
    let ghost (l, w) = (content_length as int, worker_count as int);
    let span_bytes = content_length / worker_count;
    let mut tasks: Vec<RangeTask> = Vec::new();
    let mut range_start: u64 = 0;
    let mut i: u64 = 0;
    while i < worker_count
        invariant
            1 <= worker_count,
            chunk_size > 0,
            (l, w) == (content_length as int, worker_count as int),
            span_bytes == span(l, w),
            0 <= i <= worker_count,
            range_start == planned_start(l, w, i as int),
            range_start <= content_length,
            tasks@.len() == i,
            forall|j: int|
                0 <= j < i ==> {
                    let t = #[trigger] tasks@[j];
                    &&& t.wf()
                    &&& t.index == j
                    &&& t.first == planned_start(l, w, j)
                    &&& t.len == planned_len(l, w, j)
                    &&& t.range_end == planned_end(l, w, j)
                    &&& t.chunk_size == chunk_size
                    &&& t.range_start == t.first
                    &&& t.last_chunk == 0
                    &&& t.phase is Idle
                },
        decreases worker_count - i,
    {
        proof {
            lemma_start_step(l, w, i as int);
            assert((w - 1) * span(l, w) == planned_start(l, w, w - 1));
        }
        let len = if i == worker_count - 1 { content_length - range_start } else { span_bytes };
        let range_end = if len == 0 { range_start } else { range_start + len - 1 };
        let task = RangeTask::new(i, range_start, range_end, len, chunk_size);
        tasks.push(task);
        range_start = range_start + span_bytes;
        i = i + 1;
    }
    tasks
}

/// The planned ranges partition `[0, content_length - 1]`: the first starts
/// at byte 0, each one ends right before the next begins, and the last ends
/// at the last byte. Non-empty ranges are pairwise disjoint, so every byte
/// lies in exactly one range (see `lemma_byte_covered`). Ranges are empty only
/// where there are more workers than bytes; for an empty resource the one
/// range is empty.
pub proof fn lemma_ranges_partition(content_length: int, workers: int)
    requires
        1 <= workers,
        0 <= content_length,
    ensures
        planned_start(content_length, workers, 0) == 0,
        planned_start(content_length, workers, workers - 1) + planned_len(content_length, workers, workers - 1)
            == content_length,
        content_length > 0 ==> planned_len(content_length, workers, workers - 1) > 0
            && planned_end(content_length, workers, workers - 1) == content_length - 1,
        forall|i: int| 0 <= i < workers ==> #[trigger] planned_len(content_length, workers, i) >= 0,
        forall|i: int|
            0 <= i < workers - 1 ==> planned_start(content_length, workers, i) + #[trigger] planned_len(
                content_length,
                workers,
                i,
            ) == planned_start(content_length, workers, i + 1),
        forall|i: int|
            0 <= i < workers && planned_len(content_length, workers, i) > 0 ==> #[trigger] planned_end(
                content_length,
                workers,
                i,
            ) == planned_start(content_length, workers, i) + planned_len(content_length, workers, i) - 1,
        forall|i: int, j: int|
            0 <= i < j < workers && planned_len(content_length, workers, i) > 0 ==> #[trigger] planned_end(
                content_length,
                workers,
                i,
            ) < #[trigger] planned_start(content_length, workers, j),
{
    let (l, w) = (content_length, workers);
    let s = span(l, w);
    assert(0 * s == 0);
    lemma_start_step(l, w, w - 1);
    assert forall|i: int| 0 <= i < w implies #[trigger] planned_len(l, w, i) >= 0 by {
        lemma_start_step(l, w, i);
    }
    assert forall|i: int| 0 <= i < w - 1 implies planned_start(l, w, i) + #[trigger] planned_len(l, w, i)
        == planned_start(l, w, i + 1) by {
        lemma_start_step(l, w, i);
    }
    assert forall|i: int, j: int|
        0 <= i < j < w && planned_len(l, w, i) > 0 implies #[trigger] planned_end(l, w, i)
        < #[trigger] planned_start(l, w, j) by {
        lemma_start_step(l, w, i);
        assert(i < w - 1);
        assert((i + 1) * s <= j * s) by (nonlinear_arith)
            requires
                i + 1 <= j,
                s >= 0,
        ;
    }
}

/// Every byte of the resource lies in some non-empty planned range (with
/// `lemma_ranges_partition`: in exactly one).
pub proof fn lemma_byte_covered(content_length: int, workers: int, b: int)
    requires
        1 <= workers,
        0 <= b < content_length,
    ensures
        exists|i: int|
            0 <= i < workers && planned_len(content_length, workers, i) > 0 && planned_start(
                content_length,
                workers,
                i,
            ) <= b <= #[trigger] planned_end(content_length, workers, i),
{
    let (l, w) = (content_length, workers);
    let s = span(l, w);
    lemma_start_step(l, w, w - 1);
    if s == 0 {
        let i = w - 1;
        assert((w - 1) * s == 0) by (nonlinear_arith)
            requires
                s == 0,
        ;
        assert(planned_start(l, w, i) <= b <= planned_end(l, w, i));
    } else {
        let q = b / s;
        let i = if q < w - 1 { q } else { w - 1 };
        lemma_start_step(l, w, i);
        assert(q * s <= b) by (nonlinear_arith)
            requires
                s >= 1,
                q == b / s,
                b >= 0,
        ;
        assert(b < q * s + s) by (nonlinear_arith)
            requires
                s >= 1,
                q == b / s,
                b >= 0,
        ;
        assert(q >= 0) by (nonlinear_arith)
            requires
                s >= 1,
                q == b / s,
                b >= 0,
        ;
        if q < w - 1 {
            assert(planned_start(l, w, i) <= b <= planned_end(l, w, i));
        } else {
            assert(i * s <= q * s) by (nonlinear_arith)
                requires
                    i <= q,
                    s >= 0,
            ;
            assert(planned_start(l, w, i) <= b <= planned_end(l, w, i));
        }
    }
}

/// The file after the writes of each task of `ts`, in order, copied their
/// bytes from `src`.
pub open spec fn apply_tasks(file: Seq<u8>, src: Seq<u8>, ts: Seq<RangeTask>) -> Seq<u8>
    decreases ts.len(),
{
    if ts.len() == 0 {
        file
    } else {
        apply_writes(apply_tasks(file, src, ts.drop_last()), src, ts.last().writes@)
    }
}

/// Whether `ts` are the tasks of the plan for `content_length` bytes and
/// `workers` workers, each one finished.
pub open spec fn finished_plan(content_length: int, workers: int, ts: Seq<RangeTask>) -> bool {
    &&& ts.len() == workers
    &&& forall|i: int|
        0 <= i < workers ==> {
            let t = #[trigger] ts[i];
            &&& t.wf()
            &&& t.phase is Finished
            &&& t.first == planned_start(content_length, workers, i)
            &&& t.len == planned_len(content_length, workers, i)
        }
}

spec fn done_bound(content_length: int, workers: int, i: int) -> int {
    if i == 0 {
        0
    } else {
        planned_start(content_length, workers, i - 1) + planned_len(content_length, workers, i - 1)
    }
}

proof fn lemma_plan_prefix_applied(
    l: int,
    w: int,
    ts: Seq<RangeTask>,
    file: Seq<u8>,
    src: Seq<u8>,
    i: int,
)
    requires
        1 <= w,
        0 <= l,
        0 <= i <= w,
        finished_plan(l, w, ts),
        file.len() == l,
        src.len() == l,
    ensures
        apply_tasks(file, src, ts.take(i)).len() == l,
        forall|k: int|
            0 <= k < l ==> #[trigger] apply_tasks(file, src, ts.take(i))[k] == if k < done_bound(l, w, i) {
                src[k]
            } else {
                file[k]
            },
    decreases i,
{
    lemma_ranges_partition(l, w);
    if i == 0 {
        assert(ts.take(0) =~= Seq::<RangeTask>::empty());
    } else {
        let j = i - 1;
        lemma_plan_prefix_applied(l, w, ts, file, src, j);
        let prev = apply_tasks(file, src, ts.take(j));
        let t = ts[j];
        assert(ts.take(i).drop_last() =~= ts.take(j));
        assert(ts.take(i).last() == t);
        lemma_finished_task_copies_its_range(t, prev, src);
        assert(planned_len(l, w, j) >= 0);
        if j > 0 {
            assert(planned_start(l, w, j - 1) + planned_len(l, w, j - 1) == planned_start(l, w, j));
        }
    }
}

/// Once every planned task has finished, the file holds exactly the
/// resource, however many attempts each task needed: a transfer is a byte
/// for byte copy whatever the worker count and chunk size.
pub proof fn lemma_finished_plan_reproduces_resource(
    content_length: int,
    workers: int,
    ts: Seq<RangeTask>,
    file: Seq<u8>,
    src: Seq<u8>,
)
    requires
        1 <= workers,
        0 <= content_length,
        finished_plan(content_length, workers, ts),
        file.len() == content_length,
        src.len() == content_length,
    ensures
        apply_tasks(file, src, ts) == src,
{
    lemma_ranges_partition(content_length, workers);
    lemma_plan_prefix_applied(content_length, workers, ts, file, src, workers);
    assert(ts.take(workers) =~= ts);
    assert(apply_tasks(file, src, ts) =~= src);
}

} // verus!
