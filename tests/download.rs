use rlget::content_range::{check_response_error, parse_content_range, parse_content_range_str, TransferError};
use rlget::plan::{plan_ranges, resolve_worker_count, KB};
use rlget::worker::{chunk_matches_reference, RangeTask, WorkerAction, WorkerEvent, RETRY_BACKOFF_SECS};

#[test]
fn test_parse_content_range() {
    let (start, end, length) = parse_content_range("bytes 15439052-30878103/77195264".to_string()).unwrap();
    assert_eq!(15439052, start);
    assert_eq!(30878103, end);
    assert_eq!(77195264, length);
}

#[test]
fn test_parse_content_range_str() {
    let (start, end, length) = parse_content_range_str("bytes 15439052-30878103/77195264").unwrap();
    assert_eq!(15439052, start);
    assert_eq!(30878103, end);
    assert_eq!(77195264, length);
}

#[test]
fn test_str() {
    assert!("abc".starts_with("ab"));
    assert!("abc".ends_with("bc"));
    assert_eq!("234", "0123456789".get(0..5).unwrap().get(2..).unwrap());
}

fn change_to_zero(x: &mut u64) {
    *x = 0;
}

#[allow(unused_assignments, unused_mut)]
fn change_to_zerox(mut x: u64) {
    x = 0;
}

#[test]
fn test_mut_usize() {
    let mut i = 100;
    change_to_zero(&mut i);
    assert_eq!(0, i);

    let i = 100;
    change_to_zerox(i);
    assert_eq!(100, i);
}

#[test]
fn malformed_content_ranges_fail() {
    assert_eq!(parse_content_range_str(""), None);
    assert_eq!(parse_content_range_str("bytes"), None);
    assert_eq!(parse_content_range_str("bytes 1-2"), None);
    assert_eq!(parse_content_range_str("bytes 12/30"), None);
    assert_eq!(parse_content_range_str("bytes a-2/30"), None);
    assert_eq!(parse_content_range_str("bytes 1-2/"), None);
    assert_eq!(parse_content_range_str("bytes -2/30"), None);
    assert_eq!(parse_content_range_str("bytes 1-2/*"), None);
    assert_eq!(parse_content_range_str("bytes 1-2/18446744073709551616"), None);
    assert_eq!(parse_content_range("bytes 1-x/3".to_string()), None);
    assert_eq!(parse_content_range_str("x 1-2/3"), None);
    assert_eq!(parse_content_range_str(" 1-2/3"), None);
    assert_eq!(parse_content_range_str("Bytes 1-2/3"), None);
    assert_eq!(parse_content_range_str("bytes +7-9/10"), None);
    assert_eq!(parse_content_range_str("bytes 7-+9/10"), None);
}

#[test]
fn content_range_edge_numbers() {
    assert_eq!(parse_content_range_str("bytes 0-0/1"), Some((0, 0, 1)));
    assert_eq!(
        parse_content_range_str("bytes 0-18446744073709551614/18446744073709551615"),
        Some((0, 18446744073709551614, 18446744073709551615))
    );
}

#[test]
fn validator_accepts_matching_start() {
    let r = check_response_error(Some(15439052), Some("bytes 15439052-30878103/77195264"), 15439052);
    assert_eq!(r, Ok((15439052, 30878103, 77195264)));
}

#[test]
fn validator_errors() {
    let hdr = "bytes 15439052-30878103/77195264";
    assert_eq!(check_response_error(None, Some(hdr), 15439052), Err(TransferError::ContentLengthMissing));
    assert_eq!(check_response_error(Some(5), None, 15439052), Err(TransferError::ContentRangeMissing));
    assert_eq!(check_response_error(Some(5), Some("garbage"), 0), Err(TransferError::ContentRangeMalformed));
    assert_eq!(check_response_error(Some(7), Some("x 1-2/3"), 1), Err(TransferError::ContentRangeMalformed));
    assert_eq!(check_response_error(Some(5), Some("bytes 0-30878103/77195264"), 15439052), Err(TransferError::ContentRangeMismatch));
}

#[test]
fn worker_count_is_bounded() {
    let cs = 256 * KB;
    assert_eq!(resolve_worker_count(5, 0, cs), 1);
    assert_eq!(resolve_worker_count(5, 10, cs), 1);
    assert_eq!(resolve_worker_count(5, 3 * cs, cs), 4);
    assert_eq!(resolve_worker_count(5, 100 * cs, cs), 5);
    assert_eq!(resolve_worker_count(3, 10, 1), 3);
    assert_eq!(resolve_worker_count(u64::MAX, u64::MAX, 1), u64::MAX);
}

fn spans(tasks: &[RangeTask]) -> Vec<(u64, u64, u64, u64)> {
    tasks.iter().map(|t| (t.first, t.range_end, t.len, t.index)).collect()
}

#[test]
fn ten_bytes_three_workers() {
    let tasks = plan_ranges(10, 3, u64::MAX);
    assert_eq!(spans(&tasks), vec![(0, 2, 3, 0), (3, 5, 3, 1), (6, 9, 4, 2)]);
    let total: u64 = tasks.iter().map(|t| t.len).sum();
    assert_eq!(total, 10);
}

#[test]
fn single_worker_covers_everything() {
    let tasks = plan_ranges(77195264, 1, 256 * KB);
    assert_eq!(spans(&tasks), vec![(0, 77195263, 77195264, 0)]);
}

#[test]
fn ranges_partition_exactly() {
    for l in 0u64..40 {
        for w in 1..=l + 3 {
            let tasks = plan_ranges(l, w, 7);
            assert_eq!(tasks.len() as u64, w);
            let mut next = 0;
            for t in &tasks {
                assert_eq!(t.first, next);
                if t.len > 0 {
                    assert_eq!(t.range_end, t.first + t.len - 1);
                }
                next = t.first + t.len;
            }
            assert_eq!(next, l);
            if l > 0 {
                assert_eq!(tasks.last().unwrap().range_end, l - 1);
            }
        }
    }
}

#[test]
fn more_workers_than_bytes() {
    let tasks = plan_ranges(3, 5, 7);
    let lens: Vec<u64> = tasks.iter().map(|t| t.len).collect();
    assert_eq!(lens, vec![0, 0, 0, 0, 3]);
    assert_eq!(tasks[4].first, 0);
    assert_eq!(tasks[4].range_end, 2);
}

#[test]
fn empty_task_finishes_without_request() {
    let mut tasks = plan_ranges(0, 1, 262144);
    assert_eq!(tasks.len(), 1);
    assert_eq!(tasks[0].len, 0);
    assert_eq!(tasks[0].step(WorkerEvent::Begin), WorkerAction::Finish);
    assert!(tasks[0].is_finished());
}

#[test]
fn reference_comparison() {
    assert!(chunk_matches_reference(&[1, 2, 3], &[1, 2, 3]));
    assert!(!chunk_matches_reference(&[1, 2, 3], &[1, 2, 4]));
    assert!(!chunk_matches_reference(&[1, 2], &[1, 2, 3]));
    assert!(chunk_matches_reference(&[], &[]));
}

/// Drives one task against `source`, as a server honouring the range would,
/// writing into `file`; the reads listed in `failing_reads` (counted over the
/// whole run) break off. Returns every request start that was sent.
fn drive(task: &mut RangeTask, source: &[u8], file: &mut Vec<u8>, failing_reads: &[u64]) -> Vec<u64> {
    let total = source.len() as u64;
    let mut starts = vec![];
    let mut body: Vec<u8> = vec![];
    let mut pos = 0usize;
    let mut reads = 0u64;
    let mut action = task.step(WorkerEvent::Begin);
    loop {
        action = match action {
            WorkerAction::SendRequest { start, end } => {
                starts.push(start);
                let last = end.min(total - 1);
                let header = format!("bytes {}-{}/{}", start, last, total);
                let outcome = check_response_error(Some(last - start + 1), Some(&header), task.range_start);
                body = source[start as usize..=last as usize].to_vec();
                pos = 0;
                task.step(WorkerEvent::Responded(outcome))
            }
            WorkerAction::ReadChunk { offset, len } | WorkerAction::CopyRest { offset, len } => {
                reads += 1;
                if failing_reads.contains(&reads) {
                    task.step(WorkerEvent::Read(false))
                } else {
                    let n = len as usize;
                    file[offset as usize..offset as usize + n].copy_from_slice(&body[pos..pos + n]);
                    pos += n;
                    task.step(WorkerEvent::Read(true))
                }
            }
            WorkerAction::Sleep { secs } => {
                assert_eq!(secs, RETRY_BACKOFF_SECS);
                task.step(WorkerEvent::Begin)
            }
            WorkerAction::Finish => break,
            WorkerAction::Ignore => panic!("event out of phase"),
        };
    }
    assert!(task.is_finished());
    starts
}

fn source_bytes(n: usize) -> Vec<u8> {
    (0..n).map(|i| (i * 31 % 251) as u8).collect()
}

fn round_trip(l: u64, workers: u64, chunk: u64, failing_reads: &[u64]) {
    let source = source_bytes(l as usize);
    let mut file = vec![0u8; l as usize];
    let mut tasks = plan_ranges(l, workers, chunk);
    for t in tasks.iter_mut() {
        drive(t, &source, &mut file, failing_reads);
    }
    assert!(file == source);
}

#[test]
fn round_trip_one_and_five_workers() {
    let chunk = 256 * KB;
    for &w in &[1u64, 5] {
        round_trip(1_000_000, w, chunk, &[]);
        round_trip(4 * chunk, w, chunk, &[]);
        round_trip(1_000_000, w, chunk, &[2, 3]);
    }
}

#[test]
fn ten_bytes_huge_chunk_round_trip() {
    round_trip(10, 3, u64::MAX, &[]);
}

#[test]
fn retry_resumes_after_whole_chunks() {
    let source = source_bytes(100);
    let mut file = vec![0u8; 100];
    let mut task = RangeTask::new(0, 0, 99, 100, 16);
    // the fourth read breaks off after three whole chunks
    let starts = drive(&mut task, &source, &mut file, &[4]);
    assert_eq!(starts, vec![0, 48]);
    assert_eq!(task.last_chunk, 6);
    assert!(file == source);
}

#[test]
fn failed_remainder_is_retried_from_chunk_boundary() {
    let source = source_bytes(40);
    let mut file = vec![0u8; 40];
    let mut task = RangeTask::new(0, 0, 39, 40, 16);
    let starts = drive(&mut task, &source, &mut file, &[3]);
    assert_eq!(starts, vec![0, 32]);
    assert!(file == source);
}

#[test]
fn mismatched_range_writes_nothing() {
    let mut task = RangeTask::new(1, 50, 99, 50, 16);
    let a = task.step(WorkerEvent::Begin);
    assert_eq!(a, WorkerAction::SendRequest { start: 50, end: 99 });
    let outcome = check_response_error(Some(100), Some("bytes 0-99/100"), task.range_start);
    assert_eq!(outcome, Err(TransferError::ContentRangeMismatch));
    let a = task.step(WorkerEvent::Responded(outcome));
    assert_eq!(a, WorkerAction::Sleep { secs: 60 });
    assert_eq!(task.range_start, 50);
    assert_eq!(task.last_chunk, 0);
    let a = task.step(WorkerEvent::Begin);
    assert_eq!(a, WorkerAction::SendRequest { start: 50, end: 99 });
}

#[test]
fn connection_error_backs_off() {
    let mut task = RangeTask::new(0, 0, 9, 10, 4);
    task.step(WorkerEvent::Begin);
    let a = task.step(WorkerEvent::Responded(Err(TransferError::ConnectionError)));
    assert_eq!(a, WorkerAction::Sleep { secs: 60 });
}

#[test]
fn out_of_phase_events_are_ignored() {
    let mut task = RangeTask::new(0, 0, 9, 10, 4);
    assert_eq!(task.step(WorkerEvent::Read(true)), WorkerAction::Ignore);
    assert_eq!(task.step(WorkerEvent::Responded(Ok((0, 9, 10)))), WorkerAction::Ignore);
    assert_eq!(task.range_start, 0);
}

#[test]
fn chunk_reads_and_remainder() {
    let mut task = RangeTask::new(0, 10, 19, 10, 4);
    assert_eq!(task.step(WorkerEvent::Begin), WorkerAction::SendRequest { start: 10, end: 19 });
    assert_eq!(task.step(WorkerEvent::Responded(Ok((10, 19, 20)))), WorkerAction::ReadChunk { offset: 10, len: 4 });
    assert_eq!(task.step(WorkerEvent::Read(true)), WorkerAction::ReadChunk { offset: 14, len: 4 });
    assert_eq!(task.step(WorkerEvent::Read(true)), WorkerAction::CopyRest { offset: 18, len: 2 });
    assert_eq!(task.step(WorkerEvent::Read(true)), WorkerAction::Finish);
    assert!(task.is_finished());
    assert_eq!(task.step(WorkerEvent::Begin), WorkerAction::Finish);
}

#[test]
fn huge_chunk_means_one_remainder_write_per_worker() {
    let tasks = plan_ranges(10, 3, u64::MAX);
    for mut t in tasks {
        let (first, len) = (t.first, t.len);
        assert_eq!(t.step(WorkerEvent::Begin), WorkerAction::SendRequest { start: first, end: t.range_end });
        let a = t.step(WorkerEvent::Responded(Ok((first, first + len - 1, 10))));
        assert_eq!(a, WorkerAction::CopyRest { offset: first, len });
        assert_eq!(t.step(WorkerEvent::Read(true)), WorkerAction::Finish);
    }
}
