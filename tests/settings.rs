use rlget::cli::{parse_args, Args};
use rlget::download::{discovery_action, Discovery, DiscoveryAction, Download};
use rlget::status::{RangeRecord, Status};
use rlget::worker::RangeTask;

fn args(url: &str, threads: u64, memory: u64, filename: &str) -> Args {
    Args {
        flag_threads: threads,
        flag_t: 0,
        flag_memory: memory,
        flag_m: 0,
        flag_filename: filename.to_string(),
        flag_f: String::new(),
        flag_d: false,
        flag_debug: true,
        flag_o: String::new(),
        flag_originfile: "orig.bin".to_string(),
        arg_url: url.to_string(),
    }
}

#[test]
fn parse_args_defaults() {
    let (url, threads, filename, memory, debug, origin) = parse_args(args("http://host/dir/file.iso", 0, 0, ""));
    assert_eq!(url, "http://host/dir/file.iso");
    assert_eq!(threads, 5);
    assert_eq!(filename, "file.iso");
    assert_eq!(memory, 256);
    assert!(debug);
    assert_eq!(origin, "orig.bin");
}

#[test]
fn parse_args_given_values() {
    let (_, threads, filename, memory, _, _) = parse_args(args("http://host/file.iso", 8, 64, "out.bin"));
    assert_eq!(threads, 8);
    assert_eq!(filename, "out.bin");
    assert_eq!(memory, 64);
}

#[test]
fn filename_from_url_edges() {
    assert_eq!(parse_args(args("noslash", 0, 0, "")).2, "noslash");
    assert_eq!(parse_args(args("http://host/dir/", 0, 0, "")).2, "");
}

#[test]
fn download_defaults() {
    let d = Download::default();
    assert_eq!(d.url, "");
    assert_eq!(d.filename, "");
    assert_eq!(d.memory, 256);
    assert_eq!(d.threads, 5);
}

#[test]
fn plan_parts_resolves_threads() {
    let mut d = Download { url: "u".to_string(), filename: "f".to_string(), memory: 1, threads: 5 };
    let tasks = d.plan_parts(2048 + 10).unwrap();
    assert_eq!(d.threads, 3);
    assert_eq!(tasks.len(), 3);
    assert_eq!(tasks[2].range_end, 2057);
    assert_eq!(tasks.iter().map(|t| t.chunk_size).max(), Some(1024));
}

#[test]
fn plan_parts_empty_resource() {
    let mut d = Download::default();
    let tasks = d.plan_parts(0).unwrap();
    assert_eq!(d.threads, 1);
    assert_eq!(tasks.len(), 1);
    assert_eq!(tasks[0].len, 0);
}

#[test]
fn plan_parts_unusable_settings() {
    let mut d = Download { url: String::new(), filename: String::new(), memory: 0, threads: 5 };
    assert!(d.plan_parts(100).is_none());
    assert_eq!(d.threads, 5);
    let mut d = Download { url: String::new(), filename: String::new(), memory: u64::MAX, threads: 5 };
    assert!(d.plan_parts(100).is_none());
}

#[test]
fn plan_parts_fewer_bytes_than_workers() {
    let mut d = Download { url: String::new(), filename: String::new(), memory: 1, threads: 5 };
    // 0 whole kilobytes, so one worker, which fits in 3 bytes
    assert_eq!(d.plan_parts(3).unwrap().len(), 1);
}

#[test]
fn discovery_decisions() {
    assert_eq!(discovery_action(Discovery::ConnectionFailed), DiscoveryAction::Retry { after_secs: 60 });
    assert_eq!(discovery_action(Discovery::LengthMissing), DiscoveryAction::Retry { after_secs: 3 });
    assert_eq!(discovery_action(Discovery::Length(42)), DiscoveryAction::Transfer { content_length: 42 });
}

#[test]
fn status_new_and_load() {
    let s = Status::new("http://h/f", "f");
    assert_eq!(s.url, "http://h/f");
    assert_eq!(s.file_name, "f");
    assert!(s.ranges.is_empty());
    let l = Status::load_file("f.toml");
    assert_eq!(l.url, "");
    assert!(l.ranges.is_empty());
}

#[test]
fn range_record_of_task() {
    let t = RangeTask::new(2, 100, 199, 100, 10);
    assert_eq!(RangeRecord::of_task(&t), RangeRecord { task_no: 2, range_start: 100, range_end: 199 });
}
