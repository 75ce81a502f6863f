use dendrite::protocol::detection::{EntityKind, ObservationKind};
use dendrite::telemetry::{
    fanotify_kind, local_host, parse_process_stat, process_started, stable_hash,
    TelemetrySource,
};
use dendrite::telemetry::{ProcessTracker, polled_file_written, FileFingerprint, FileTracker, fanotify_observation, EventBatch, fanotify_records, FanotifyRecord};

#[test]
fn stable_hash_is_deterministic() {
    assert_eq!(stable_hash("/tmp/example"), stable_hash("/tmp/example"));
    assert_ne!(stable_hash("/tmp/example"), stable_hash("/tmp/other"));
}

#[test]
fn stable_hash_is_fnv1a() {
    assert_eq!(stable_hash(""), 0xcbf29ce484222325);
    assert_eq!(stable_hash("a"), 0xaf63dc4c8601ec8c);
}

#[test]
fn source_names_are_stable() {
    assert_eq!(TelemetrySource::ProcPolling.as_str(), "proc_polling");
    assert_eq!(
        TelemetrySource::FilesystemPolling.as_str(),
        "filesystem_polling"
    );
    assert_eq!(TelemetrySource::Fanotify.as_str(), "fanotify");
    assert_eq!(TelemetrySource::Ebpf.as_str(), "ebpf");
}

const STAT: &str = "4242 (my (odd) name) S 1 4242 4242 0 -1 4194560 100 0 0 0 1 2 0 0 20 0 1 0 987654 1000 100 18446744073709551615";

#[test]
fn process_stat_line_is_parsed() {
    let process = parse_process_stat(4242, STAT).unwrap();
    assert_eq!(process.pid, 4242);
    assert_eq!(process.parent_pid, Some(1));
    assert_eq!(process.start_ticks, 987654);
    assert_eq!(process.id, "process:4242:987654");
    assert_eq!(process.label, "my (odd) name");
}

#[test]
fn process_stat_line_without_parent_or_fields_is_handled() {
    let orphan = "1 (init) S 0 1 1 0 -1 4194560 100 0 0 0 1 2 0 0 20 0 1 0 15 1000";
    let process = parse_process_stat(1, orphan).unwrap();
    assert_eq!(process.parent_pid, None);
    assert_eq!(process.start_ticks, 15);

    assert!(parse_process_stat(7, "7 (short) S 1 2 3").is_none());
    assert!(parse_process_stat(7, "7 no parentheses").is_none());
    assert!(parse_process_stat(7, "7 (x)").is_none());
}

#[test]
fn new_process_is_observed_as_started_by_its_parent() {
    let parent = parse_process_stat(1, "1 (init) S 0 1 1 0 -1 4194560 100 0 0 0 1 2 0 0 20 0 1 0 15 1000").unwrap();
    let child = parse_process_stat(4242, STAT).unwrap();
    let collected = process_started(&child, Some(&parent), 500);
    assert_eq!(collected.event, "process_started");
    assert_eq!(collected.process_id, Some(4242));
    assert_eq!(collected.observation.id.0, "proc-start:4242:987654");
    assert_eq!(collected.observation.kind, ObservationKind::ProcessStarted);
    assert_eq!(collected.observation.source.id.0, "process:1:15");
    assert_eq!(
        collected.observation.target.as_ref().unwrap().id.0,
        "process:4242:987654"
    );
    assert_eq!(collected.observation.expires_at, Some(4100));
}

#[test]
fn fanotify_masks_are_classified() {
    let (kind, event, confidence) = fanotify_kind(2).unwrap();
    assert_eq!(kind, ObservationKind::FileWritten);
    assert_eq!(event, "file_written");
    assert_eq!(confidence, 100);
    let (kind, event, confidence) = fanotify_kind(32).unwrap();
    assert_eq!(kind, ObservationKind::FileRead);
    assert_eq!(event, "file_opened");
    assert_eq!(confidence, 95);
    assert!(fanotify_kind(1).is_none());
}

#[test]
fn local_host_descriptor_is_fixed() {
    let host = local_host();
    assert_eq!(host.id.0, "host:local");
    assert_eq!(host.kind, EntityKind::Host);
}

#[test]
fn process_tracker_reports_only_processes_new_since_the_last_poll() {
    let mut tracker = ProcessTracker::new();
    assert!(!tracker.is_new("process:1:15"));
    tracker.finish_poll(vec!["process:1:15".to_string()]);
    assert!(!tracker.is_new("process:1:15"));
    assert!(tracker.is_new("process:2:16"));
}

#[test]
fn file_tracker_reports_changed_fingerprints_after_the_first_scan() {
    let mut tracker = FileTracker::new();
    let first = FileFingerprint { modified_nanos: 10, len: 3 };
    assert!(!tracker.changed("/tmp/a", first));
    tracker.finish_scan(vec![("/tmp/a".to_string(), first)]);
    assert!(!tracker.changed("/tmp/a", first));
    assert!(tracker.changed("/tmp/a", FileFingerprint { modified_nanos: 11, len: 3 }));
    assert!(tracker.changed("/tmp/b", first));
    let collected = polled_file_written("/tmp/a", 7);
    assert_eq!(collected.event, "file_written");
    assert_eq!(collected.observation.source.id.0, "host:local");
    assert_eq!(
        collected.observation.target.as_ref().unwrap().id.0,
        "file:/tmp/a"
    );
    assert_eq!(collected.observation.confidence.value(), 90);
}

#[test]
fn event_batch_drops_repeated_events() {
    let mut batch = EventBatch::new();
    let event = || fanotify_observation(2, local_host(), Some(9), "/tmp/a", 5).unwrap();
    assert!(batch.offer(event()));
    assert!(!batch.offer(event()));
    assert!(batch.offer(fanotify_observation(32, local_host(), Some(9), "/tmp/a", 5).unwrap()));
    assert_eq!(batch.into_events().len(), 2);
}

fn fanotify_header(len: u32, mask: u64, fd: i32, pid: i32) -> Vec<u8> {
    let mut bytes = Vec::new();
    bytes.extend_from_slice(&len.to_le_bytes());
    bytes.extend_from_slice(&[3, 0]);
    bytes.extend_from_slice(&24u16.to_le_bytes());
    bytes.extend_from_slice(&mask.to_le_bytes());
    bytes.extend_from_slice(&fd.to_le_bytes());
    bytes.extend_from_slice(&pid.to_le_bytes());
    bytes
}

#[test]
fn fanotify_records_walk_headers_and_skip_events_without_descriptor() {
    let mut buffer = fanotify_header(24, 0x20, 7, 100);
    buffer.extend(fanotify_header(24, 0x8, -1, 101));
    let mut long = fanotify_header(28, 0x2, 9, -5);
    long.extend_from_slice(&[0, 0, 0, 0]);
    buffer.extend(long);
    buffer.extend(fanotify_header(99, 0x2, 11, 102));
    let records = fanotify_records(&buffer, true);
    assert_eq!(
        records,
        vec![
            FanotifyRecord { mask: 0x20, fd: 7, pid: 100 },
            FanotifyRecord { mask: 0x2, fd: 9, pid: -5 },
        ]
    );
    assert!(fanotify_records(&fanotify_header(0, 0x2, 1, 1), true).is_empty());
    assert!(fanotify_records(&buffer[..20], true).is_empty());
    let big = {
        let mut b = Vec::new();
        b.extend_from_slice(&24u32.to_be_bytes());
        b.extend_from_slice(&[3, 0]);
        b.extend_from_slice(&24u16.to_be_bytes());
        b.extend_from_slice(&0x20u64.to_be_bytes());
        b.extend_from_slice(&4i32.to_be_bytes());
        b.extend_from_slice(&(-2i32).to_be_bytes());
        b
    };
    assert_eq!(fanotify_records(&big, false), vec![FanotifyRecord { mask: 0x20, fd: 4, pid: -2 }]);
}
