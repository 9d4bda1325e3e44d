use codex_desktop::wal::config::{
    done_file_name, is_done_name, wal_file_name, WalConfig, WalManager,
};
use codex_desktop::wal::crc::{update_crc, update_crc_run};
use codex_desktop::wal::gc::{age_order, sum_sizes, DoneFile, GcRun};
use codex_desktop::wal::record::{
    compute_crc32c, decode_records, encode_record, replay, Record, RecordKind, WalReadError,
};

#[test]
fn record_kind_durability_boundaries() {
    assert!(RecordKind::TurnCompleted.is_durability_boundary());
    assert!(RecordKind::ApprovalDecision.is_durability_boundary());
    assert!(!RecordKind::TurnStarted.is_durability_boundary());
    assert!(!RecordKind::ServerNotification.is_durability_boundary());
}

#[test]
fn record_kind_round_trip_byte() {
    for k in [
        RecordKind::TurnStarted,
        RecordKind::ServerNotification,
        RecordKind::UserOp,
        RecordKind::ApprovalDecision,
        RecordKind::TurnCompleted,
        RecordKind::Sentinel,
    ] {
        assert_eq!(RecordKind::from_u8(k.to_u8()), Some(k));
    }
    assert!(RecordKind::from_u8(0xFE).is_none());
}

#[test]
fn crc32c_known_vector() {
    // We're testing OUR CRC pipeline, not the standard "123456789" vector — so just assert idempotence.
    let crc = compute_crc32c(RecordKind::TurnStarted, b"23456789");
    let crc2 = compute_crc32c(RecordKind::TurnStarted, b"23456789");
    assert_eq!(crc, crc2);
    let different = compute_crc32c(RecordKind::TurnStarted, b"23456788");
    assert_ne!(crc, different);
}

fn fixture(method: &str, n: u32) -> Vec<u8> {
    let value = ciborium::Value::Map(vec![
        (ciborium::Value::Text("method".into()), ciborium::Value::Text(method.into())),
        (ciborium::Value::Text("n".into()), ciborium::Value::Integer(n.into())),
    ]);
    let mut out = Vec::new();
    ciborium::into_writer(&value, &mut out).expect("serialise");
    out
}

fn log_of(records: &[(RecordKind, Vec<u8>)]) -> Vec<u8> {
    let mut out = Vec::new();
    for (kind, payload) in records {
        out.extend(encode_record(*kind, payload).expect("fits"));
    }
    out
}

#[test]
fn append_and_replay_round_trip() {
    let log = log_of(&[
        (RecordKind::TurnStarted, fixture("thread/started", 1)),
        (RecordKind::ServerNotification, fixture("agent/message_delta", 2)),
    ]);
    let records = replay(Ok(log)).expect("replays");
    assert_eq!(records.len(), 2);
    assert_eq!(records[0].kind, RecordKind::TurnStarted);
    assert_eq!(records[1].kind, RecordKind::ServerNotification);
    assert_eq!(records[1].payload, fixture("agent/message_delta", 2));
}

#[test]
fn replay_detects_crc_corruption() {
    let mut bytes = log_of(&[(RecordKind::TurnStarted, fixture("x", 1))]);
    let last = bytes.len() - 1;
    bytes[last] ^= 0xFF;
    let result = decode_records(&bytes);
    assert!(matches!(result, Err(WalReadError::CrcMismatch { .. })));
}

#[test]
fn truncated_wal_returns_partial_records() {
    let bytes = log_of(&[
        (RecordKind::TurnStarted, fixture("x", 1)),
        (RecordKind::ServerNotification, fixture("y", 2)),
    ]);
    let result = decode_records(&bytes[..bytes.len() - 2]);
    assert!(
        matches!(result, Err(WalReadError::Truncated { records_recovered: 1, .. })),
        "result was {result:?}",
    );
}

#[test]
fn gc_removes_old_done_files() {
    let now: i128 = 1_700_000_000_000_000_000;
    let files = vec![DoneFile { mtime: now - 10_000_000, size: 10 }];
    let mut run = GcRun::start(files, Some(now), 1024 * 1024);
    while run.next_removal().is_some() {
        run.report(true);
    }
    assert!(run.removed() >= 1);
}

#[test]
fn a_record_has_this_layout() {
    let bytes = encode_record(RecordKind::TurnStarted, b"").expect("fits");
    assert_eq!(bytes.len(), 9);
    assert_eq!(&bytes[..5], &[1, 0, 0, 0, RecordKind::TurnStarted.to_u8()]);
    assert_eq!(
        u32::from_le_bytes([bytes[5], bytes[6], bytes[7], bytes[8]]),
        compute_crc32c(RecordKind::TurnStarted, b"")
    );
    assert_eq!(decode_records(&bytes), Ok(vec![Record { kind: RecordKind::TurnStarted, payload: vec![] }]));
    assert_eq!(decode_records(b""), Ok(vec![]));
}

#[test]
fn checksum_has_the_standard_check_value() {
    assert_eq!(!update_crc_run(!0, b"123456789"), 0xE306_9283);
    assert_eq!(update_crc(update_crc(7, 1), 2), update_crc_run(7, &[1, 2]));
}

#[test]
fn unknown_kinds_are_refused() {
    let mut bytes = encode_record(RecordKind::UserOp, b"abc").expect("fits");
    bytes[4] = 0xFE;
    let err = decode_records(&bytes).expect_err("unknown kind");
    assert_eq!(err, WalReadError::InvalidKind(0xFE));
    assert_eq!(err.message(), "invalid record kind 0xFE");
}

#[test]
fn read_errors_say_what_happened() {
    assert_eq!(WalReadError::Io("gone".into()).message(), "io: gone");
    assert_eq!(replay(Err("gone".into())), Err(WalReadError::Io("gone".into())));
    let short = decode_records(&[9, 0, 0, 0]).expect_err("too short");
    assert_eq!(short.message(), "truncated WAL after 0 record(s)");
    let mut bytes = log_of(&[(RecordKind::Sentinel, vec![1]), (RecordKind::UserOp, vec![2, 3])]);
    let n = bytes.len();
    bytes[n - 5] ^= 1;
    match decode_records(&bytes).expect_err("changed") {
        WalReadError::CrcMismatch { index, records } => {
            assert_eq!(index, 1);
            assert_eq!(records.len(), 1);
            assert_eq!(
                WalReadError::CrcMismatch { index, records }.message(),
                "CRC mismatch at record 1"
            );
        }
        other => panic!("expected CrcMismatch, got {other:?}"),
    }
}

#[test]
fn every_cut_of_a_log_keeps_the_whole_records() {
    let first = encode_record(RecordKind::TurnStarted, b"one").expect("fits");
    let bytes = log_of(&[
        (RecordKind::TurnStarted, b"one".to_vec()),
        (RecordKind::TurnCompleted, b"two".to_vec()),
    ]);
    for cut in 0..bytes.len() {
        let whole = usize::from(cut >= first.len());
        match decode_records(&bytes[..cut]) {
            Ok(records) => assert!(cut == 0 || cut == first.len(), "cut {cut}: {records:?}"),
            Err(WalReadError::Truncated { records_recovered, records }) => {
                assert_eq!(records_recovered, whole, "cut {cut}");
                assert_eq!(records.len(), whole);
            }
            Err(other) => panic!("cut {cut}: {other:?}"),
        }
    }
}

#[test]
fn old_files_go_first_and_then_the_quota_is_met() {
    let files = vec![
        DoneFile { mtime: 30, size: 5 },
        DoneFile { mtime: 10, size: 7 },
        DoneFile { mtime: 20, size: 11 },
    ];
    assert_eq!(age_order(&files), vec![1, 2, 0]);
    assert_eq!(sum_sizes(&files), 23);
    let mut run = GcRun::start(files, Some(15), 12);
    let mut asked = Vec::new();
    while let Some(i) = run.next_removal() {
        asked.push(i);
        run.report(i != 2);
    }
    assert_eq!(asked, vec![1, 2, 0]);
    assert_eq!(run.removed(), 2);
}

#[test]
fn what_fits_the_quota_stays() {
    let files = vec![DoneFile { mtime: 10, size: 100 }, DoneFile { mtime: 20, size: 100 }];
    let mut run = GcRun::start(files, Some(15), 100);
    assert_eq!(run.next_removal(), Some(0));
    run.report(true);
    assert_eq!(run.next_removal(), None);
    assert_eq!(run.removed(), 1);
}

#[test]
fn a_log_that_could_not_be_deleted_for_its_age_is_tried_again_for_space() {
    let files = vec![DoneFile { mtime: 10, size: 100 }, DoneFile { mtime: 20, size: 100 }];
    let mut run = GcRun::start(files, Some(15), 100);
    assert_eq!(run.next_removal(), Some(0));
    run.report(false);
    assert_eq!(run.next_removal(), Some(0));
    run.report(true);
    assert_eq!(run.next_removal(), None);
    assert_eq!(run.removed(), 1);
}

#[test]
fn logs_have_these_places() {
    let cfg = WalConfig::defaults_under("/home/u");
    assert_eq!(cfg.root, "/home/u/.local/state/codex-desktop/turns");
    assert_eq!(cfg.retention_millis, 14 * 24 * 60 * 60 * 1000);
    assert_eq!(cfg.thread_quota_bytes, 256 * 1024 * 1024);
    let mgr = WalManager::new(cfg);
    assert_eq!(
        mgr.turn_path("th1", "t1"),
        "/home/u/.local/state/codex-desktop/turns/th1/t1.wal"
    );
    assert_eq!(mgr.cfg().thread_quota_bytes, 268_435_456);
    assert_eq!(wal_file_name("t1"), "t1.wal");
    assert_eq!(done_file_name("t1.wal"), "t1.wal.done");
}

#[test]
fn finished_logs_are_recognised_by_name() {
    let open = wal_file_name("t1");
    let done = done_file_name(&open);
    assert_eq!(done, "t1.wal.done");
    assert!(is_done_name(&done));
    assert!(!is_done_name(&open));
    assert!(!is_done_name(".done"));
    assert!(!is_done_name("done"));
    assert!(!is_done_name("notes.done"));
    assert!(!is_done_name("t1.done"));
}
