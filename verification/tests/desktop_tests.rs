use fileporter::desktop_actions::{
    completed_batch_output_ids, completed_item_destination, incoming_notification_text, macos_file_url,
    windows_drop_effect_payload, FileClipboardOperation,
};
use fileporter::error::AppError;
use fileporter::lifecycle_monitor::{WakeAction, WakeGapDetector};
use fileporter::logging::{files_to_remove, OwnedLogFile, LOG_RETENTION_NANOS};
use fileporter::records::{Batch, PersistedBatch, TransferItem};

const SECOND: u128 = 1_000_000_000;

#[test]
fn normal_gap_and_idempotence() {
    let now: u128 = 5 * SECOND;
    let mut detector = WakeGapDetector::new(now, 30 * SECOND);
    assert_eq!(detector.tick(now + 30 * SECOND), WakeAction::Reconcile);
    assert_eq!(detector.tick(now + 100 * SECOND), WakeAction::SuspendThenResume);
    assert_eq!(detector.tick(now + 130 * SECOND), WakeAction::Reconcile);
}

#[test]
fn ticking_twice_at_one_instant_only_reconciles() {
    let mut detector = WakeGapDetector::new(0, SECOND);
    assert_eq!(detector.tick(10 * SECOND), WakeAction::SuspendThenResume);
    assert_eq!(detector.tick(10 * SECOND), WakeAction::Reconcile);
    assert_eq!(detector.tick(SECOND), WakeAction::Reconcile);
}

fn log(path: &str, modified: i128, bytes: u64) -> OwnedLogFile {
    OwnedLogFile { path: path.into(), modified, bytes }
}

#[test]
fn cleanup_selection_keeps_recent_files_within_the_cap() {
    let now: i128 = 1_000_000 * 1_000_000_000;
    let second: i128 = 1_000_000_000;
    let old = log("old", now - LOG_RETENTION_NANOS - second, 1);
    let first = log("first", now - 3 * second, 20 * 1024 * 1024);
    let second_file = log("second", now - 2 * second, 20 * 1024 * 1024);
    let removed = files_to_remove(vec![second_file, old, first], now);
    assert_eq!(removed.iter().map(|file| file.path.as_str()).collect::<Vec<_>>(), vec!["old", "first"]);
}

#[test]
fn files_within_the_cap_are_all_kept() {
    let now: i128 = 10 * 1_000_000_000;
    let removed = files_to_remove(vec![log("a", 0, 10), log("b", 5, 10)], now);
    assert!(removed.is_empty());
    let removed = files_to_remove(vec![log("future", now + 1, 10)], now);
    assert!(removed.is_empty());
}

#[test]
fn windows_cut_payload_requests_move_drop_effect() {
    assert_eq!(windows_drop_effect_payload(FileClipboardOperation::Copy), 1);
    assert_eq!(windows_drop_effect_payload(FileClipboardOperation::Move), 2);
}

#[test]
fn macos_file_urls_are_percent_encoded_not_shell_interpolated() {
    let value = macos_file_url(Some("/tmp/space ; $(not-a-command).txt")).unwrap();
    assert_eq!(value, "file:///tmp/space%20%3B%20%24%28not-a-command%29.txt");
    assert!(!value.contains(' '));
    assert!(!value.contains("$("));
}

#[test]
fn non_text_paths_have_no_url_and_unicode_is_encoded_by_byte() {
    assert_eq!(macos_file_url(None), Err(AppError::DesktopActionFailed));
    assert_eq!(macos_file_url(Some("/é")).unwrap(), "file:///%C3%A9");
}

#[test]
fn notification_copy_is_redacted() {
    let (_, body) = incoming_notification_text(true, 2);
    assert_eq!(body, "Received 2 item(s).");
    assert!(!body.contains("C:\\"));
    let (title, failed) = incoming_notification_text(false, 9);
    assert_eq!(title, "Fileporter");
    assert_eq!(failed, "An incoming transfer could not be completed.");
}

fn batch(id: &str, direction: &str, state: &str) -> Batch {
    Batch {
        id: id.into(),
        direction: direction.into(),
        state: state.into(),
        created_at: 0,
        completed_at: None,
        total_bytes: 0,
        total_entries: 0,
        warning_count: 0,
        wait_for_available: false,
    }
}

fn item(id: &str, parent: Option<&str>, state: &str, destination: Option<&str>) -> TransferItem {
    TransferItem {
        id: id.into(),
        batch_id: "b".into(),
        parent_item_id: parent.map(|p| p.into()),
        kind: "file".into(),
        display_name: id.into(),
        source_path_local: None,
        destination_path_local: destination.map(|d| d.into()),
        size: 0,
        mtime: None,
        state: state.into(),
        warning_json: None,
    }
}

fn records() -> Vec<PersistedBatch> {
    vec![
        PersistedBatch {
            batch: batch("out", "outgoing", "completed"),
            targets: vec![],
            items: vec![item("sent", None, "completed", Some("/sent"))],
        },
        PersistedBatch {
            batch: batch("in", "incoming", "completed"),
            targets: vec![],
            items: vec![
                item("top", None, "completed", Some("/recv/top")),
                item("child", Some("top"), "completed", Some("/recv/top/child")),
                item("failed", None, "failed", Some("/recv/failed")),
                item("second", None, "completed", Some("/recv/second")),
            ],
        },
        PersistedBatch {
            batch: batch("running", "incoming", "receiving"),
            targets: vec![],
            items: vec![item("partial", None, "completed", Some("/recv/partial"))],
        },
    ]
}

#[test]
fn ids_authorize_only_existing_completed_incoming_outputs() {
    let all = records();
    assert_eq!(completed_item_destination(&all, "top").unwrap(), "/recv/top");
    assert_eq!(completed_item_destination(&all, "child"), Err(AppError::CompletedOutputUnavailable));
    assert_eq!(completed_item_destination(&all, "failed"), Err(AppError::CompletedOutputUnavailable));
    assert_eq!(completed_item_destination(&all, "sent"), Err(AppError::CompletedOutputUnavailable));
    assert_eq!(completed_item_destination(&all, "partial"), Err(AppError::CompletedOutputUnavailable));
    assert_eq!(completed_item_destination(&all, "missing"), Err(AppError::CompletedOutputUnavailable));
}

#[test]
fn completed_batch_actions_resolve_all_and_only_authorized_top_level_outputs() {
    let all = records();
    assert_eq!(completed_batch_output_ids(&all, "in").unwrap(), vec!["top".to_string(), "second".to_string()]);
    assert_eq!(completed_batch_output_ids(&all, "out"), Err(AppError::CompletedOutputUnavailable));
    assert_eq!(completed_batch_output_ids(&all, "running"), Err(AppError::CompletedOutputUnavailable));
    assert!(completed_batch_output_ids(&all, "not-a-batch").is_err());
}
