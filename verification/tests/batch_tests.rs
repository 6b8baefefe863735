use fileporter::desktop_actions::terminal_incoming_notice;
use fileporter::engine::{adoption_candidates, check_incoming_manifest, authenticated_peer_trusted, batch_finished, item_finished, target_finished};
use fileporter::network::TrustedPeerPin;
use fileporter::protocol::{
    BatchReceipt, Checkpoint, Chunk, ChunkAck, ControlMessage, EntryComplete, EntryKind, EntryVerified,
    ManifestEntry, ManifestPage, OfferAccept, OfferStart,
};
use fileporter::receiver::{
    check_chunk_append, chunk_belongs, completion_digest, expect_manifest, expect_offer, failure_disposition,
    incoming_batch_record, incoming_item_record, incoming_target_record, offer_acceptance, receive_root,
    replay_matches, resumable_batch, staged_file_complete, uuid_text, write_failure, ReceiveRefusal, MAX_CHUNK_BYTES,
};
use fileporter::records::{Batch, PersistedBatch, Settings, TrustedPeer};
use fileporter::sender::{
    accepted_checkpoints, ack_matches, check_outgoing, chunk_start, offer_messages, receipt_matches, resume_offset,
    verified_matches, OutgoingEntry, SendRefusal, SourceFacts,
};
use fileporter::settings_ops::validate_history_retention;
use fileporter::transfer::TransferError;

fn file(id: u8, parent: Option<u8>, components: &[&str], size: u64) -> OutgoingEntry {
    OutgoingEntry {
        entry_id: [id; 16],
        parent_entry_id: parent.map(|p| [p; 16]),
        kind: EntryKind::File,
        components: components.iter().map(|c| c.to_string()).collect(),
        size,
        mtime: Some("1700000000".into()),
        resume_offset: 0,
    }
}

fn dir(id: u8, parent: Option<u8>, components: &[&str]) -> OutgoingEntry {
    OutgoingEntry {
        entry_id: [id; 16],
        parent_entry_id: parent.map(|p| [p; 16]),
        kind: EntryKind::Directory,
        components: components.iter().map(|c| c.to_string()).collect(),
        size: 0,
        mtime: None,
        resume_offset: 0,
    }
}

fn file_facts(len: u64) -> Option<SourceFacts> {
    Some(SourceFacts { is_file: true, is_dir: false, len, mtime_secs: Some(1_700_000_000) })
}

fn dir_facts() -> Option<SourceFacts> {
    Some(SourceFacts { is_file: false, is_dir: true, len: 0, mtime_secs: None })
}

#[test]
fn queued_batches_are_rechecked_against_their_sources() {
    let entries = vec![dir(1, None, &["photos"]), file(2, Some(1), &["photos", "a.jpg"], 5), file(3, None, &["b.txt"], 7)];
    assert_eq!(check_outgoing(&entries, &vec![dir_facts(), file_facts(5), file_facts(7)]), Ok(12));
    assert_eq!(check_outgoing(&entries, &vec![dir_facts(), file_facts(6), file_facts(7)]), Err(SendRefusal::SourceChanged));
    assert_eq!(check_outgoing(&entries, &vec![dir_facts(), None, file_facts(7)]), Err(SendRefusal::SourceUnavailable));
    let mut moved = file_facts(5).unwrap();
    moved.mtime_secs = Some(1);
    assert_eq!(check_outgoing(&entries, &vec![dir_facts(), Some(moved), file_facts(7)]), Err(SendRefusal::SourceChanged));
    assert_eq!(check_outgoing(&entries, &vec![file_facts(0), file_facts(5), file_facts(7)]), Err(SendRefusal::InvalidDirectory));
    let orphan = vec![file(2, Some(1), &["photos", "a.jpg"], 5), dir(1, None, &["photos"])];
    assert_eq!(check_outgoing(&orphan, &vec![file_facts(5), dir_facts()]), Err(SendRefusal::ParentOrder));
    let twice = vec![file(1, None, &["a"], 1), file(1, None, &["b"], 1)];
    assert_eq!(check_outgoing(&twice, &vec![file_facts(1), file_facts(1)]), Err(SendRefusal::InvalidIdentity));
    let unsafe_path = vec![file(1, None, &[".."], 1)];
    assert_eq!(check_outgoing(&unsafe_path, &vec![file_facts(1)]), Err(SendRefusal::UnsafePath));
    assert_eq!(check_outgoing(&vec![], &vec![]), Err(SendRefusal::InvalidBatch));
    let huge = vec![file(1, None, &["a"], u64::MAX), file(2, None, &["b"], 1)];
    assert_eq!(check_outgoing(&huge, &vec![file_facts(u64::MAX), file_facts(1)]), Err(SendRefusal::BatchTooLarge));
    assert_eq!(SendRefusal::SourceChanged.message(), "source changed");
}

#[test]
fn offers_list_the_roots_and_every_entry() {
    let entries = vec![dir(1, None, &["photos"]), file(2, Some(1), &["photos", "a.jpg"], 5), file(3, None, &["b.txt"], 7)];
    let (offer, page) = offer_messages([4; 16], &entries, 12);
    assert_eq!(offer.batch_id, [4; 16]);
    assert_eq!(offer.total_bytes, 12);
    assert_eq!(offer.total_entries, 3);
    assert_eq!(offer.items.iter().map(|i| i.name.as_str()).collect::<Vec<_>>(), ["photos", "b.txt"]);
    assert_eq!(page.entries.len(), 3);
    assert!(page.final_page);
    assert_eq!(page.entries[1].components, ["photos", "a.jpg"]);
    assert_eq!(page.entries[1].parent_entry_id, Some([1; 16]));
}

#[test]
fn resumes_follow_the_receivers_durable_checkpoint() {
    let accept = ControlMessage::OfferAccept(OfferAccept {
        batch_id: [4; 16],
        destination_generation: 1,
        resolved_top_level_names: vec![],
        available_space_ok: true,
        checkpoints: vec![Checkpoint { entry_id: [2; 16], durable_offset: 3 }, Checkpoint { entry_id: [2; 16], durable_offset: 4 }],
    });
    let checkpoints = accepted_checkpoints(accept.clone(), [4; 16]).unwrap();
    assert_eq!(accepted_checkpoints(accept, [5; 16]), Err(SendRefusal::NotAccepted));
    let mut entry = file(2, None, &["a"], 10);
    assert_eq!(resume_offset(&checkpoints, &entry), Err(SendRefusal::InvalidResume));
    entry.resume_offset = 4;
    assert_eq!(resume_offset(&checkpoints, &entry), Ok(4));
    entry.size = 3;
    assert_eq!(resume_offset(&checkpoints, &entry), Err(SendRefusal::InvalidResume));
    assert_eq!(resume_offset(&vec![], &file(9, None, &["z"], 1)), Ok(0));
    assert_eq!(chunk_start(0, 4, 4), None);
    assert_eq!(chunk_start(0, 8, 4), Some(4));
    assert_eq!(chunk_start(8, 8, 4), Some(0));
}

#[test]
fn replies_must_name_this_batch_and_entry() {
    let ack = ControlMessage::ChunkAck(ChunkAck { batch_id: [1; 16], entry_id: [2; 16], durable_offset: 8 });
    assert!(ack_matches(&ack, &[1; 16], &[2; 16], 8));
    assert!(!ack_matches(&ack, &[1; 16], &[2; 16], 7));
    assert!(!ack_matches(&ack, &[1; 16], &[3; 16], 8));
    let verified = ControlMessage::EntryVerified(EntryVerified { batch_id: [1; 16], entry_id: [2; 16], relative_destination: vec![], blake3: "ab".into() });
    assert!(verified_matches(&verified, &[1; 16], &[2; 16], "ab"));
    assert!(!verified_matches(&verified, &[1; 16], &[2; 16], "cd"));
    let receipt = ControlMessage::BatchReceipt(BatchReceipt { batch_id: [1; 16], result: "completed".into() });
    assert!(receipt_matches(&receipt, &[1; 16]));
    assert!(!receipt_matches(&ControlMessage::BatchReceipt(BatchReceipt { batch_id: [1; 16], result: "failed".into() }), &[1; 16]));
    assert!(!receipt_matches(&ack, &[1; 16]));
}

fn settings(enabled: bool, directory: Option<&str>) -> Settings {
    let mut s = Settings::default();
    s.receiving_enabled = enabled;
    s.receive_directory = directory.map(|d| d.to_string());
    s
}

#[test]
fn receiving_needs_a_folder_and_the_switch_on() {
    assert_eq!(receive_root(&settings(false, Some("/in"))), Err(ReceiveRefusal::ReceivingDisabled));
    assert_eq!(receive_root(&settings(true, None)), Err(ReceiveRefusal::RootUnavailable));
    assert_eq!(receive_root(&settings(true, Some("/in"))), Ok("/in".to_string()));
    let offer = OfferStart { batch_id: [1; 16], items: vec![], total_bytes: 0, total_entries: 0, created_at: String::new() };
    assert_eq!(expect_offer(ControlMessage::OfferStart(offer.clone())), Ok(offer.clone()));
    assert_eq!(expect_manifest(ControlMessage::OfferStart(offer)), Err(ReceiveRefusal::ManifestRequired));
    let page = ManifestPage { batch_id: [1; 16], page: 0, entries: vec![], final_page: true };
    assert_eq!(expect_offer(ControlMessage::ManifestPage(page.clone())), Err(ReceiveRefusal::OfferRequired));
    assert_eq!(expect_manifest(ControlMessage::ManifestPage(page.clone())), Ok(page));
}

fn stored(id: &str, direction: &str, state: &str) -> PersistedBatch {
    PersistedBatch {
        batch: Batch {
            id: id.into(),
            direction: direction.into(),
            state: state.into(),
            created_at: 1,
            completed_at: None,
            total_bytes: 0,
            total_entries: 2,
            warning_count: 0,
            wait_for_available: false,
        },
        targets: vec![],
        items: vec![],
    }
}

#[test]
fn finalized_batches_are_never_received_again() {
    let records = vec![stored("a", "outgoing", "completed"), stored("b", "incoming", "receiving"), stored("c", "incoming", "completed")];
    assert_eq!(resumable_batch(&records, "b"), Ok(Some(1)));
    assert_eq!(resumable_batch(&records, "c"), Err(ReceiveRefusal::BatchAlreadyFinalized));
    assert_eq!(resumable_batch(&records, "a"), Ok(None));
    assert_eq!(resumable_batch(&records, "z"), Ok(None));
}

#[test]
fn chunks_must_continue_the_staged_file_with_their_digest() {
    let data = b"hello world";
    let digest = *blake3::hash(data).as_bytes();
    assert_eq!(check_chunk_append(4, 20, 4, data, &digest), Ok(15));
    assert_eq!(check_chunk_append(4, 20, 5, data, &digest), Err(TransferError::InvalidPath));
    assert_eq!(check_chunk_append(4, 20, 4, b"hello worle", &digest), Err(TransferError::InvalidPath));
    assert_eq!(check_chunk_append(10, 20, 10, data, &digest), Err(TransferError::ManifestLimit));
    let big = vec![0u8; MAX_CHUNK_BYTES + 1];
    assert_eq!(check_chunk_append(0, u64::MAX, 0, &big, blake3::hash(&big).as_bytes()), Err(TransferError::InvalidPath));
    let chunk = Chunk { batch_id: [1; 16], entry_id: [2; 16], offset: 0, data: vec![] };
    assert!(chunk_belongs(&chunk, &[1; 16], &[2; 16]));
    assert!(!chunk_belongs(&chunk, &[1; 16], &[3; 16]));
    assert_eq!(write_failure(TransferError::DiskFull), ReceiveRefusal::DiskFull);
    assert_eq!(write_failure(TransferError::FsyncFailed), ReceiveRefusal::FsyncFailed);
    assert_eq!(write_failure(TransferError::Durability), ReceiveRefusal::CheckpointPersistenceFailed);
    assert_eq!(write_failure(TransferError::InvalidPath), ReceiveRefusal::InvalidChunk);
    assert_eq!(staged_file_complete(11, 11, &digest, &digest), Ok(()));
    assert_eq!(staged_file_complete(10, 11, &digest, &digest), Err(TransferError::InvalidPath));
    assert_eq!(staged_file_complete(11, 11, &digest, &[0; 32]), Err(TransferError::InvalidPath));
}

#[test]
fn completions_announce_a_digest_for_this_entry() {
    let entry = ManifestEntry { entry_id: [2; 16], parent_entry_id: None, kind: EntryKind::File, components: vec!["a".into()], size: 11, mtime: None };
    let digest = *blake3::hash(b"hello world").as_bytes();
    let done = EntryComplete { batch_id: [1; 16], entry_id: [2; 16], total_size: 11, blake3: hex::encode(digest) };
    assert_eq!(completion_digest(&done, &[1; 16], &entry), Ok(digest));
    assert!(replay_matches(&done, &[1; 16], &entry, &digest));
    assert!(!replay_matches(&done, &[1; 16], &entry, &[0; 32]));
    let mut wrong = done.clone();
    wrong.total_size = 10;
    assert_eq!(completion_digest(&wrong, &[1; 16], &entry), Err(ReceiveRefusal::CompletionMismatch));
    let mut short = done.clone();
    short.blake3 = "abcd".into();
    assert_eq!(completion_digest(&short, &[1; 16], &entry), Err(ReceiveRefusal::InvalidEntryHash));
    assert_eq!(completion_digest(&done, &[9; 16], &entry), Err(ReceiveRefusal::CompletionMismatch));
    assert!(ReceiveRefusal::EntryHashMismatch.discards_staging());
    assert!(!ReceiveRefusal::DiskFull.discards_staging());
    assert_eq!(ReceiveRefusal::UnexpectedChunk.message(), "unexpected chunk");
}

#[test]
fn finished_incoming_batches_notify_without_names() {
    assert_eq!(
        terminal_incoming_notice(&stored("in", "incoming", "completed").batch),
        Some(("Fileporter", "Received 2 item(s).".to_string()))
    );
    assert_eq!(
        terminal_incoming_notice(&stored("in", "incoming", "cancelled").batch),
        Some(("Fileporter", "An incoming transfer could not be completed.".to_string()))
    );
    assert_eq!(terminal_incoming_notice(&stored("in", "incoming", "receiving").batch), None);
    assert_eq!(terminal_incoming_notice(&stored("out", "outgoing", "completed").batch), None);
}

#[test]
fn only_unrevoked_exact_pins_are_trusted() {
    let pin = TrustedPeerPin { device_id: "dev".into(), public_key: [7; 32], certificate_fingerprint: [0xab; 32] };
    let peer = TrustedPeer {
        device_id: "dev".into(),
        public_key: vec![7; 32],
        certificate_fingerprint: format!("blake3:{}", "ab".repeat(32)),
        remote_name: "Desk".into(),
        local_alias: None,
        paired_at: 1,
        last_seen_at: None,
        auto_send: true,
        revoked_at: None,
        endpoint: None,
    };
    assert!(authenticated_peer_trusted(&Some(peer.clone()), &pin));
    assert!(!authenticated_peer_trusted(&None, &pin));
    let mut revoked = peer.clone();
    revoked.revoked_at = Some(3);
    assert!(!authenticated_peer_trusted(&Some(revoked), &pin));
    let mut other = pin.clone();
    other.certificate_fingerprint = [0xac; 32];
    assert!(!authenticated_peer_trusted(&Some(peer), &other));
}

#[test]
fn history_retention_is_forever_or_a_listed_number_of_days() {
    for days in [0, 7, 30, 90] {
        assert!(validate_history_retention(days).is_ok());
    }
    let error = validate_history_retention(14).unwrap_err();
    assert_eq!(error.code, "invalid_history_retention");
    assert_eq!(error.message, "Invalid retention");
    assert_eq!(
        fileporter::commands::validate_history_retention(1).unwrap_err().message,
        "Choose 7, 30, 90 days, or forever."
    );
}

fn item(id: &str, kind: &str, destination: Option<&str>, size: i64) -> fileporter::records::TransferItem {
    fileporter::records::TransferItem {
        id: id.into(),
        batch_id: "b".into(),
        parent_item_id: None,
        kind: kind.into(),
        display_name: id.into(),
        source_path_local: None,
        destination_path_local: destination.map(|d| d.to_string()),
        size,
        mtime: None,
        state: "receiving".into(),
        warning_json: None,
    }
}

fn checkpoint(item_id: &str, offset: i64, hash: Option<Vec<u8>>) -> Option<fileporter::records::Checkpoint> {
    Some(fileporter::records::Checkpoint { target_id: "t".into(), item_id: item_id.into(), durable_offset: offset, verified_hash: hash, updated_at: 1 })
}

fn target() -> fileporter::records::BatchTarget {
    fileporter::records::BatchTarget {
        id: "t".into(),
        batch_id: "b".into(),
        peer_device_id: "p".into(),
        state: "receiving".into(),
        acknowledged_bytes: 0,
        error_code: None,
        retry_at: None,
        retry_count: 0,
        wait_for_available: false,
    }
}

#[test]
fn only_verified_final_files_are_adopted_after_staging_is_gone() {
    let mut record = stored("b", "incoming", "receiving");
    record.targets = vec![target()];
    record.items = vec![item("x", "file", Some("/in/x"), 3), item("y", "file", Some("/in/y"), 4)];
    let verified = vec![checkpoint("x", 3, Some(vec![1; 32])), checkpoint("y", 4, Some(vec![2; 32]))];
    assert_eq!(
        adoption_candidates(&record, &verified),
        Some(vec![("/in/x".to_string(), vec![1; 32]), ("/in/y".to_string(), vec![2; 32])])
    );
    let partial = vec![checkpoint("x", 3, Some(vec![1; 32])), checkpoint("y", 3, Some(vec![2; 32]))];
    assert_eq!(adoption_candidates(&record, &partial), None);
    let unverified = vec![checkpoint("x", 3, Some(vec![1; 32])), checkpoint("y", 4, None)];
    assert_eq!(adoption_candidates(&record, &unverified), None);
    assert_eq!(adoption_candidates(&record, &vec![checkpoint("x", 3, Some(vec![1; 32])), None]), None);
    let mut with_dir = record.clone();
    with_dir.items[1].kind = "directory".into();
    assert_eq!(adoption_candidates(&with_dir, &verified), None);
    let mut without_target = record.clone();
    without_target.targets.clear();
    assert_eq!(adoption_candidates(&without_target, &verified), None);
    let failed = batch_finished(&record.batch, "failed", 77);
    assert_eq!(failed.state, "failed");
    assert_eq!(failed.completed_at, Some(77));
    assert_eq!(failed.id, "b");
    let t = target_finished(&record.targets[0], "failed", Some("recovery_staging_missing"));
    assert_eq!(t.error_code.as_deref(), Some("recovery_staging_missing"));
    assert_eq!(target_finished(&t, "completed", None).error_code, None);
    assert_eq!(item_finished(&record.items[0], "completed").state, "completed");
}

#[test]
fn uuids_are_stored_as_hyphenated_lower_case_hex() {
    let id = [0x67, 0xe5, 0x50, 0x44, 0x10, 0xb1, 0x42, 0x6f, 0x92, 0x47, 0xbb, 0x68, 0x0e, 0x5f, 0xe0, 0xc8];
    assert_eq!(uuid_text(&id), "67e55044-10b1-426f-9247-bb680e5fe0c8");
    assert_eq!(uuid_text(&id), uuid::Uuid::from_bytes(id).to_string());
}

#[test]
fn acceptances_name_the_roots_and_report_durable_resume_points() {
    let entries = vec![
        ManifestEntry { entry_id: [1; 16], parent_entry_id: None, kind: EntryKind::Directory, components: vec!["photos".into()], size: 0, mtime: None },
        ManifestEntry { entry_id: [2; 16], parent_entry_id: Some([1; 16]), kind: EntryKind::File, components: vec!["photos".into(), "a.jpg".into()], size: 5, mtime: None },
        ManifestEntry { entry_id: [3; 16], parent_entry_id: None, kind: EntryKind::File, components: vec!["b.txt".into()], size: 7, mtime: None },
    ];
    let page = ManifestPage { batch_id: [9; 16], page: 0, entries: entries.clone(), final_page: true };
    let accept = offer_acceptance([9; 16], &page, &vec![None, Some(3), Some(0)]);
    assert_eq!(accept.resolved_top_level_names, ["photos", "b.txt"]);
    assert_eq!(accept.checkpoints, vec![Checkpoint { entry_id: [2; 16], durable_offset: 3 }]);
    assert!(accept.available_space_ok);
    assert_eq!(accept.destination_generation, 0);
    let batch = incoming_batch_record(&[9; 16], 12, 3, 100);
    assert_eq!(batch.id, uuid::Uuid::from_bytes([9; 16]).to_string());
    assert_eq!((batch.state.as_str(), batch.total_bytes, batch.total_entries), ("receiving", 12, 3));
    let target = incoming_target_record("t-1", &[9; 16], "peer");
    assert_eq!((target.id.as_str(), target.peer_device_id.as_str(), target.state.as_str()), ("t-1", "peer", "receiving"));
    let item = incoming_item_record(&[9; 16], &entries[1]);
    assert_eq!(item.parent_item_id, Some(uuid::Uuid::from_bytes([1; 16]).to_string()));
    assert_eq!((item.kind.as_str(), item.display_name.as_str(), item.size), ("file", "a.jpg", 5));
    assert_eq!(incoming_item_record(&[9; 16], &entries[0]).kind, "directory");
}

#[test]
fn integrity_failures_discard_staging_and_stream_failures_keep_it() {
    assert_eq!(failure_disposition(Some(ReceiveRefusal::EntryHashMismatch), false, false), (true, "failed"));
    assert_eq!(failure_disposition(Some(ReceiveRefusal::DiskFull), false, false), (false, "failed"));
    assert_eq!(failure_disposition(None, false, false), (false, "failed"));
    assert_eq!(failure_disposition(None, true, false), (true, "cancelled"));
    assert_eq!(failure_disposition(None, false, true), (true, "failed"));
}

#[test]
fn what_a_sender_offers_the_receiver_accepts() {
    let entries = vec![
        dir(1, None, &["photos"]),
        dir(4, Some(1), &["photos", "2024"]),
        file(2, Some(4), &["photos", "2024", "a.jpg"], 5),
        file(3, None, &["b.txt"], 7),
    ];
    let facts = vec![dir_facts(), dir_facts(), file_facts(5), file_facts(7)];
    let total = check_outgoing(&entries, &facts).unwrap();
    let (offer, page) = offer_messages([8; 16], &entries, total);
    assert_eq!(check_incoming_manifest(&offer, &page), Ok(12));
}

#[test]
fn resume_points_reported_by_the_receiver_are_read_back_by_the_sender() {
    let entries = vec![file(2, None, &["a"], 10), file(3, None, &["b"], 10)];
    let (_, page) = offer_messages([8; 16], &entries, 20);
    let accept = offer_acceptance([8; 16], &page, &vec![Some(6), Some(0)]);
    let mut first = entries[0].clone();
    first.resume_offset = 6;
    assert_eq!(resume_offset(&accept.checkpoints, &first), Ok(6));
    assert_eq!(resume_offset(&accept.checkpoints, &entries[1]), Ok(0));
}
