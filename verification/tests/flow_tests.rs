use fileporter::crypto::StreamDigest;
use fileporter::engine::ManifestRefusal;
use fileporter::protocol::{BatchComplete, Chunk, ControlMessage, EntryComplete, EntryKind};
use fileporter::receive_flow::{
    completed_receipt, receive_step, verified_reply, ReceiveAction, ReceiveEvent, ReceiveState, Refusal,
};
use fileporter::receiver::{offer_acceptance, ReceiveRefusal};
use fileporter::recovery::{reconcile_batch, BatchRecovery, ItemRecovery, ReconcilePlan, RecoveryCode};
use fileporter::send_flow::{entry_completion, send_step, SendAction, SendEvent, SendState};
use fileporter::sender::{offer_messages, OutgoingEntry, SendRefusal};

const BATCH: [u8; 16] = [8; 16];

fn file(id: u8, name: &str, size: u64) -> OutgoingEntry {
    OutgoingEntry {
        entry_id: [id; 16],
        parent_entry_id: None,
        kind: EntryKind::File,
        components: vec![name.to_string()],
        size,
        mtime: None,
        resume_offset: 0,
    }
}

fn hex_digest(data: &[u8]) -> String {
    blake3::hash(data).to_hex().to_string()
}

/// Runs a receiver from the start through the accept of `entries`.
fn accepted(entries: &[OutgoingEntry], total: u64, rd: &mut StreamDigest) -> (ReceiveState, ControlMessage) {
    let (offer, page) = offer_messages(BATCH, &entries.to_vec(), total);
    let (s, a) = receive_step(ReceiveState::Ready, ReceiveEvent::Start { receiving_enabled: true, root_available: true }, rd);
    assert!(matches!(a, ReceiveAction::ReadControl));
    let (s, a) = receive_step(s, ReceiveEvent::Control(ControlMessage::OfferStart(offer)), rd);
    assert!(matches!(a, ReceiveAction::ReadControl));
    let (s, a) = receive_step(s, ReceiveEvent::Control(ControlMessage::ManifestPage(page.clone())), rd);
    assert!(matches!(a, ReceiveAction::CheckSpace { total: t } if t == total));
    let (s, a) = receive_step(s, ReceiveEvent::Space { available: true }, rd);
    assert!(matches!(a, ReceiveAction::LookUpBatch));
    let (s, a) = receive_step(s, ReceiveEvent::Stored { finalized: false }, rd);
    assert!(matches!(a, ReceiveAction::Persist { .. }));
    let durable = vec![None; entries.len()];
    let (s, a) = receive_step(s, ReceiveEvent::Persisted { durable: durable.clone() }, rd);
    assert!(matches!(a, ReceiveAction::SendAccept { .. }));
    (s, ControlMessage::OfferAccept(offer_acceptance(BATCH, &page, &durable)))
}

#[test]
fn a_file_sent_is_the_file_received_and_placed_without_overwriting() {
    let data: Vec<u8> = (0..40u8).collect();
    let entries = vec![file(1, "report.pdf", data.len() as u64)];
    let mut rd = StreamDigest::new();
    let mut sd = StreamDigest::new();
    let (mut rs, accept) = accepted(&entries, data.len() as u64, &mut rd);
    let mut ss = SendState::Offered { batch_id: BATCH, entries: entries.clone() };
    let (next, action) = send_step(ss, SendEvent::Reply(accept), &mut sd);
    ss = next;
    assert!(matches!(action, SendAction::ReadSource { index: 0 }));
    let (next, action) = receive_step(rs, ReceiveEvent::Sent, &mut rd);
    rs = next;
    assert!(matches!(action, ReceiveAction::LoadCheckpoint { index: 0 }));
    let (next, action) = receive_step(rs, ReceiveEvent::Prior { durable_offset: None, verified_hash: None }, &mut rd);
    rs = next;
    assert!(matches!(action, ReceiveAction::OpenFile { index: 0, offset: 0 }));
    let mut staged: Vec<u8> = Vec::new();
    let mut progress = Vec::new();
    for piece in data.chunks(16) {
        let (next, action) = send_step(ss, SendEvent::Read { data: piece.to_vec() }, &mut sd);
        ss = next;
        let (offset, sent) = match action {
            SendAction::SendChunk { offset, data, skip, .. } => (offset, data[skip as usize..].to_vec()),
            _ => panic!("expected a chunk"),
        };
        let chunk = Chunk { batch_id: BATCH, entry_id: [1; 16], offset, data: sent };
        let (next, action) = receive_step(rs, ReceiveEvent::Chunk(chunk), &mut rd);
        rs = next;
        match action {
            ReceiveAction::Write { offset: at, data, end, .. } => {
                assert_eq!(at as usize, staged.len());
                staged.extend_from_slice(&data);
                assert_eq!(end as usize, staged.len());
            }
            _ => panic!("expected a write"),
        }
        let (next, action) = receive_step(rs, ReceiveEvent::Durable, &mut rd);
        rs = next;
        let ack = match action {
            ReceiveAction::Ack(ack) => ack,
            _ => panic!("expected an acknowledgement"),
        };
        assert_eq!(ack.durable_offset as usize, staged.len());
        let (next, action) = send_step(ss, SendEvent::Reply(ControlMessage::ChunkAck(ack)), &mut sd);
        ss = next;
        match action {
            SendAction::Progress { acknowledged, .. } => progress.push(acknowledged),
            _ => panic!("expected progress"),
        }
    }
    assert_eq!(progress, vec![16, 32, 40]);
    let (next, action) = send_step(ss, SendEvent::EndOfSource, &mut sd);
    ss = next;
    let announced = match action {
        SendAction::SendComplete { index: 0, digest } => digest,
        _ => panic!("expected a completion"),
    };
    assert_eq!(announced, *blake3::hash(&data).as_bytes());
    let done = entry_completion(BATCH, &entries[0], &announced);
    assert_eq!(done.blake3, hex_digest(&data));
    assert_eq!(done.total_size, 40);
    let (next, action) = receive_step(rs, ReceiveEvent::Control(ControlMessage::EntryComplete(done)), &mut rd);
    rs = next;
    assert!(matches!(action, ReceiveAction::CloseFile { index: 0 }));
    let (next, action) = receive_step(rs, ReceiveEvent::Staged, &mut rd);
    rs = next;
    match action {
        ReceiveAction::RecordVerified { index: 0, digest } => assert_eq!(digest, *blake3::hash(&staged).as_bytes()),
        _ => panic!("expected the verified digest to be recorded"),
    }
    let (next, action) = receive_step(rs, ReceiveEvent::Recorded, &mut rd);
    rs = next;
    let text = match action {
        ReceiveAction::SendVerified { index: 0, blake3 } => blake3,
        _ => panic!("expected a verification"),
    };
    let reply = match &rs {
        ReceiveState::Verified { page, .. } => verified_reply(page, 0, text),
        _ => panic!("expected a verified entry"),
    };
    assert_eq!(reply.relative_destination, vec!["report.pdf".to_string()]);
    let (next, action) = send_step(ss, SendEvent::Reply(ControlMessage::EntryVerified(reply)), &mut sd);
    ss = next;
    assert!(matches!(action, SendAction::SendBatchComplete));
    let (next, action) = receive_step(rs, ReceiveEvent::Sent, &mut rd);
    rs = next;
    assert!(matches!(action, ReceiveAction::ReadControl));
    let (next, action) =
        receive_step(rs, ReceiveEvent::Control(ControlMessage::BatchComplete(BatchComplete { batch_id: BATCH })), &mut rd);
    rs = next;
    assert!(matches!(action, ReceiveAction::ListDestination));
    let occupied = vec!["report.pdf".to_string()];
    let (next, action) = receive_step(rs, ReceiveEvent::Occupied { names: occupied }, &mut rd);
    rs = next;
    match action {
        ReceiveAction::Place { index: 0, occupied, name } => {
            assert_eq!(occupied, vec!["report.pdf".to_string()]);
            assert_eq!(name, "report (1).pdf");
        }
        _ => panic!("expected a placement"),
    }
    let (next, action) = receive_step(rs, ReceiveEvent::Placed, &mut rd);
    rs = next;
    assert!(matches!(action, ReceiveAction::SendReceipt));
    assert!(matches!(rs, ReceiveState::Done));
    let (_, action) = send_step(ss, SendEvent::Reply(ControlMessage::BatchReceipt(completed_receipt(BATCH))), &mut sd);
    assert!(matches!(action, SendAction::Finished));
    assert_eq!(staged, data);
}

#[test]
fn refusals_come_before_any_write() {
    let mut rd = StreamDigest::new();
    let (_, a) = receive_step(ReceiveState::Ready, ReceiveEvent::Start { receiving_enabled: false, root_available: true }, &mut rd);
    assert!(matches!(a, ReceiveAction::Refuse(Refusal::Receive(ReceiveRefusal::ReceivingDisabled))));
    let (s, _) = receive_step(ReceiveState::Ready, ReceiveEvent::Start { receiving_enabled: true, root_available: true }, &mut rd);
    let (_, a) = receive_step(s, ReceiveEvent::Control(ControlMessage::BatchComplete(BatchComplete { batch_id: BATCH })), &mut rd);
    assert!(matches!(a, ReceiveAction::Refuse(Refusal::Receive(ReceiveRefusal::OfferRequired))));
    let entries = vec![file(1, "a", 5)];
    let (offer, page) = offer_messages(BATCH, &entries, 6);
    let (s, _) = receive_step(ReceiveState::Ready, ReceiveEvent::Start { receiving_enabled: true, root_available: true }, &mut rd);
    let (s, _) = receive_step(s, ReceiveEvent::Control(ControlMessage::OfferStart(offer)), &mut rd);
    let (_, a) = receive_step(s, ReceiveEvent::Control(ControlMessage::ManifestPage(page)), &mut rd);
    assert!(matches!(a, ReceiveAction::Refuse(Refusal::Manifest(ManifestRefusal::OfferMismatch))));
}

#[test]
fn a_digest_mismatch_fails_and_discards_staging() {
    let entries = vec![file(1, "a", 3)];
    let mut rd = StreamDigest::new();
    let (s, _) = accepted(&entries, 3, &mut rd);
    let (s, _) = receive_step(s, ReceiveEvent::Sent, &mut rd);
    let (s, _) = receive_step(s, ReceiveEvent::Prior { durable_offset: None, verified_hash: None }, &mut rd);
    let chunk = Chunk { batch_id: BATCH, entry_id: [1; 16], offset: 0, data: b"abc".to_vec() };
    let (s, _) = receive_step(s, ReceiveEvent::Chunk(chunk), &mut rd);
    let (s, _) = receive_step(s, ReceiveEvent::Durable, &mut rd);
    let done = EntryComplete { batch_id: BATCH, entry_id: [1; 16], total_size: 3, blake3: hex_digest(b"abd") };
    let (s, _) = receive_step(s, ReceiveEvent::Control(ControlMessage::EntryComplete(done)), &mut rd);
    let (_, a) = receive_step(s, ReceiveEvent::Staged, &mut rd);
    assert!(matches!(
        a,
        ReceiveAction::Fail { refusal: Some(ReceiveRefusal::EntryHashMismatch), discard_staging: true, cancelled: false }
    ));
}

#[test]
fn a_chunk_of_another_entry_fails_and_a_broken_stream_keeps_staging() {
    let entries = vec![file(1, "a", 3)];
    let mut rd = StreamDigest::new();
    let (s, _) = accepted(&entries, 3, &mut rd);
    let (s, _) = receive_step(s, ReceiveEvent::Sent, &mut rd);
    let (s, _) = receive_step(s, ReceiveEvent::Prior { durable_offset: Some(1), verified_hash: None }, &mut rd);
    let (_, a) = receive_step(s, ReceiveEvent::Broken, &mut rd);
    assert!(matches!(a, ReceiveAction::Fail { refusal: None, discard_staging: false, cancelled: false }));
    let (s, _) = accepted(&entries, 3, &mut rd);
    let (s, _) = receive_step(s, ReceiveEvent::Sent, &mut rd);
    let (s, a) = receive_step(s, ReceiveEvent::Prior { durable_offset: Some(1), verified_hash: None }, &mut rd);
    assert!(matches!(a, ReceiveAction::OpenFile { index: 0, offset: 1 }));
    let (s, a) = receive_step(s, ReceiveEvent::Prefix { data: b"a".to_vec() }, &mut rd);
    assert!(matches!(a, ReceiveAction::ReadFrame));
    let chunk = Chunk { batch_id: BATCH, entry_id: [2; 16], offset: 1, data: b"bc".to_vec() };
    let (_, a) = receive_step(s, ReceiveEvent::Chunk(chunk), &mut rd);
    assert!(matches!(
        a,
        ReceiveAction::Fail { refusal: Some(ReceiveRefusal::ChunkIdentityMismatch), discard_staging: true, .. }
    ));
}

#[test]
fn a_resumed_send_skips_what_the_receiver_holds_and_checks_every_ack() {
    let mut entry = file(1, "a", 10);
    entry.resume_offset = 6;
    let (_, page) = offer_messages(BATCH, &vec![entry.clone()], 10);
    let accept = offer_acceptance(BATCH, &page, &vec![Some(6)]);
    let mut sd = StreamDigest::new();
    let (s, a) = send_step(
        SendState::Offered { batch_id: BATCH, entries: vec![entry] },
        SendEvent::Reply(ControlMessage::OfferAccept(accept)), &mut sd);
    assert!(matches!(a, SendAction::ReadSource { index: 0 }));
    let (s, a) = send_step(s, SendEvent::Read { data: b"0123".to_vec() }, &mut sd);
    assert!(matches!(a, SendAction::ReadSource { index: 0 }));
    let (s, a) = send_step(s, SendEvent::Read { data: b"4567".to_vec() }, &mut sd);
    match &a {
        SendAction::SendChunk { index: 0, offset: 6, data, skip: 2 } => assert_eq!(&data[2..], b"67"),
        _ => panic!("expected the chunk from the resume offset on"),
    }
    let wrong = fileporter::protocol::ChunkAck { batch_id: BATCH, entry_id: [1; 16], durable_offset: 7 };
    let (_, a) = send_step(s, SendEvent::Reply(ControlMessage::ChunkAck(wrong)), &mut sd);
    assert!(matches!(a, SendAction::Fail { refusal: Some(SendRefusal::InvalidAck), cancelled: false }));
}

#[test]
fn a_resume_the_sender_did_not_record_is_refused() {
    let entry = file(1, "a", 10);
    let (_, page) = offer_messages(BATCH, &vec![entry.clone()], 10);
    let accept = offer_acceptance(BATCH, &page, &vec![Some(4)]);
    let mut sd = StreamDigest::new();
    let (_, a) = send_step(
        SendState::Offered { batch_id: BATCH, entries: vec![entry] },
        SendEvent::Reply(ControlMessage::OfferAccept(accept)), &mut sd);
    assert!(matches!(a, SendAction::Fail { refusal: Some(SendRefusal::InvalidResume), cancelled: false }));
}

#[test]
fn a_resumed_file_is_verified_over_its_staged_prefix_and_new_chunks() {
    let entries = vec![file(1, "a", 5)];
    let mut rd = StreamDigest::new();
    let (s, _) = accepted(&entries, 5, &mut rd);
    let (s, _) = receive_step(s, ReceiveEvent::Sent, &mut rd);
    let (s, a) = receive_step(s, ReceiveEvent::Prior { durable_offset: Some(3), verified_hash: None }, &mut rd);
    assert!(matches!(a, ReceiveAction::OpenFile { index: 0, offset: 3 }));
    let (s, a) = receive_step(s, ReceiveEvent::Prefix { data: b"ab".to_vec() }, &mut rd);
    assert!(matches!(a, ReceiveAction::ReadPrefix { index: 0 }));
    let (s, a) = receive_step(s, ReceiveEvent::Prefix { data: b"c".to_vec() }, &mut rd);
    assert!(matches!(a, ReceiveAction::ReadFrame));
    let chunk = Chunk { batch_id: BATCH, entry_id: [1; 16], offset: 3, data: b"de".to_vec() };
    let (s, a) = receive_step(s, ReceiveEvent::Chunk(chunk), &mut rd);
    assert!(matches!(a, ReceiveAction::Write { offset: 3, end: 5, .. }));
    let (s, _) = receive_step(s, ReceiveEvent::Durable, &mut rd);
    let done = EntryComplete { batch_id: BATCH, entry_id: [1; 16], total_size: 5, blake3: hex_digest(b"abcde") };
    let (s, a) = receive_step(s, ReceiveEvent::Control(ControlMessage::EntryComplete(done)), &mut rd);
    assert!(matches!(a, ReceiveAction::CloseFile { index: 0 }));
    let (_, a) = receive_step(s, ReceiveEvent::Staged, &mut rd);
    match a {
        ReceiveAction::RecordVerified { index: 0, digest } => assert_eq!(digest, *blake3::hash(b"abcde").as_bytes()),
        _ => panic!("expected the verified digest to be recorded"),
    }
}

#[test]
fn a_staged_prefix_longer_than_recorded_stops_the_receive() {
    let entries = vec![file(1, "a", 5)];
    let mut rd = StreamDigest::new();
    let (s, _) = accepted(&entries, 5, &mut rd);
    let (s, _) = receive_step(s, ReceiveEvent::Sent, &mut rd);
    let (s, _) = receive_step(s, ReceiveEvent::Prior { durable_offset: Some(2), verified_hash: None }, &mut rd);
    let (_, a) = receive_step(s, ReceiveEvent::Prefix { data: b"abc".to_vec() }, &mut rd);
    assert!(matches!(a, ReceiveAction::Fail { refusal: None, discard_staging: false, cancelled: false }));
}

#[test]
fn a_resumed_send_announces_the_digest_of_the_whole_file() {
    let mut entry = file(1, "a", 8);
    entry.resume_offset = 6;
    let (_, page) = offer_messages(BATCH, &vec![entry.clone()], 8);
    let accept = offer_acceptance(BATCH, &page, &vec![Some(6)]);
    let mut sd = StreamDigest::new();
    let (s, _) = send_step(
        SendState::Offered { batch_id: BATCH, entries: vec![entry] },
        SendEvent::Reply(ControlMessage::OfferAccept(accept)),
        &mut sd,
    );
    let (s, _) = send_step(s, SendEvent::Read { data: b"0123".to_vec() }, &mut sd);
    let (s, _) = send_step(s, SendEvent::Read { data: b"4567".to_vec() }, &mut sd);
    let ack = fileporter::protocol::ChunkAck { batch_id: BATCH, entry_id: [1; 16], durable_offset: 8 };
    let (s, _) = send_step(s, SendEvent::Reply(ControlMessage::ChunkAck(ack)), &mut sd);
    let (_, a) = send_step(s, SendEvent::EndOfSource, &mut sd);
    match a {
        SendAction::SendComplete { index: 0, digest } => assert_eq!(digest, *blake3::hash(b"01234567").as_bytes()),
        _ => panic!("expected a completion"),
    }
}

fn staged_item(disk_len: Option<u64>, durable: Option<i64>) -> ItemRecovery {
    ItemRecovery { is_file: true, path_ok: true, size: 10, disk_len, durable_offset: durable, verified: None }
}

#[test]
fn recovery_fails_adopts_or_rewinds() {
    let items = vec![staged_item(Some(4), Some(4))];
    let invalid = BatchRecovery { id_valid: false, staging_present: true, has_target: true, final_files_proven: None };
    assert!(matches!(reconcile_batch(&invalid, &items), ReconcilePlan::MarkFailed { code: RecoveryCode::InvalidBatch }));
    assert_eq!(RecoveryCode::InvalidBatch.text(), "recovery_invalid_batch");
    let gone = BatchRecovery { id_valid: true, staging_present: false, has_target: true, final_files_proven: Some(true) };
    assert!(matches!(reconcile_batch(&gone, &items), ReconcilePlan::Adopt));
    let unproven = BatchRecovery { final_files_proven: Some(false), ..gone };
    assert!(matches!(
        reconcile_batch(&unproven, &items),
        ReconcilePlan::MarkFailed { code: RecoveryCode::StagingMissing }
    ));
    let no_target = BatchRecovery { id_valid: true, staging_present: true, has_target: false, final_files_proven: None };
    assert!(matches!(
        reconcile_batch(&no_target, &items),
        ReconcilePlan::RemoveAndFail { code: RecoveryCode::TargetMissing }
    ));
    assert_eq!(RecoveryCode::StagingCorrupt.text(), "recovery_staging_corrupt");
    let present = BatchRecovery { id_valid: true, staging_present: true, has_target: true, final_files_proven: None };
    match reconcile_batch(&present, &[staged_item(Some(4), Some(4)), staged_item(Some(7), Some(5))]) {
        ReconcilePlan::Resume { rewinds, corrupt } => {
            assert!(!corrupt);
            assert_eq!(rewinds.len(), 1);
            assert_eq!(rewinds[0].index, 1);
            assert_eq!(rewinds[0].truncate_to, Some(5));
            assert_eq!(rewinds[0].durable_offset, 5);
        }
        _ => panic!("expected a resume"),
    }
    let unsafe_path = ItemRecovery { path_ok: false, ..staged_item(Some(4), Some(4)) };
    match reconcile_batch(&present, &[unsafe_path]) {
        ReconcilePlan::Resume { rewinds, corrupt } => {
            assert!(corrupt);
            assert!(rewinds.is_empty());
        }
        _ => panic!("expected a resume"),
    }
}
