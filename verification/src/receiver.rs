//! Decisions of the receiving side of a batch transfer: whether receiving is
//! on, which frames are expected, whether a chunk may be appended to its
//! staged file, whether an entry is complete, and which failures leave a
//! staging tree that must not be resumed.  The staged files, the stream and
//! the records are the caller's.
use crate::bytes::bytes_equal;
use crate::crypto::{blake3_digest, blake3_hash};
use crate::protocol::{
    Checkpoint, Chunk, ControlMessage, EntryComplete, EntryKind, ManifestEntry, ManifestPage, OfferAccept, OfferStart,
};
use crate::records::{Batch, BatchTarget, PersistedBatch, Settings, TransferItem};
use crate::text::{chars_of, hex_decode, hex_decoded, hex_encode, hex_lower, push_chars, str_equal};
use crate::transfer::TransferError;
use vstd::prelude::*;

verus! {

/// The most bytes one chunk may carry.
pub const MAX_CHUNK_BYTES: usize = 1048576;

/// Why a receive stops.
#[derive(Debug, Clone, Copy, PartialEq, Eq, Structural)]
pub enum ReceiveRefusal {
    SettingsUnavailable,
    ReceivingDisabled,
    RootUnavailable,
    OfferRequired,
    ManifestRequired,
    BatchAlreadyFinalized,
    VerifiedReplayMismatch,
    ChunkIdentityMismatch,
    CheckpointPersistenceFailed,
    DiskFull,
    FsyncFailed,
    InvalidChunk,
    CompletionMismatch,
    InvalidEntryHash,
    EntryHashMismatch,
    UnexpectedFrame,
    BatchCompletionRequired,
    UnexpectedChunk,
    FinalizationFailed,
}

/// The text of each `ReceiveRefusal`.
pub open spec fn receive_refusal_text(value: ReceiveRefusal) -> &'static str {
    match value {
        ReceiveRefusal::SettingsUnavailable => "settings unavailable",
        ReceiveRefusal::ReceivingDisabled => "receiving disabled",
        ReceiveRefusal::RootUnavailable => "receive root unavailable",
        ReceiveRefusal::OfferRequired => "transfer offer required",
        ReceiveRefusal::ManifestRequired => "manifest required",
        ReceiveRefusal::BatchAlreadyFinalized => "batch already finalized",
        ReceiveRefusal::VerifiedReplayMismatch => "verified entry replay mismatch",
        ReceiveRefusal::ChunkIdentityMismatch => "chunk identity mismatch",
        ReceiveRefusal::CheckpointPersistenceFailed => "checkpoint persistence failed",
        ReceiveRefusal::DiskFull => "disk full",
        ReceiveRefusal::FsyncFailed => "fsync failed",
        ReceiveRefusal::InvalidChunk => "invalid chunk",
        ReceiveRefusal::CompletionMismatch => "entry completion mismatch",
        ReceiveRefusal::InvalidEntryHash => "invalid entry hash",
        ReceiveRefusal::EntryHashMismatch => "entry hash mismatch",
        ReceiveRefusal::UnexpectedFrame => "unexpected transfer frame",
        ReceiveRefusal::BatchCompletionRequired => "batch completion required",
        ReceiveRefusal::UnexpectedChunk => "unexpected chunk",
        ReceiveRefusal::FinalizationFailed => "finalization failed",
    }
}

impl ReceiveRefusal {
    /// The refusal's message text.
    pub fn message(&self) -> (text: &'static str)
        ensures
            text == receive_refusal_text(*self),
    {
        match self {
            ReceiveRefusal::SettingsUnavailable => "settings unavailable",
            ReceiveRefusal::ReceivingDisabled => "receiving disabled",
            ReceiveRefusal::RootUnavailable => "receive root unavailable",
            ReceiveRefusal::OfferRequired => "transfer offer required",
            ReceiveRefusal::ManifestRequired => "manifest required",
            ReceiveRefusal::BatchAlreadyFinalized => "batch already finalized",
            ReceiveRefusal::VerifiedReplayMismatch => "verified entry replay mismatch",
            ReceiveRefusal::ChunkIdentityMismatch => "chunk identity mismatch",
            ReceiveRefusal::CheckpointPersistenceFailed => "checkpoint persistence failed",
            ReceiveRefusal::DiskFull => "disk full",
            ReceiveRefusal::FsyncFailed => "fsync failed",
            ReceiveRefusal::InvalidChunk => "invalid chunk",
            ReceiveRefusal::CompletionMismatch => "entry completion mismatch",
            ReceiveRefusal::InvalidEntryHash => "invalid entry hash",
            ReceiveRefusal::EntryHashMismatch => "entry hash mismatch",
            ReceiveRefusal::UnexpectedFrame => "unexpected transfer frame",
            ReceiveRefusal::BatchCompletionRequired => "batch completion required",
            ReceiveRefusal::UnexpectedChunk => "unexpected chunk",
            ReceiveRefusal::FinalizationFailed => "finalization failed",
        }
    }

    /// Whether the failure is one of integrity or protocol, after which the
    /// staged prefix must not become a resume candidate: everything that
    /// concerns a hash, a chunk, the manifest or a completion.
    pub fn discards_staging(&self) -> (discard: bool)
        ensures
            discard == (*self == ReceiveRefusal::ManifestRequired || *self == ReceiveRefusal::ChunkIdentityMismatch
                || *self == ReceiveRefusal::InvalidChunk || *self == ReceiveRefusal::CompletionMismatch || *self
                == ReceiveRefusal::InvalidEntryHash || *self == ReceiveRefusal::EntryHashMismatch || *self
                == ReceiveRefusal::BatchCompletionRequired || *self == ReceiveRefusal::UnexpectedChunk),
    {
        match self {
            ReceiveRefusal::ManifestRequired | ReceiveRefusal::ChunkIdentityMismatch | ReceiveRefusal::InvalidChunk
            | ReceiveRefusal::CompletionMismatch | ReceiveRefusal::InvalidEntryHash
            | ReceiveRefusal::EntryHashMismatch | ReceiveRefusal::BatchCompletionRequired
            | ReceiveRefusal::UnexpectedChunk => true,
            _ => false,
        }
    }
}

/// The receive folder, when receiving is on and a folder is set.
pub fn receive_root(settings: &Settings) -> (result: Result<String, ReceiveRefusal>)
    ensures
        !settings.receiving_enabled ==> result == Err::<String, ReceiveRefusal>(ReceiveRefusal::ReceivingDisabled),
        settings.receiving_enabled && settings.receive_directory is None ==> result == Err::<String, ReceiveRefusal>(
            ReceiveRefusal::RootUnavailable,
        ),
        settings.receiving_enabled && settings.receive_directory is Some ==> (result matches Ok(r)
            && r@ == settings.receive_directory->0@),
{
    if !settings.receiving_enabled {
        return Err(ReceiveRefusal::ReceivingDisabled);
    }
    match &settings.receive_directory {
        Some(d) => Ok(d.clone()),
        None => Err(ReceiveRefusal::RootUnavailable),
    }
}

/// The offer that must open a batch.
pub fn expect_offer(message: ControlMessage) -> (result: Result<OfferStart, ReceiveRefusal>)
    ensures
        match message {
            ControlMessage::OfferStart(o) => result == Ok::<OfferStart, ReceiveRefusal>(o),
            _ => result == Err::<OfferStart, ReceiveRefusal>(ReceiveRefusal::OfferRequired),
        },
{
    match message {
        ControlMessage::OfferStart(o) => Ok(o),
        _ => Err(ReceiveRefusal::OfferRequired),
    }
}

/// The manifest page that must follow the offer.
pub fn expect_manifest(message: ControlMessage) -> (result: Result<ManifestPage, ReceiveRefusal>)
    ensures
        match message {
            ControlMessage::ManifestPage(p) => result == Ok::<ManifestPage, ReceiveRefusal>(p),
            _ => result == Err::<ManifestPage, ReceiveRefusal>(ReceiveRefusal::ManifestRequired),
        },
{
    match message {
        ControlMessage::ManifestPage(p) => Ok(p),
        _ => Err(ReceiveRefusal::ManifestRequired),
    }
}

/// The first stored incoming batch called `batch_id`.
pub open spec fn stored_incoming(records: Seq<PersistedBatch>, batch_id: Seq<char>) -> Option<int>
    decreases records.len(),
{
    if records.len() == 0 {
        None
    } else {
        match stored_incoming(records.drop_last(), batch_id) {
            Some(i) => Some(i),
            None => if records.last().batch.id@ == batch_id && records.last().batch.direction@ == "incoming"@ {
                Some(records.len() - 1)
            } else {
                None
            },
        }
    }
}

/// Which stored record a batch resumes, if any: a finalized batch is never
/// received again.
pub fn resumable_batch(records: &Vec<PersistedBatch>, batch_id: &str) -> (result: Result<Option<usize>, ReceiveRefusal>)
    ensures
        match stored_incoming(records@, batch_id@) {
            Some(i) => if records@[i].batch.state@ == "completed"@ {
                result == Err::<Option<usize>, ReceiveRefusal>(ReceiveRefusal::BatchAlreadyFinalized)
            } else {
                result == Ok::<Option<usize>, ReceiveRefusal>(Some(i as usize))
            },
            None => result == Ok::<Option<usize>, ReceiveRefusal>(None),
        },
{
    let mut i: usize = 0;
    while i < records.len()
        invariant
            i <= records@.len(),
            stored_incoming(records@.subrange(0, i as int), batch_id@) is None,
        decreases records@.len() - i,
    {
        let ghost prefix = records@.subrange(0, i + 1);
        assert(prefix.drop_last() =~= records@.subrange(0, i as int));
        assert(prefix.last() == records@[i as int]);
        let r = &records[i];
        if str_equal(r.batch.id.as_str(), batch_id) && str_equal(r.batch.direction.as_str(), "incoming") {
            proof {
                lemma_stored_incoming_extends(records@, i as int + 1, batch_id@);
            }
            if str_equal(r.batch.state.as_str(), "completed") {
                return Err(ReceiveRefusal::BatchAlreadyFinalized);
            }
            return Ok(Some(i));
        }
        i = i + 1;
    }
    assert(records@.subrange(0, i as int) =~= records@);
    Ok(None)
}

proof fn lemma_stored_incoming_extends(records: Seq<PersistedBatch>, n: int, batch_id: Seq<char>)
    requires
        0 < n <= records.len(),
        stored_incoming(records.subrange(0, n), batch_id) is Some,
    ensures
        stored_incoming(records, batch_id) == stored_incoming(records.subrange(0, n), batch_id),
    decreases records.len() - n,
{
    if n < records.len() {
        assert(records.subrange(0, n + 1).drop_last() =~= records.subrange(0, n));
        lemma_stored_incoming_extends(records, n + 1, batch_id);
    } else {
        assert(records.subrange(0, n) =~= records);
    }
}

/// Whether a chunk belongs to the entry being received.
pub fn chunk_belongs(chunk: &Chunk, batch_id: &[u8; 16], entry_id: &[u8; 16]) -> (belongs: bool)
    ensures
        belongs == (chunk.batch_id@ == batch_id@ && chunk.entry_id@ == entry_id@),
{
    bytes_equal(&chunk.batch_id, batch_id) && bytes_equal(&chunk.entry_id, entry_id)
}

/// What appending a chunk at `chunk_offset` to a staged file holding
/// `offset` of `expected_size` bytes gives: the new durable length, when the
/// chunk is at most 1 MiB, starts where the file ends, has the digest it was
/// sent with, and does not run past the expected size.
pub open spec fn chunk_append(offset: u64, expected_size: u64, chunk_offset: u64, bytes: Seq<u8>, expected_hash: Seq<u8>) -> Result<u64, TransferError> {
    if bytes.len() > MAX_CHUNK_BYTES || chunk_offset != offset {
        Err(TransferError::InvalidPath)
    } else if blake3_digest(bytes) != expected_hash {
        Err(TransferError::InvalidPath)
    } else if offset + bytes.len() > expected_size {
        Err(TransferError::ManifestLimit)
    } else {
        Ok((offset + bytes.len()) as u64)
    }
}

/// Checks a chunk before it is written to its staged file.
pub fn check_chunk_append(offset: u64, expected_size: u64, chunk_offset: u64, bytes: &[u8], expected_hash: &[u8; 32]) -> (result: Result<u64, TransferError>)
    ensures
        result == chunk_append(offset, expected_size, chunk_offset, bytes@, expected_hash@),
{
    if bytes.len() > MAX_CHUNK_BYTES || chunk_offset != offset {
        return Err(TransferError::InvalidPath);
    }
    let digest = blake3_hash(bytes);
    if !bytes_equal(&digest, expected_hash) {
        return Err(TransferError::InvalidPath);
    }
    let length = bytes.len() as u64;
    match offset.checked_add(length) {
        None => Err(TransferError::ManifestLimit),
        Some(end) => if end > expected_size {
            Err(TransferError::ManifestLimit)
        } else {
            Ok(end)
        },
    }
}

/// How a failed chunk write is reported to the peer.
pub fn write_failure(error: TransferError) -> (refusal: ReceiveRefusal)
    ensures
        error == TransferError::Durability ==> refusal == ReceiveRefusal::CheckpointPersistenceFailed,
        error == TransferError::DiskFull ==> refusal == ReceiveRefusal::DiskFull,
        error == TransferError::FsyncFailed ==> refusal == ReceiveRefusal::FsyncFailed,
        !(error == TransferError::Durability || error == TransferError::DiskFull || error == TransferError::FsyncFailed)
            ==> refusal == ReceiveRefusal::InvalidChunk,
{
    match error {
        TransferError::Durability => ReceiveRefusal::CheckpointPersistenceFailed,
        TransferError::DiskFull => ReceiveRefusal::DiskFull,
        TransferError::FsyncFailed => ReceiveRefusal::FsyncFailed,
        _ => ReceiveRefusal::InvalidChunk,
    }
}

/// What an entry's completion gives: the digest it announces, when it is
/// for this batch and entry, with the entry's size, and the digest is 32
/// bytes of hexadecimal.
pub open spec fn completion_digest_of(done: EntryComplete, batch_id: Seq<u8>, entry: ManifestEntry) -> Result<Seq<u8>, ReceiveRefusal> {
    if done.batch_id@ != batch_id || done.entry_id@ != entry.entry_id@ || done.total_size != entry.size {
        Err(ReceiveRefusal::CompletionMismatch)
    } else {
        match hex_decoded(done.blake3@) {
            Some(d) => if d.len() == 32 {
                Ok(d)
            } else {
                Err(ReceiveRefusal::InvalidEntryHash)
            },
            None => Err(ReceiveRefusal::InvalidEntryHash),
        }
    }
}

pub fn completion_digest(done: &EntryComplete, batch_id: &[u8; 16], entry: &ManifestEntry) -> (result: Result<[u8; 32], ReceiveRefusal>)
    ensures
        match result {
            Ok(d) => completion_digest_of(*done, batch_id@, *entry) == Ok::<Seq<u8>, ReceiveRefusal>(d@),
            Err(r) => completion_digest_of(*done, batch_id@, *entry) == Err::<Seq<u8>, ReceiveRefusal>(r),
        },
{
    if !bytes_equal(&done.batch_id, batch_id) || !bytes_equal(&done.entry_id, &entry.entry_id) || done.total_size
        != entry.size {
        return Err(ReceiveRefusal::CompletionMismatch);
    }
    let chars = chars_of(done.blake3.as_str());
    let bytes = match hex_decode(&chars) {
        Some(b) => b,
        None => return Err(ReceiveRefusal::InvalidEntryHash),
    };
    if bytes.len() != 32 {
        return Err(ReceiveRefusal::InvalidEntryHash);
    }
    let mut digest = [0u8; 32];
    let mut i: usize = 0;
    while i < 32
        invariant
            i <= 32,
            bytes@.len() == 32,
            forall|j: int| 0 <= j < i ==> digest@[j] == bytes@[j],
        decreases 32 - i,
    {
        digest[i] = bytes[i];
        i = i + 1;
    }
    assert(digest@ =~= bytes@);
    Ok(digest)
}

/// Whether a completion replayed after a reconnect re-announces an entry
/// that is already verified: same batch, entry and size, and the digest that
/// was recorded.
pub fn replay_matches(done: &EntryComplete, batch_id: &[u8; 16], entry: &ManifestEntry, recorded: &[u8]) -> (matched: bool)
    ensures
        matched == (completion_digest_of(*done, batch_id@, *entry) matches Ok(d) && d == recorded@),
{
    match completion_digest(done, batch_id, entry) {
        Ok(d) => bytes_equal(&d, recorded),
        Err(_) => {
            proof {
                if completion_digest_of(*done, batch_id@, *entry) is Ok {
                    assert(false);
                }
            }
            false
        },
    }
}

/// Whether a staged file of `offset` bytes out of `expected_size`, whose
/// content has the digest `digest`, is the complete entry announced with
/// `expected`.
pub fn staged_file_complete(offset: u64, expected_size: u64, digest: &[u8; 32], expected: &[u8; 32]) -> (result: Result<(), TransferError>)
    ensures
        result is Ok <==> (offset == expected_size && digest@ == expected@),
        result is Err ==> result == Err::<(), TransferError>(TransferError::InvalidPath),
{
    if offset != expected_size || !bytes_equal(digest, expected) {
        return Err(TransferError::InvalidPath);
    }
    Ok(())
}


/// Whether a refusal is one of integrity or protocol (see
/// `discards_staging`).
pub open spec fn integrity_refusal(r: ReceiveRefusal) -> bool {
    r == ReceiveRefusal::ManifestRequired || r == ReceiveRefusal::ChunkIdentityMismatch || r
        == ReceiveRefusal::InvalidChunk || r == ReceiveRefusal::CompletionMismatch || r
        == ReceiveRefusal::InvalidEntryHash || r == ReceiveRefusal::EntryHashMismatch || r
        == ReceiveRefusal::BatchCompletionRequired || r == ReceiveRefusal::UnexpectedChunk
}

/// What a receive that stopped leaves behind: whether its staging tree is
/// removed, and the state its records end in.  `refusal` is the decision
/// that stopped it, `None` when the stream or the disk failed; a cancelled
/// receive, an integrity or protocol refusal, or a staged file that failed
/// its digest discard the staging tree, which otherwise stays for a resume.
pub fn failure_disposition(refusal: Option<ReceiveRefusal>, cancelled: bool, integrity_failed: bool) -> (out: (
    bool,
    &'static str,
))
    ensures
        out.0 == (cancelled || integrity_failed || (refusal matches Some(r) && integrity_refusal(r))),
        out.1 == if cancelled { "cancelled" } else { "failed" },
{
    let corrupt = match refusal {
        Some(r) => r.discards_staging(),
        None => false,
    };
    (cancelled || corrupt || integrity_failed, if cancelled { "cancelled" } else { "failed" })
}

/// The hyphenated lower-case text of a UUID: its bytes in hexadecimal, in
/// groups of 4, 2, 2, 2 and 6 bytes.
pub open spec fn uuid_text_of(id: Seq<u8>) -> Seq<char> {
    hex_lower(id.subrange(0, 4)) + seq!['-'] + hex_lower(id.subrange(4, 6)) + seq!['-'] + hex_lower(
        id.subrange(6, 8),
    ) + seq!['-'] + hex_lower(id.subrange(8, 10)) + seq!['-'] + hex_lower(id.subrange(10, 16))
}

/// The text a UUID is stored under.
pub fn uuid_text(id: &[u8; 16]) -> (text: String)
    ensures
        text@ == uuid_text_of(id@),
{
    let a = crate::bytes::copy_range(id, 0, 4);
    let b = crate::bytes::copy_range(id, 4, 6);
    let c = crate::bytes::copy_range(id, 6, 8);
    let d = crate::bytes::copy_range(id, 8, 10);
    let e = crate::bytes::copy_range(id, 10, 16);
    let mut out = String::new();
    push_chars(&mut out, &hex_encode(&a));
    out.push('-');
    push_chars(&mut out, &hex_encode(&b));
    out.push('-');
    push_chars(&mut out, &hex_encode(&c));
    out.push('-');
    push_chars(&mut out, &hex_encode(&d));
    out.push('-');
    push_chars(&mut out, &hex_encode(&e));
    assert(out@ =~= uuid_text_of(id@));
    out
}

/// The names of the offered top-level entries, in order.
pub open spec fn top_names(entries: Seq<ManifestEntry>) -> Seq<Seq<char>>
    decreases entries.len(),
{
    if entries.len() == 0 {
        Seq::empty()
    } else if entries.last().parent_entry_id is None {
        top_names(entries.drop_last()).push(entries.last().components@[0]@)
    } else {
        top_names(entries.drop_last())
    }
}

/// The resume points a receiver reports: for each entry, in order, whose
/// stored checkpoint (`durable[i]`) is durable past zero, its ID and offset.
pub open spec fn resume_points(entries: Seq<ManifestEntry>, durable: Seq<Option<i64>>) -> Seq<(Seq<u8>, u64)>
    decreases entries.len(),
{
    if entries.len() == 0 {
        Seq::empty()
    } else {
        let rest = resume_points(entries.drop_last(), durable);
        match durable[entries.len() - 1] {
            Some(d) => if d > 0 {
                rest.push((entries.last().entry_id@, d as u64))
            } else {
                rest
            },
            None => rest,
        }
    }
}

pub open spec fn checkpoint_views(c: Seq<Checkpoint>) -> Seq<(Seq<u8>, u64)> {
    c.map_values(|k: Checkpoint| (k.entry_id@, k.durable_offset))
}

/// The acceptance a checked manifest is answered with: the top-level names
/// as offered, room on disk, and where each entry resumes.
pub fn offer_acceptance(batch_id: [u8; 16], page: &ManifestPage, durable: &Vec<Option<i64>>) -> (accept: OfferAccept)
    requires
        durable@.len() == page.entries@.len(),
        forall|i: int| 0 <= i < page.entries@.len() ==> (#[trigger] page.entries@[i]).components@.len() >= 1,
    ensures
        accept.batch_id == batch_id,
        accept.destination_generation == 0,
        accept.available_space_ok,
        crate::transfer::views(accept.resolved_top_level_names@) == top_names(page.entries@),
        checkpoint_views(accept.checkpoints@) == resume_points(page.entries@, durable@),
{
    let ghost entries = page.entries@;
    let mut names: Vec<String> = Vec::new();
    let mut checkpoints: Vec<Checkpoint> = Vec::new();
    let mut i: usize = 0;
    assert(entries.subrange(0, 0) =~= Seq::<ManifestEntry>::empty());
    while i < page.entries.len()
        invariant
            i <= entries.len(),
            entries == page.entries@,
            durable@.len() == entries.len(),
            forall|k: int| 0 <= k < entries.len() ==> (#[trigger] entries[k]).components@.len() >= 1,
            crate::transfer::views(names@) == top_names(entries.subrange(0, i as int)),
            checkpoint_views(checkpoints@) == resume_points(entries.subrange(0, i as int), durable@),
        decreases entries.len() - i,
    {
        let e = &page.entries[i];
        let ghost prefix = entries.subrange(0, i + 1);
        assert(prefix.drop_last() =~= entries.subrange(0, i as int));
        assert(prefix.last() == entries[i as int]);
        if e.parent_entry_id.is_none() {
            assert(entries[i as int].components@.len() >= 1);
            let ghost before = crate::transfer::views(names@);
            names.push(e.components[0].clone());
            assert(crate::transfer::views(names@) =~= before.push(e.components@[0]@));
        }
        match durable[i] {
            Some(d) => if d > 0 {
                let ghost before = checkpoint_views(checkpoints@);
                checkpoints.push(Checkpoint { entry_id: e.entry_id, durable_offset: d as u64 });
                assert(checkpoint_views(checkpoints@) =~= before.push((e.entry_id@, d as u64)));
            },
            None => {},
        }
        i = i + 1;
    }
    assert(entries.subrange(0, i as int) =~= entries);
    OfferAccept {
        batch_id,
        destination_generation: 0,
        resolved_top_level_names: names,
        available_space_ok: true,
        checkpoints,
    }
}

/// The record of an incoming batch being received since `now`: the
/// offered ID, `total` bytes and the manifest's entries.
pub fn incoming_batch_record(batch_id: &[u8; 16], total: u64, entries: usize, now: i64) -> (b: Batch)
    requires
        total <= i64::MAX,
        entries <= i64::MAX,
    ensures
        b.id@ == uuid_text_of(batch_id@),
        b.direction@ == "incoming"@,
        b.state@ == "receiving"@,
        b.created_at == now,
        b.completed_at is None,
        b.total_bytes == total,
        b.total_entries == entries,
        b.warning_count == 0,
        !b.wait_for_available,
{
    Batch {
        id: uuid_text(batch_id),
        direction: "incoming".to_owned(),
        state: "receiving".to_owned(),
        created_at: now,
        completed_at: None,
        total_bytes: total as i64,
        total_entries: entries as i64,
        warning_count: 0,
        wait_for_available: false,
    }
}

/// The target record of an incoming batch from `peer_device_id`.
pub fn incoming_target_record(target_id: &str, batch_id: &[u8; 16], peer_device_id: &str) -> (t: BatchTarget)
    ensures
        t.id@ == target_id@,
        t.batch_id@ == uuid_text_of(batch_id@),
        t.peer_device_id@ == peer_device_id@,
        t.state@ == "receiving"@,
        t.acknowledged_bytes == 0,
        t.error_code is None,
        t.retry_at is None,
        t.retry_count == 0,
        !t.wait_for_available,
{
    BatchTarget {
        id: target_id.to_owned(),
        batch_id: uuid_text(batch_id),
        peer_device_id: peer_device_id.to_owned(),
        state: "receiving".to_owned(),
        acknowledged_bytes: 0,
        error_code: None,
        retry_at: None,
        retry_count: 0,
        wait_for_available: false,
    }
}

/// The item record of a manifest entry of an incoming batch: named by its
/// last component, without local source or destination yet.
pub fn incoming_item_record(batch_id: &[u8; 16], entry: &ManifestEntry) -> (item: TransferItem)
    requires
        entry.components@.len() >= 1,
        entry.size <= i64::MAX,
    ensures
        item.id@ == uuid_text_of(entry.entry_id@),
        item.batch_id@ == uuid_text_of(batch_id@),
        match entry.parent_entry_id {
            Some(p) => item.parent_item_id matches Some(t) && t@ == uuid_text_of(p@),
            None => item.parent_item_id is None,
        },
        item.kind@ == if entry.kind == EntryKind::File { "file"@ } else { "directory"@ },
        item.display_name@ == entry.components@.last()@,
        item.source_path_local is None,
        item.destination_path_local is None,
        item.size == entry.size,
        item.mtime is None,
        item.state@ == "receiving"@,
        item.warning_json is None,
{
    let last = entry.components.len() - 1;
    TransferItem {
        id: uuid_text(&entry.entry_id),
        batch_id: uuid_text(batch_id),
        parent_item_id: match &entry.parent_entry_id {
            Some(p) => Some(uuid_text(p)),
            None => None,
        },
        kind: match entry.kind {
            EntryKind::File => "file".to_owned(),
            EntryKind::Directory => "directory".to_owned(),
        },
        display_name: entry.components[last].clone(),
        source_path_local: None,
        destination_path_local: None,
        size: entry.size as i64,
        mtime: None,
        state: "receiving".to_owned(),
        warning_json: None,
    }
}

} // verus!
