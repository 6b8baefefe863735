//! The receiving side of a batch transfer as a state machine: from the
//! offer and its manifest, through the durable records and the accept, each
//! file's chunks, acknowledgements and verification, to the placement of the
//! top-level entries.  Each step takes what happened (a frame read, or the
//! outcome of the caller's disk or store work) and says what to do next.
//! Reading and writing the stream, the staged files and the records is the
//! caller's; every decision is here.
use crate::bytes::bytes_equal;
use crate::crypto::{blake3_digest, blake3_hash, digest_array, StreamDigest};
use crate::engine::{check_incoming_manifest, manifest_check, ManifestRefusal};
use crate::protocol::{
    Chunk, ChunkAck, ControlMessage, EntryComplete, EntryKind, EntryVerified, ManifestEntry, ManifestPage, OfferStart,
};
use crate::receiver::{
    check_chunk_append, chunk_append, chunk_belongs, completion_digest, completion_digest_of, replay_matches,
    staged_file_complete, write_failure, ReceiveRefusal,
};
use crate::transfer::{clone_strings, plan_top_level_name, planned_name, views, TransferError};
use vstd::prelude::*;

verus! {

/// How many times a top-level entry is offered a new name before placing it
/// is given up.
pub const PLACEMENT_ATTEMPTS: u32 = 1000;

/// Where a receive stands.
pub enum ReceiveState {
    /// Nothing has been read.
    Ready,
    /// Waiting for the offer.
    AwaitOffer,
    /// Waiting for the manifest that follows `offer`.
    AwaitManifest { offer: OfferStart },
    /// The manifest passed its checks; waiting to hear whether `total`
    /// bytes fit in the receive folder.
    AwaitSpace { page: ManifestPage, total: u64 },
    /// Waiting for the stored record of this batch, if any.
    AwaitStored { page: ManifestPage, total: u64 },
    /// Waiting for the batch, its target and items, and the staging tree to
    /// be stored.
    AwaitPersisted { page: ManifestPage, total: u64 },
    /// The accept is being sent.
    Accepted { page: ManifestPage },
    /// Waiting for the stored checkpoint of file entry `index`.
    AwaitCheckpoint { page: ManifestPage, index: usize },
    /// File entry `index` was verified before; waiting for its completion to
    /// be announced again.
    Replaying { page: ManifestPage, index: usize, recorded: Vec<u8> },
    /// The staged file of entry `index` durably holds `offset` bytes; the
    /// first `read` of them were read back and hashed.
    Rehashing { page: ManifestPage, index: usize, offset: u64, read: u64 },
    /// Receiving file entry `index`, whose staged file durably holds
    /// `offset` bytes.
    Receiving { page: ManifestPage, index: usize, offset: u64 },
    /// A chunk is being written; once durable, the file holds `end` bytes.
    AwaitDurable { page: ManifestPage, index: usize, end: u64 },
    /// The completion `done` was announced once the staged file held
    /// `offset` bytes; waiting for the file to be closed durably.
    AwaitStaged { page: ManifestPage, index: usize, done: EntryComplete, offset: u64 },
    /// Waiting for the verified digest to be stored.
    AwaitRecorded { page: ManifestPage, index: usize, text: String },
    /// The entry's verification is being sent.
    Verified { page: ManifestPage, index: usize },
    /// Every file is verified; waiting for the batch's completion.
    AwaitBatchComplete { page: ManifestPage },
    /// Waiting for the names in the receive folder, to place top-level
    /// entry `index`.
    Finalizing { page: ManifestPage, index: usize },
    /// Top-level entry `index` is being placed; `attempts` names were tried.
    Placing { page: ManifestPage, index: usize, attempts: u32 },
    /// The batch is received and its receipt is being sent.
    Done,
    /// The receive stopped.
    Stopped,
}

/// What happened since the last step.
pub enum ReceiveEvent {
    /// The receive starts, with the receiving preference and whether a
    /// receive folder is set.
    Start { receiving_enabled: bool, root_available: bool },
    /// A control message was read.
    Control(ControlMessage),
    /// A chunk was read.
    Chunk(Chunk),
    /// Whether the receive folder has room for the batch.
    Space { available: bool },
    /// Whether this batch was already received completely.
    Stored { finalized: bool },
    /// The records and the staging tree are stored; `durable` holds each
    /// manifest entry's stored durable offset, if any.
    Persisted { durable: Vec<Option<i64>> },
    /// The stored checkpoint of the entry asked for.
    Prior { durable_offset: Option<i64>, verified_hash: Option<Vec<u8>> },
    /// The chunk being written and its checkpoint are durable.
    Durable,
    /// Writing the chunk or its checkpoint failed.
    WriteFailed(TransferError),
    /// The next bytes of the staged file being resumed, read in order from
    /// its start.
    Prefix { data: Vec<u8> },
    /// The staged file is closed and durable.
    Staged,
    /// The verified digest is stored.
    Recorded,
    /// The frame asked for was sent.
    Sent,
    /// The names now in the receive folder.
    Occupied { names: Vec<String> },
    /// The entry was placed under the name asked for.
    Placed,
    /// The name asked for was taken meanwhile; `names` are the names now in
    /// the receive folder.
    Taken { names: Vec<String> },
    /// The stream, the disk or the store failed.
    Broken,
    /// The receive was cancelled.
    Cancelled,
}

/// Why a receive is refused before anything is written for it.
#[derive(Debug, Clone, Copy, PartialEq, Eq)]
pub enum Refusal {
    Receive(ReceiveRefusal),
    Manifest(ManifestRefusal),
}

/// What the caller does next.
pub enum ReceiveAction {
    /// Read a control message.
    ReadControl,
    /// Read a control message or a chunk.
    ReadFrame,
    /// Refuse the batch and close; nothing was written for it.
    Refuse(Refusal),
    /// Find out whether `total` bytes fit in the receive folder.
    CheckSpace { total: u64 },
    /// Look up the stored record of the batch.
    LookUpBatch,
    /// Store the batch (of `total` bytes), its target and items, create the
    /// staging tree and its directories, and load each entry's checkpoint.
    Persist { total: u64 },
    /// Send the accept built by `offer_acceptance` from the manifest and
    /// `durable`.
    SendAccept { durable: Vec<Option<i64>> },
    /// Load the stored checkpoint of file entry `index`.
    LoadCheckpoint { index: usize },
    /// Open the staged file of entry `index`: create it when `offset` is 0
    /// and read the next frame; else resume it at `offset` and read its
    /// first bytes back (`Prefix`).
    OpenFile { index: usize, offset: u64 },
    /// Read the next bytes of the staged file of entry `index` back.
    ReadPrefix { index: usize },
    /// Write `data` at `offset` into the staged file of entry `index` and
    /// store `end` as its durable checkpoint.
    Write { index: usize, offset: u64, data: Vec<u8>, end: u64 },
    /// Acknowledge the durable offset, then read the next frame.
    Ack(ChunkAck),
    /// Close the staged file of entry `index` durably.
    CloseFile { index: usize },
    /// Store `digest` as entry `index`'s verified digest.
    RecordVerified { index: usize, digest: [u8; 32] },
    /// Send the verification of entry `index` with the digest text `blake3`
    /// (`verified_reply`).
    SendVerified { index: usize, blake3: String },
    /// List the names in the receive folder.
    ListDestination,
    /// Place top-level entry `index` under `name`, the name planned for its
    /// first component beside the names `occupied`, without replacing
    /// anything.
    Place { index: usize, occupied: Vec<String>, name: String },
    /// Send the batch's receipt (`completed_receipt`) and mark it completed.
    SendReceipt,
    /// Stop; `refusal` is the decision that stopped the receive (`None` when
    /// the stream, the disk or the store failed), and the staging tree is
    /// removed when `discard_staging`.
    Fail { refusal: Option<ReceiveRefusal>, discard_staging: bool, cancelled: bool },
    /// Close without touching anything.
    Close,
}

/// The first file entry at or after `from`; the number of entries when
/// there is none.
pub open spec fn next_file_index(entries: Seq<ManifestEntry>, from: int) -> int
    decreases entries.len() - from,
{
    if from < 0 || from >= entries.len() {
        entries.len() as int
    } else if entries[from].kind == EntryKind::File {
        from
    } else {
        next_file_index(entries, from + 1)
    }
}

/// The first top-level entry at or after `from`; the number of entries
/// when there is none.
pub open spec fn next_top_index(entries: Seq<ManifestEntry>, from: int) -> int
    decreases entries.len() - from,
{
    if from < 0 || from >= entries.len() {
        entries.len() as int
    } else if entries[from].parent_entry_id is None {
        from
    } else {
        next_top_index(entries, from + 1)
    }
}

/// How a failed write is reported (`write_failure`).
pub open spec fn write_refusal(error: TransferError) -> ReceiveRefusal {
    match error {
        TransferError::Durability => ReceiveRefusal::CheckpointPersistenceFailed,
        TransferError::DiskFull => ReceiveRefusal::DiskFull,
        TransferError::FsyncFailed => ReceiveRefusal::FsyncFailed,
        _ => ReceiveRefusal::InvalidChunk,
    }
}

/// Stopping on `refusal` after the accept: integrity and protocol refusals
/// remove the staging tree.
pub open spec fn fail_on(refusal: ReceiveRefusal) -> (ReceiveState, ReceiveAction) {
    (
        ReceiveState::Stopped,
        ReceiveAction::Fail {
            refusal: Some(refusal),
            discard_staging: crate::receiver::integrity_refusal(refusal),
            cancelled: false,
        },
    )
}

/// Going on with the first file entry at or after `from`, or, when there is
/// none, waiting for the batch's completion.
pub open spec fn next_file_step(page: ManifestPage, from: int) -> (ReceiveState, ReceiveAction) {
    let i = next_file_index(page.entries@, from);
    if i >= page.entries@.len() {
        (ReceiveState::AwaitBatchComplete { page }, ReceiveAction::ReadControl)
    } else {
        (ReceiveState::AwaitCheckpoint { page, index: i as usize }, ReceiveAction::LoadCheckpoint { index: i as usize })
    }
}

/// Going on with the first top-level entry at or after `from`, or, when
/// every one is placed, sending the receipt.
pub open spec fn next_top_step(page: ManifestPage, from: int) -> (ReceiveState, ReceiveAction) {
    let i = next_top_index(page.entries@, from);
    if i >= page.entries@.len() {
        (ReceiveState::Done, ReceiveAction::SendReceipt)
    } else {
        (ReceiveState::Finalizing { page, index: i as usize }, ReceiveAction::ListDestination)
    }
}

/// Whether the entry a state is about lies in its manifest.
pub open spec fn index_ok(s: ReceiveState) -> bool {
    match s {
        ReceiveState::AwaitCheckpoint { page, index } => index < page.entries@.len(),
        ReceiveState::Replaying { page, index, .. } => index < page.entries@.len(),
        ReceiveState::Rehashing { page, index, .. } => index < page.entries@.len(),
        ReceiveState::Receiving { page, index, .. } => index < page.entries@.len(),
        ReceiveState::AwaitDurable { page, index, .. } => index < page.entries@.len(),
        ReceiveState::AwaitStaged { page, index, .. } => index < page.entries@.len(),
        ReceiveState::AwaitRecorded { page, index, .. } => index < page.entries@.len(),
        ReceiveState::Verified { page, index } => index < page.entries@.len(),
        ReceiveState::Finalizing { page, index } => index < page.entries@.len(),
        ReceiveState::Placing { page, index, .. } => index < page.entries@.len(),
        _ => true,
    }
}

/// Whether nothing has been written for the batch yet.
pub open spec fn before_writes(s: ReceiveState) -> bool {
    s is Ready || s is AwaitOffer || s is AwaitManifest || s is AwaitSpace || s is AwaitStored
}

/// A name whose text is the one planned for `entry`'s first component
/// beside the names `occupied`.
#[verifier::opaque]
pub open spec fn placement_name(entry: ManifestEntry, occupied: Vec<String>) -> String {
    choose|n: String| #[trigger] n@ == planned_name(entry.components@[0]@, views(occupied@))
}

/// What a step does, given the bytes `absorbed` the entry's digest has
/// taken in.  Before the records are stored, any failure refuses or
/// closes without writing.  After the accept, a failure stops the receive,
/// discarding the staging tree on integrity and protocol refusals and on
/// cancellation.
pub open spec fn receive_transition(s: ReceiveState, e: ReceiveEvent, absorbed: Seq<u8>) -> (ReceiveState, ReceiveAction) {
    match e {
        ReceiveEvent::Broken => if before_writes(s) || s is AwaitPersisted || s is Stopped || s is Done {
            (ReceiveState::Stopped, ReceiveAction::Close)
        } else {
            (ReceiveState::Stopped, ReceiveAction::Fail { refusal: None, discard_staging: false, cancelled: false })
        },
        ReceiveEvent::Cancelled => if before_writes(s) || s is AwaitPersisted || s is Stopped || s is Done {
            (ReceiveState::Stopped, ReceiveAction::Close)
        } else {
            (ReceiveState::Stopped, ReceiveAction::Fail { refusal: None, discard_staging: true, cancelled: true })
        },
        _ => if !index_ok(s) {
            (ReceiveState::Stopped, ReceiveAction::Fail { refusal: None, discard_staging: false, cancelled: false })
        } else {
            match s {
            ReceiveState::Ready => match e {
                ReceiveEvent::Start { receiving_enabled, root_available } => if !receiving_enabled {
                    (ReceiveState::Stopped, ReceiveAction::Refuse(Refusal::Receive(ReceiveRefusal::ReceivingDisabled)))
                } else if !root_available {
                    (ReceiveState::Stopped, ReceiveAction::Refuse(Refusal::Receive(ReceiveRefusal::RootUnavailable)))
                } else {
                    (ReceiveState::AwaitOffer, ReceiveAction::ReadControl)
                },
                _ => (ReceiveState::Stopped, ReceiveAction::Close),
            },
            ReceiveState::AwaitOffer => match e {
                ReceiveEvent::Control(ControlMessage::OfferStart(offer)) => (
                    ReceiveState::AwaitManifest { offer },
                    ReceiveAction::ReadControl,
                ),
                ReceiveEvent::Control(_) | ReceiveEvent::Chunk(_) => (
                    ReceiveState::Stopped,
                    ReceiveAction::Refuse(Refusal::Receive(ReceiveRefusal::OfferRequired)),
                ),
                _ => (ReceiveState::Stopped, ReceiveAction::Close),
            },
            ReceiveState::AwaitManifest { offer } => match e {
                ReceiveEvent::Control(ControlMessage::ManifestPage(page)) => match manifest_check(offer, page) {
                    Ok(total) => (ReceiveState::AwaitSpace { page, total }, ReceiveAction::CheckSpace { total }),
                    Err(r) => (ReceiveState::Stopped, ReceiveAction::Refuse(Refusal::Manifest(r))),
                },
                ReceiveEvent::Control(_) | ReceiveEvent::Chunk(_) => (
                    ReceiveState::Stopped,
                    ReceiveAction::Refuse(Refusal::Receive(ReceiveRefusal::ManifestRequired)),
                ),
                _ => (ReceiveState::Stopped, ReceiveAction::Close),
            },
            ReceiveState::AwaitSpace { page, total } => match e {
                ReceiveEvent::Space { available } => if available {
                    (ReceiveState::AwaitStored { page, total }, ReceiveAction::LookUpBatch)
                } else {
                    (ReceiveState::Stopped, ReceiveAction::Refuse(Refusal::Manifest(ManifestRefusal::OfferMismatch)))
                },
                _ => (ReceiveState::Stopped, ReceiveAction::Close),
            },
            ReceiveState::AwaitStored { page, total } => match e {
                ReceiveEvent::Stored { finalized } => if finalized {
                    (
                        ReceiveState::Stopped,
                        ReceiveAction::Refuse(Refusal::Receive(ReceiveRefusal::BatchAlreadyFinalized)),
                    )
                } else {
                    (ReceiveState::AwaitPersisted { page, total }, ReceiveAction::Persist { total })
                },
                _ => (ReceiveState::Stopped, ReceiveAction::Close),
            },
            ReceiveState::AwaitPersisted { page, total } => match e {
                ReceiveEvent::Persisted { durable } => if durable@.len() == page.entries@.len() {
                    (ReceiveState::Accepted { page }, ReceiveAction::SendAccept { durable })
                } else {
                    (ReceiveState::Stopped, ReceiveAction::Close)
                },
                _ => (ReceiveState::Stopped, ReceiveAction::Close),
            },
            ReceiveState::Accepted { page } => match e {
                ReceiveEvent::Sent => next_file_step(page, 0),
                _ => (ReceiveState::Stopped, ReceiveAction::Fail { refusal: None, discard_staging: false, cancelled: false }),
            },
            ReceiveState::AwaitCheckpoint { page, index } => match e {
                ReceiveEvent::Prior { durable_offset, verified_hash } => match verified_hash {
                    Some(recorded) => (ReceiveState::Replaying { page, index, recorded }, ReceiveAction::ReadControl),
                    None => {
                        let offset: u64 = match durable_offset {
                            Some(d) => if d > 0 { d as u64 } else { 0 },
                            None => 0,
                        };
                        if offset == 0 {
                            (ReceiveState::Receiving { page, index, offset }, ReceiveAction::OpenFile { index, offset })
                        } else {
                            (ReceiveState::Rehashing { page, index, offset, read: 0 }, ReceiveAction::OpenFile { index, offset })
                        }
                    },
                },
                _ => (ReceiveState::Stopped, ReceiveAction::Fail { refusal: None, discard_staging: false, cancelled: false }),
            },
            ReceiveState::Rehashing { page, index, offset, read } => match e {
                ReceiveEvent::Prefix { data } => if data@.len() == 0 || read + data@.len() > offset {
                    (ReceiveState::Stopped, ReceiveAction::Fail { refusal: None, discard_staging: false, cancelled: false })
                } else if read + data@.len() == offset {
                    (ReceiveState::Receiving { page, index, offset }, ReceiveAction::ReadFrame)
                } else {
                    (
                        ReceiveState::Rehashing { page, index, offset, read: (read + data@.len()) as u64 },
                        ReceiveAction::ReadPrefix { index },
                    )
                },
                _ => (ReceiveState::Stopped, ReceiveAction::Fail { refusal: None, discard_staging: false, cancelled: false }),
            },
            ReceiveState::Replaying { page, index, recorded } => match e {
                ReceiveEvent::Control(ControlMessage::EntryComplete(done)) => if (completion_digest_of(
                    done,
                    page.batch_id@,
                    page.entries@[index as int],
                ) matches Ok(d) && d == recorded@) {
                    (ReceiveState::Verified { page, index }, ReceiveAction::SendVerified { index, blake3: done.blake3 })
                } else {
                    fail_on(ReceiveRefusal::VerifiedReplayMismatch)
                },
                ReceiveEvent::Control(_) | ReceiveEvent::Chunk(_) => fail_on(ReceiveRefusal::VerifiedReplayMismatch),
                _ => (ReceiveState::Stopped, ReceiveAction::Fail { refusal: None, discard_staging: false, cancelled: false }),
            },
            ReceiveState::Receiving { page, index, offset } => {
                let entry = page.entries@[index as int];
                match e {
                    ReceiveEvent::Chunk(c) => if !(c.batch_id@ == page.batch_id@ && c.entry_id@ == entry.entry_id@) {
                        fail_on(ReceiveRefusal::ChunkIdentityMismatch)
                    } else {
                        match chunk_append(offset, entry.size, c.offset, c.data@, blake3_digest(c.data@)) {
                            Ok(end) => (
                                ReceiveState::AwaitDurable { page, index, end },
                                ReceiveAction::Write { index, offset: c.offset, data: c.data, end },
                            ),
                            Err(error) => fail_on(write_refusal(error)),
                        }
                    },
                    ReceiveEvent::Control(ControlMessage::EntryComplete(done)) => match completion_digest_of(
                        done,
                        page.batch_id@,
                        entry,
                    ) {
                        Ok(_) => (ReceiveState::AwaitStaged { page, index, done, offset }, ReceiveAction::CloseFile { index }),
                        Err(r) => fail_on(r),
                    },
                    ReceiveEvent::Control(_) => fail_on(ReceiveRefusal::UnexpectedFrame),
                    _ => (ReceiveState::Stopped, ReceiveAction::Fail { refusal: None, discard_staging: false, cancelled: false }),
                }
            },
            ReceiveState::AwaitDurable { page, index, end } => match e {
                ReceiveEvent::Durable => (
                    ReceiveState::Receiving { page, index, offset: end },
                    ReceiveAction::Ack(
                        ChunkAck { batch_id: page.batch_id, entry_id: page.entries@[index as int].entry_id, durable_offset: end },
                    ),
                ),
                ReceiveEvent::WriteFailed(error) => fail_on(write_refusal(error)),
                _ => (ReceiveState::Stopped, ReceiveAction::Fail { refusal: None, discard_staging: false, cancelled: false }),
            },
            ReceiveState::AwaitStaged { page, index, done, offset } => match e {
                ReceiveEvent::Staged => if offset == page.entries@[index as int].size && (
                completion_digest_of(done, page.batch_id@, page.entries@[index as int]) matches Ok(d) && blake3_digest(absorbed) == d) {
                    (
                        ReceiveState::AwaitRecorded { page, index, text: done.blake3 },
                        ReceiveAction::RecordVerified { index, digest: digest_array(blake3_digest(absorbed)) },
                    )
                } else {
                    fail_on(ReceiveRefusal::EntryHashMismatch)
                },
                _ => (ReceiveState::Stopped, ReceiveAction::Fail { refusal: None, discard_staging: false, cancelled: false }),
            },
            ReceiveState::AwaitRecorded { page, index, text } => match e {
                ReceiveEvent::Recorded => (ReceiveState::Verified { page, index }, ReceiveAction::SendVerified { index, blake3: text }),
                _ => (ReceiveState::Stopped, ReceiveAction::Fail { refusal: None, discard_staging: false, cancelled: false }),
            },
            ReceiveState::Verified { page, index } => match e {
                ReceiveEvent::Sent => next_file_step(page, index + 1),
                _ => (ReceiveState::Stopped, ReceiveAction::Fail { refusal: None, discard_staging: false, cancelled: false }),
            },
            ReceiveState::AwaitBatchComplete { page } => match e {
                ReceiveEvent::Control(ControlMessage::BatchComplete(v)) => if v.batch_id@ == page.batch_id@ {
                    next_top_step(page, 0)
                } else {
                    fail_on(ReceiveRefusal::BatchCompletionRequired)
                },
                ReceiveEvent::Control(_) | ReceiveEvent::Chunk(_) => fail_on(ReceiveRefusal::BatchCompletionRequired),
                _ => (ReceiveState::Stopped, ReceiveAction::Fail { refusal: None, discard_staging: false, cancelled: false }),
            },
            ReceiveState::Finalizing { page, index } => match e {
                ReceiveEvent::Occupied { names } => if page.entries@[index as int].components@.len() == 0 {
                    (ReceiveState::Stopped, ReceiveAction::Fail { refusal: None, discard_staging: false, cancelled: false })
                } else {
                    (
                        ReceiveState::Placing { page, index, attempts: 1 },
                        ReceiveAction::Place { index, occupied: names, name: placement_name(page.entries@[index as int], names) },
                    )
                },
                _ => (ReceiveState::Stopped, ReceiveAction::Fail { refusal: None, discard_staging: false, cancelled: false }),
            },
            ReceiveState::Placing { page, index, attempts } => match e {
                ReceiveEvent::Placed => next_top_step(page, index + 1),
                ReceiveEvent::Taken { names } => if page.entries@[index as int].components@.len() == 0 {
                    (ReceiveState::Stopped, ReceiveAction::Fail { refusal: None, discard_staging: false, cancelled: false })
                } else if attempts < PLACEMENT_ATTEMPTS {
                    (
                        ReceiveState::Placing { page, index, attempts: (attempts + 1) as u32 },
                        ReceiveAction::Place { index, occupied: names, name: placement_name(page.entries@[index as int], names) },
                    )
                } else {
                    fail_on(ReceiveRefusal::FinalizationFailed)
                },
                _ => (ReceiveState::Stopped, ReceiveAction::Fail { refusal: None, discard_staging: false, cancelled: false }),
            },
            ReceiveState::Done | ReceiveState::Stopped => (ReceiveState::Stopped, ReceiveAction::Close),
        }
        },
    }
}

/// The bytes the entry's digest has taken in after a step: none once a
/// file is opened; the bytes read back while the staged file is rehashed;
/// the data of each chunk written.
pub open spec fn absorbed_after(s: ReceiveState, e: ReceiveEvent, absorbed: Seq<u8>) -> Seq<u8> {
    let (n, a) = receive_transition(s, e, absorbed);
    match a {
        ReceiveAction::Write { data, .. } => absorbed + data@,
        ReceiveAction::OpenFile { .. } => Seq::empty(),
        _ => if s is Rehashing && !(n is Stopped) {
            match e {
                ReceiveEvent::Prefix { data } => absorbed + data@,
                _ => absorbed,
            }
        } else {
            absorbed
        },
    }
}

/// The manifest of a state that places top-level entries.
pub open spec fn placing_page(s: ReceiveState) -> ManifestPage {
    match s {
        ReceiveState::Placing { page, .. } => page,
        _ => s->Finalizing_page,
    }
}

/// A step goes to the state `receive_transition` names and does its
/// action; a placement's name is the one planned for the entry's first
/// component beside the names in the receive folder, and none of them.
pub open spec fn receive_moves(s: ReceiveState, e: ReceiveEvent, absorbed: Seq<u8>, next: (ReceiveState, ReceiveAction)) -> bool {
    let (n, a) = receive_transition(s, e, absorbed);
    &&& next.0 == n
    &&& match a {
        ReceiveAction::Place { index, occupied, .. } => next.1 matches ReceiveAction::Place { index: i, occupied: o, name: m }
            && i == index && o == occupied && m@ == planned_name(
            placing_page(s).entries@[index as int].components@[0]@,
            views(occupied@),
        ) && !views(occupied@).contains(m@),
        _ => next.1 == a,
    }
}

} // verus!

verus! {

fn fail_with(refusal: ReceiveRefusal) -> (next: (ReceiveState, ReceiveAction))
    ensures
        next == fail_on(refusal),
{
    let discard = refusal.discards_staging();
    (ReceiveState::Stopped, ReceiveAction::Fail { refusal: Some(refusal), discard_staging: discard, cancelled: false })
}

fn broken() -> (next: (ReceiveState, ReceiveAction))
    ensures
        next == (ReceiveState::Stopped, ReceiveAction::Fail { refusal: None, discard_staging: false, cancelled: false }),
{
    (ReceiveState::Stopped, ReceiveAction::Fail { refusal: None, discard_staging: false, cancelled: false })
}

fn first_file(entries: &Vec<ManifestEntry>, from: usize) -> (i: usize)
    ensures
        i as int == next_file_index(entries@, from as int),
{
    let mut i = from;
    if i >= entries.len() {
        return entries.len();
    }
    while i < entries.len()
        invariant
            from <= i <= entries@.len(),
            next_file_index(entries@, i as int) == next_file_index(entries@, from as int),
        decreases entries@.len() - i,
    {
        match entries[i].kind {
            EntryKind::File => return i,
            EntryKind::Directory => {},
        }
        i = i + 1;
    }
    i
}

fn first_top(entries: &Vec<ManifestEntry>, from: usize) -> (i: usize)
    ensures
        i as int == next_top_index(entries@, from as int),
{
    let mut i = from;
    if i >= entries.len() {
        return entries.len();
    }
    while i < entries.len()
        invariant
            from <= i <= entries@.len(),
            next_top_index(entries@, i as int) == next_top_index(entries@, from as int),
        decreases entries@.len() - i,
    {
        if entries[i].parent_entry_id.is_none() {
            return i;
        }
        i = i + 1;
    }
    i
}

fn next_file(page: ManifestPage, from: usize) -> (next: (ReceiveState, ReceiveAction))
    ensures
        next == next_file_step(page, from as int),
{
    let i = first_file(&page.entries, from);
    if i >= page.entries.len() {
        (ReceiveState::AwaitBatchComplete { page }, ReceiveAction::ReadControl)
    } else {
        (ReceiveState::AwaitCheckpoint { page, index: i }, ReceiveAction::LoadCheckpoint { index: i })
    }
}

fn next_top(page: ManifestPage, from: usize) -> (next: (ReceiveState, ReceiveAction))
    ensures
        next == next_top_step(page, from as int),
{
    let i = first_top(&page.entries, from);
    if i >= page.entries.len() {
        (ReceiveState::Done, ReceiveAction::SendReceipt)
    } else {
        (ReceiveState::Finalizing { page, index: i }, ReceiveAction::ListDestination)
    }
}

fn quiet(state: &ReceiveState) -> (q: bool)
    ensures
        q == (before_writes(*state) || *state is AwaitPersisted || *state is Stopped || *state is Done),
{
    match state {
        ReceiveState::Ready | ReceiveState::AwaitOffer | ReceiveState::AwaitManifest { .. }
        | ReceiveState::AwaitSpace { .. } | ReceiveState::AwaitStored { .. } | ReceiveState::AwaitPersisted { .. }
        | ReceiveState::Stopped | ReceiveState::Done => true,
        _ => false,
    }
}

fn index_valid(state: &ReceiveState) -> (ok: bool)
    ensures
        ok == index_ok(*state),
{
    match state {
        ReceiveState::AwaitCheckpoint { page, index } => *index < page.entries.len(),
        ReceiveState::Replaying { page, index, .. } => *index < page.entries.len(),
        ReceiveState::Rehashing { page, index, .. } => *index < page.entries.len(),
        ReceiveState::Receiving { page, index, .. } => *index < page.entries.len(),
        ReceiveState::AwaitDurable { page, index, .. } => *index < page.entries.len(),
        ReceiveState::AwaitStaged { page, index, .. } => *index < page.entries.len(),
        ReceiveState::AwaitRecorded { page, index, .. } => *index < page.entries.len(),
        ReceiveState::Verified { page, index } => *index < page.entries.len(),
        ReceiveState::Finalizing { page, index } => *index < page.entries.len(),
        ReceiveState::Placing { page, index, .. } => *index < page.entries.len(),
        _ => true,
    }
}

/// One step of a receive, as `receive_moves` says; `digest` takes in the
/// bytes of the staged file as `absorbed_after` says.
#[verifier::rlimit(80)]
pub fn receive_step(state: ReceiveState, event: ReceiveEvent, digest: &mut StreamDigest) -> (next: (ReceiveState, ReceiveAction))
    ensures
        receive_moves(state, event, old(digest)@, next),
        final(digest)@ == absorbed_after(state, event, old(digest)@),
{
    match event {
        ReceiveEvent::Broken => {
            if quiet(&state) {
                return (ReceiveState::Stopped, ReceiveAction::Close);
            }
            return broken();
        },
        ReceiveEvent::Cancelled => {
            if quiet(&state) {
                return (ReceiveState::Stopped, ReceiveAction::Close);
            }
            return (ReceiveState::Stopped, ReceiveAction::Fail { refusal: None, discard_staging: true, cancelled: true });
        },
        _ => {},
    }
    if !index_valid(&state) {
        return broken();
    }
    match state {
        ReceiveState::Ready => match event {
            ReceiveEvent::Start { receiving_enabled, root_available } => if !receiving_enabled {
                (ReceiveState::Stopped, ReceiveAction::Refuse(Refusal::Receive(ReceiveRefusal::ReceivingDisabled)))
            } else if !root_available {
                (ReceiveState::Stopped, ReceiveAction::Refuse(Refusal::Receive(ReceiveRefusal::RootUnavailable)))
            } else {
                (ReceiveState::AwaitOffer, ReceiveAction::ReadControl)
            },
            _ => (ReceiveState::Stopped, ReceiveAction::Close),
        },
        ReceiveState::AwaitOffer => match event {
            ReceiveEvent::Control(ControlMessage::OfferStart(offer)) => (
                ReceiveState::AwaitManifest { offer },
                ReceiveAction::ReadControl,
            ),
            ReceiveEvent::Control(_) | ReceiveEvent::Chunk(_) => (
                ReceiveState::Stopped,
                ReceiveAction::Refuse(Refusal::Receive(ReceiveRefusal::OfferRequired)),
            ),
            _ => (ReceiveState::Stopped, ReceiveAction::Close),
        },
        ReceiveState::AwaitManifest { offer } => match event {
            ReceiveEvent::Control(ControlMessage::ManifestPage(page)) => match check_incoming_manifest(&offer, &page) {
                Ok(total) => (ReceiveState::AwaitSpace { page, total }, ReceiveAction::CheckSpace { total }),
                Err(r) => (ReceiveState::Stopped, ReceiveAction::Refuse(Refusal::Manifest(r))),
            },
            ReceiveEvent::Control(_) | ReceiveEvent::Chunk(_) => (
                ReceiveState::Stopped,
                ReceiveAction::Refuse(Refusal::Receive(ReceiveRefusal::ManifestRequired)),
            ),
            _ => (ReceiveState::Stopped, ReceiveAction::Close),
        },
        ReceiveState::AwaitSpace { page, total } => match event {
            ReceiveEvent::Space { available } => if available {
                (ReceiveState::AwaitStored { page, total }, ReceiveAction::LookUpBatch)
            } else {
                (ReceiveState::Stopped, ReceiveAction::Refuse(Refusal::Manifest(ManifestRefusal::OfferMismatch)))
            },
            _ => (ReceiveState::Stopped, ReceiveAction::Close),
        },
        ReceiveState::AwaitStored { page, total } => match event {
            ReceiveEvent::Stored { finalized } => if finalized {
                (ReceiveState::Stopped, ReceiveAction::Refuse(Refusal::Receive(ReceiveRefusal::BatchAlreadyFinalized)))
            } else {
                (ReceiveState::AwaitPersisted { page, total }, ReceiveAction::Persist { total })
            },
            _ => (ReceiveState::Stopped, ReceiveAction::Close),
        },
        ReceiveState::AwaitPersisted { page, total } => match event {
            ReceiveEvent::Persisted { durable } => if durable.len() == page.entries.len() {
                (ReceiveState::Accepted { page }, ReceiveAction::SendAccept { durable })
            } else {
                (ReceiveState::Stopped, ReceiveAction::Close)
            },
            _ => (ReceiveState::Stopped, ReceiveAction::Close),
        },
        ReceiveState::Accepted { page } => match event {
            ReceiveEvent::Sent => next_file(page, 0),
            _ => broken(),
        },
        ReceiveState::AwaitCheckpoint { page, index } => match event {
            ReceiveEvent::Prior { durable_offset, verified_hash } => match verified_hash {
                Some(recorded) => (ReceiveState::Replaying { page, index, recorded }, ReceiveAction::ReadControl),
                None => {
                    let offset: u64 = match durable_offset {
                        Some(d) => if d > 0 { d as u64 } else { 0 },
                        None => 0,
                    };
                    *digest = StreamDigest::new();
                    if offset == 0 {
                        (ReceiveState::Receiving { page, index, offset }, ReceiveAction::OpenFile { index, offset })
                    } else {
                        (ReceiveState::Rehashing { page, index, offset, read: 0 }, ReceiveAction::OpenFile { index, offset })
                    }
                },
            },
            _ => broken(),
        },
        ReceiveState::Rehashing { page, index, offset, read } => match event {
            ReceiveEvent::Prefix { data } => {
                let count = data.len() as u64;
                if count == 0 || read > offset || count > offset - read {
                    return broken();
                }
                digest.absorb(data.as_slice());
                if read + count == offset {
                    (ReceiveState::Receiving { page, index, offset }, ReceiveAction::ReadFrame)
                } else {
                    (ReceiveState::Rehashing { page, index, offset, read: read + count }, ReceiveAction::ReadPrefix { index })
                }
            },
            _ => broken(),
        },
        ReceiveState::Replaying { page, index, recorded } => match event {
            ReceiveEvent::Control(ControlMessage::EntryComplete(done)) => {
                let matched = replay_matches(&done, &page.batch_id, &page.entries[index], recorded.as_slice());
                if matched {
                    (ReceiveState::Verified { page, index }, ReceiveAction::SendVerified { index, blake3: done.blake3 })
                } else {
                    fail_with(ReceiveRefusal::VerifiedReplayMismatch)
                }
            },
            ReceiveEvent::Control(_) | ReceiveEvent::Chunk(_) => fail_with(ReceiveRefusal::VerifiedReplayMismatch),
            _ => broken(),
        },
        ReceiveState::Receiving { page, index, offset } => match event {
            ReceiveEvent::Chunk(c) => {
                if !chunk_belongs(&c, &page.batch_id, &page.entries[index].entry_id) {
                    return fail_with(ReceiveRefusal::ChunkIdentityMismatch);
                }
                let chunk_digest = c.hash();
                let appended = check_chunk_append(offset, page.entries[index].size, c.offset, c.data.as_slice(), &chunk_digest);
                match appended {
                    Ok(end) => {
                        digest.absorb(c.data.as_slice());
                        (ReceiveState::AwaitDurable { page, index, end }, ReceiveAction::Write { index, offset: c.offset, data: c.data, end })
                    },
                    Err(error) => fail_with(write_failure(error)),
                }
            },
            ReceiveEvent::Control(ControlMessage::EntryComplete(done)) => {
                let checked = completion_digest(&done, &page.batch_id, &page.entries[index]);
                match checked {
                    Ok(_) => (ReceiveState::AwaitStaged { page, index, done, offset }, ReceiveAction::CloseFile { index }),
                    Err(r) => fail_with(r),
                }
            },
            ReceiveEvent::Control(_) => fail_with(ReceiveRefusal::UnexpectedFrame),
            _ => broken(),
        },
        ReceiveState::AwaitDurable { page, index, end } => match event {
            ReceiveEvent::Durable => {
                let ack = ChunkAck { batch_id: page.batch_id, entry_id: page.entries[index].entry_id, durable_offset: end };
                (ReceiveState::Receiving { page, index, offset: end }, ReceiveAction::Ack(ack))
            },
            ReceiveEvent::WriteFailed(error) => fail_with(write_failure(error)),
            _ => broken(),
        },
        ReceiveState::AwaitStaged { page, index, done, offset } => match event {
            ReceiveEvent::Staged => {
                let staged = digest.digest();
                let complete = offset == page.entries[index].size && match completion_digest(
                    &done,
                    &page.batch_id,
                    &page.entries[index],
                ) {
                    Ok(d) => bytes_equal(&staged, &d),
                    Err(_) => false,
                };
                if complete {
                    proof {
                        reveal(digest_array);
                        let chosen = digest_array(blake3_digest(digest@));
                        assert(chosen@ == staged@);
                        assert(chosen =~= staged);
                    }
                    (
                        ReceiveState::AwaitRecorded { page, index, text: done.blake3 },
                        ReceiveAction::RecordVerified { index, digest: staged },
                    )
                } else {
                    fail_with(ReceiveRefusal::EntryHashMismatch)
                }
            },
            _ => broken(),
        },
        ReceiveState::AwaitRecorded { page, index, text } => match event {
            ReceiveEvent::Recorded => (ReceiveState::Verified { page, index }, ReceiveAction::SendVerified { index, blake3: text }),
            _ => broken(),
        },
        ReceiveState::Verified { page, index } => match event {
            ReceiveEvent::Sent => {
                let count = page.entries.len();
                next_file(page, if index < count { index + 1 } else { count })
            },
            _ => broken(),
        },
        ReceiveState::AwaitBatchComplete { page } => match event {
            ReceiveEvent::Control(ControlMessage::BatchComplete(v)) => if bytes_equal(&v.batch_id, &page.batch_id) {
                next_top(page, 0)
            } else {
                fail_with(ReceiveRefusal::BatchCompletionRequired)
            },
            ReceiveEvent::Control(_) | ReceiveEvent::Chunk(_) => fail_with(ReceiveRefusal::BatchCompletionRequired),
            _ => broken(),
        },
        ReceiveState::Finalizing { page, index } => match event {
            ReceiveEvent::Occupied { names } => {
                if page.entries[index].components.len() == 0 {
                    return broken();
                }
                let name = plan_top_level_name(page.entries[index].components[0].as_str(), names.as_slice());
                proof {
                    assert(name@ == planned_name(page.entries@[index as int].components@[0]@, views(names@)));
                }
                (ReceiveState::Placing { page, index, attempts: 1 }, ReceiveAction::Place { index, occupied: names, name })
            },
            _ => broken(),
        },
        ReceiveState::Placing { page, index, attempts } => match event {
            ReceiveEvent::Placed => {
                let count = page.entries.len();
                next_top(page, if index < count { index + 1 } else { count })
            },
            ReceiveEvent::Taken { names } => {
                if page.entries[index].components.len() == 0 {
                    return broken();
                }
                if attempts < PLACEMENT_ATTEMPTS {
                    let name = plan_top_level_name(page.entries[index].components[0].as_str(), names.as_slice());
                    proof {
                        assert(name@ == planned_name(page.entries@[index as int].components@[0]@, views(names@)));
                    }
                    (ReceiveState::Placing { page, index, attempts: attempts + 1 }, ReceiveAction::Place { index, occupied: names, name })
                } else {
                    fail_with(ReceiveRefusal::FinalizationFailed)
                }
            },
            _ => broken(),
        },
        ReceiveState::Done | ReceiveState::Stopped => (ReceiveState::Stopped, ReceiveAction::Close),
    }
}

} // verus!

verus! {

/// Before the batch's records are stored nothing is written: a refused
/// offer or manifest, a disabled receiver or a missing folder, a full disk
/// or a batch already received close with nothing but a refusal, and the
/// first write is the request to store the records.
pub proof fn lemma_refusals_write_nothing(s: ReceiveState, e: ReceiveEvent, absorbed: Seq<u8>)
    requires
        before_writes(s),
    ensures
        ({
            let a = receive_transition(s, e, absorbed).1;
            a is Refuse || a is Close || a is ReadControl || a is CheckSpace || a is LookUpBatch || a is Persist
        }),
{
}

/// The accept is sent only once the records and the staging tree are
/// stored, with the stored durable offsets of every manifest entry.
pub proof fn lemma_accept_follows_persist(s: ReceiveState, e: ReceiveEvent, absorbed: Seq<u8>)
    ensures
        receive_transition(s, e, absorbed).1 is SendAccept ==> s is AwaitPersisted && e is Persisted,
{
}

/// A chunk is acknowledged only once it and its checkpoint are durable, and
/// the acknowledged offset is the checkpointed one, from which the entry
/// goes on.
pub proof fn lemma_ack_is_durable(s: ReceiveState, e: ReceiveEvent, absorbed: Seq<u8>)
    ensures
        ({
            let (n, a) = receive_transition(s, e, absorbed);
            a matches ReceiveAction::Ack(ack) ==> {
                &&& s matches ReceiveState::AwaitDurable { end, .. }
                &&& e is Durable
                &&& ack.durable_offset == end
                &&& n matches ReceiveState::Receiving { offset, .. } && offset == end
            }
        }),
{
}

/// The entry's digest covers exactly the staged file: while a file is
/// resumed it has taken in the bytes read back so far, and while a file is
/// received it has taken in as many bytes as the file durably holds (or
/// will hold once the pending chunk is durable).
pub open spec fn digest_tracks(s: ReceiveState, absorbed: Seq<u8>) -> bool {
    match s {
        ReceiveState::Rehashing { read, .. } => absorbed.len() == read,
        ReceiveState::Receiving { offset, .. } => absorbed.len() == offset,
        ReceiveState::AwaitDurable { end, .. } => absorbed.len() == end,
        ReceiveState::AwaitStaged { offset, .. } => absorbed.len() == offset,
        _ => true,
    }
}

/// The bytes hashed are the bytes of the staged file, in order: opening a
/// file starts the digest afresh, a resumed file's bytes are hashed as they
/// are read back from its start, and each chunk's data is hashed as it is
/// written at the offset that equals the number of bytes hashed before it.
/// Every step keeps the digest in step with the file.
pub proof fn lemma_digest_follows_staged_bytes(s: ReceiveState, e: ReceiveEvent, absorbed: Seq<u8>)
    requires
        digest_tracks(s, absorbed),
    ensures
        ({
            let (n, a) = receive_transition(s, e, absorbed);
            let after = absorbed_after(s, e, absorbed);
            &&& digest_tracks(n, after)
            &&& a is OpenFile ==> after == Seq::<u8>::empty()
            &&& a matches ReceiveAction::Write { offset, data, .. } ==> offset == absorbed.len() && after == absorbed + data@
            &&& (s is Rehashing && !(n is Stopped)) ==> (e matches ReceiveEvent::Prefix { data } && after == absorbed + data@)
            &&& (!(a is OpenFile) && !(a is Write) && !(s is Rehashing)) ==> after == absorbed
        }),
{
}

/// A staged file is recorded as verified only when it holds the entry's
/// size and the BLAKE3 digest of the bytes hashed for it is the one its
/// completion announced; the digest recorded is that one.  When either
/// differs the receive fails and its staging tree is removed.
pub proof fn lemma_verified_only_on_matching_digest(s: ReceiveState, e: ReceiveEvent, absorbed: Seq<u8>)
    ensures
        ({
            let (n, a) = receive_transition(s, e, absorbed);
            &&& a matches ReceiveAction::RecordVerified { digest, .. } ==> {
                &&& s matches ReceiveState::AwaitStaged { page, index, done, offset }
                &&& e is Staged
                &&& offset == page.entries@[index as int].size
                &&& blake3_digest(absorbed) == digest@
                &&& completion_digest_of(done, page.batch_id@, page.entries@[index as int]) == Ok::<Seq<u8>, ReceiveRefusal>(
                    digest@,
                )
            }
            &&& (s is AwaitStaged && e is Staged && !(a is RecordVerified) && index_ok(s)) ==> a == ReceiveAction::Fail {
                refusal: Some(ReceiveRefusal::EntryHashMismatch),
                discard_staging: true,
                cancelled: false,
            }
        }),
{
    let (n, a) = receive_transition(s, e, absorbed);
    if a is RecordVerified {
        let d = blake3_digest(absorbed);
        let page = s->AwaitStaged_page;
        let c = completion_digest_of(s->AwaitStaged_done, page.batch_id@, page.entries@[s->AwaitStaged_index as int]);
        assert(c is Ok && c->Ok_0 == d && d.len() == 32);
        crate::bytes::lemma_array32_exists(d);
        reveal(digest_array);
    }
}

/// A staged file only grows at its end: a write is of a chunk of this batch
/// and entry, at the offset the file durably holds, within the entry's
/// size, and the durable offset it leads to is that offset plus the
/// chunk's length.
pub proof fn lemma_writes_are_contiguous(s: ReceiveState, e: ReceiveEvent, absorbed: Seq<u8>)
    ensures
        ({
            let (n, a) = receive_transition(s, e, absorbed);
            a matches ReceiveAction::Write { index, offset, data, end } ==> {
                &&& s matches ReceiveState::Receiving { page, index: i, offset: held }
                &&& i == index && offset == held
                &&& end == held + data@.len()
                &&& end <= page.entries@[index as int].size
                &&& e matches ReceiveEvent::Chunk(c) && c.batch_id@ == page.batch_id@ && c.entry_id@
                    == page.entries@[index as int].entry_id@ && c.data == data
                &&& n matches ReceiveState::AwaitDurable { end: pending, .. } && pending == end
            }
        }),
{
}

proof fn lemma_next_top_index(entries: Seq<ManifestEntry>, from: int)
    requires
        0 <= from,
    ensures
        from <= next_top_index(entries, from) <= entries.len() || (from > entries.len() && next_top_index(entries, from)
            == entries.len()),
        next_top_index(entries, from) < entries.len() ==> entries[next_top_index(entries, from)].parent_entry_id is None,
        forall|j: int| from <= j < next_top_index(entries, from) ==> (#[trigger] entries[j]).parent_entry_id is Some,
    decreases entries.len() - from,
{
    if from < entries.len() && entries[from].parent_entry_id is Some {
        lemma_next_top_index(entries, from + 1);
    }
}

/// The receipt is sent only once every top-level entry has been placed:
/// after the batch's completion when it has no top-level entry, or when
/// the entry just placed is the last top-level one.  When another
/// top-level entry follows the one just placed, the receive goes on with
/// the first of them.
pub proof fn lemma_receipt_after_every_placement(s: ReceiveState, e: ReceiveEvent, absorbed: Seq<u8>)
    ensures
        ({
            let (n, a) = receive_transition(s, e, absorbed);
            &&& a is SendReceipt ==> {
                ||| s matches ReceiveState::Placing { page, index, .. } && e is Placed && forall|j: int|
                    index < j < page.entries@.len() ==> (#[trigger] page.entries@[j]).parent_entry_id is Some
                ||| s matches ReceiveState::AwaitBatchComplete { page } && forall|j: int|
                    0 <= j < page.entries@.len() ==> (#[trigger] page.entries@[j]).parent_entry_id is Some
            }
            &&& (s matches ReceiveState::Placing { page, index, .. } && e is Placed && index < page.entries@.len()
                && exists|j: int| index < j < page.entries@.len() && (#[trigger] page.entries@[j]).parent_entry_id is None)
                ==> {
                &&& a is ListDestination
                &&& n matches ReceiveState::Finalizing { page: p, index: k } && p == s->Placing_page
                    && s->Placing_index < k < p.entries@.len() && p.entries@[k as int].parent_entry_id is None
                    && forall|j: int| s->Placing_index < j < k ==> (#[trigger] p.entries@[j]).parent_entry_id is Some
            }
        }),
{
    match s {
        ReceiveState::Placing { page, index, .. } => {
            lemma_next_top_index(page.entries@, index + 1);
            let i = next_top_index(page.entries@, index + 1);
            if i < page.entries@.len() {
                assert(page.entries@.len() == page.entries.len());
                assert((i as usize) as int == i);
            }
            if index < page.entries@.len() && exists|j: int|
                index < j < page.entries@.len() && (#[trigger] page.entries@[j]).parent_entry_id is None {
                let j = choose|j: int| index < j < page.entries@.len() && (#[trigger] page.entries@[j]).parent_entry_id is None;
                assert(i <= j);
            }
        },
        ReceiveState::AwaitBatchComplete { page } => {
            lemma_next_top_index(page.entries@, 0);
            let i = next_top_index(page.entries@, 0);
            if i < page.entries@.len() {
                assert(page.entries@.len() == page.entries.len());
                assert((i as usize) as int == i);
            }
        },
        _ => {},
    }
}

/// Top-level entries are placed only after the batch's completion, each
/// under the name planned for its first component beside the names the
/// receive folder holds: that component itself when it is free, else its
/// numbered name with the first free number, never one of those names.
pub proof fn lemma_placement_follows_completion(s: ReceiveState, e: ReceiveEvent, absorbed: Seq<u8>, next: (ReceiveState, ReceiveAction))
    requires
        receive_moves(s, e, absorbed, next),
    ensures
        next.1 is Place ==> (s is Finalizing && e is Occupied) || (s is Placing && e is Taken),
        next.1 matches ReceiveAction::Place { index, occupied, name } ==> ({
            let page = placing_page(s);
            &&& page.entries@[index as int].components@.len() > 0
            &&& name@ == planned_name(page.entries@[index as int].components@[0]@, views(occupied@))
            &&& !views(occupied@).contains(name@)
        }),
{
}

} // verus!

verus! {

/// The verification sent for entry `index`: the batch, the entry, its path
/// and the digest text it was announced with.
pub fn verified_reply(page: &ManifestPage, index: usize, blake3: String) -> (reply: EntryVerified)
    requires
        index < page.entries@.len(),
    ensures
        reply.batch_id == page.batch_id,
        reply.entry_id == page.entries@[index as int].entry_id,
        views(reply.relative_destination@) == views(page.entries@[index as int].components@),
        reply.blake3 == blake3,
{
    EntryVerified {
        batch_id: page.batch_id,
        entry_id: page.entries[index].entry_id,
        relative_destination: clone_strings(&page.entries[index].components),
        blake3,
    }
}

/// The receipt of a batch received completely.
pub fn completed_receipt(batch_id: [u8; 16]) -> (receipt: crate::protocol::BatchReceipt)
    ensures
        receipt.batch_id == batch_id,
        receipt.result@ == "completed"@,
{
    crate::protocol::BatchReceipt { batch_id, result: "completed".to_owned() }
}

} // verus!
