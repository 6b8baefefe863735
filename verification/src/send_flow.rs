//! The sending side of a batch transfer as a state machine: after the offer
//! and manifest are sent, the accept fixes where each file resumes; each
//! file is read from its start, only the bytes from the resume offset on
//! are sent, each chunk waits for its acknowledgement, and progress is
//! recorded only for acknowledged bytes.  The file's BLAKE3 digest is taken
//! over every byte read from it, and announced with its completion.
//! Reading the sources and the stream is the caller's; every decision is
//! here.
use crate::crypto::{blake3_digest, digest_array, StreamDigest};
use crate::protocol::{Checkpoint, ControlMessage, EntryComplete, EntryKind};
use crate::text::{hex_encode, hex_lower, string_from_chars};
use crate::sender::{
    accepted_checkpoints, ack_matches, chunk_start, receipt_matches, reported_offset, resume_offset, verified_matches,
    OutgoingEntry, SendRefusal,
};
use vstd::prelude::*;

verus! {

/// Where a send stands.
pub enum SendState {
    /// The offer and the manifest of `entries` were sent; waiting for the
    /// reply.
    Offered { batch_id: [u8; 16], entries: Vec<OutgoingEntry> },
    /// Reading file entry `index`: `read_to` bytes were read, the receiver
    /// holds `acked` of them durably.
    Sending {
        batch_id: [u8; 16],
        entries: Vec<OutgoingEntry>,
        checkpoints: Vec<Checkpoint>,
        index: usize,
        acked: u64,
        read_to: u64,
    },
    /// A chunk ending at `read_to` was sent; waiting for its
    /// acknowledgement.
    AwaitAck {
        batch_id: [u8; 16],
        entries: Vec<OutgoingEntry>,
        checkpoints: Vec<Checkpoint>,
        index: usize,
        acked: u64,
        read_to: u64,
    },
    /// The entry's completion with the digest `digest` was sent; waiting
    /// for its verification.
    AwaitVerified {
        batch_id: [u8; 16],
        entries: Vec<OutgoingEntry>,
        checkpoints: Vec<Checkpoint>,
        index: usize,
        digest: [u8; 32],
    },
    /// The batch's completion was sent; waiting for the receipt.
    AwaitReceipt { batch_id: [u8; 16] },
    /// The receiver confirmed the batch.
    Done,
    /// The send stopped.
    Stopped,
}

/// What happened since the last step.
pub enum SendEvent {
    /// A reply was read.
    Reply(ControlMessage),
    /// The next bytes of the file were read.
    Read { data: Vec<u8> },
    /// The file has no more bytes.
    EndOfSource,
    /// The stream or the source failed.
    Broken,
    /// The send was cancelled.
    Cancelled,
}

/// What the caller does next.
#[derive(Debug, Clone, PartialEq, Eq)]
pub enum SendAction {
    /// Read a reply.
    ReadReply,
    /// Read the next bytes of file entry `index` (from its start, the first
    /// time).
    ReadSource { index: usize },
    /// Send the bytes of `data` (the last read) from `skip` on, as the
    /// chunk of entry `index` at `offset`, then read its acknowledgement.
    SendChunk { index: usize, offset: u64, data: Vec<u8>, skip: u64 },
    /// Record that the receiver holds `acknowledged` bytes of entry
    /// `index`, then read on.
    Progress { index: usize, acknowledged: u64 },
    /// Send the completion of entry `index` with the BLAKE3 digest
    /// `digest` of its bytes (`entry_completion`), then read its
    /// verification.
    SendComplete { index: usize, digest: [u8; 32] },
    /// Send the batch's completion, then read the receipt.
    SendBatchComplete,
    /// The batch is delivered.
    Finished,
    /// Stop; `refusal` is the decision that stopped the send, `None` when
    /// the stream or the source failed.
    Fail { refusal: Option<SendRefusal>, cancelled: bool },
}

/// The first file entry at or after `from`; the number of entries when
/// there is none.
pub open spec fn next_outgoing_file(entries: Seq<OutgoingEntry>, from: int) -> int
    decreases entries.len() - from,
{
    if from < 0 || from >= entries.len() {
        entries.len() as int
    } else if entries[from].kind == EntryKind::File {
        from
    } else {
        next_outgoing_file(entries, from + 1)
    }
}

/// Stopping on `refusal`.
pub open spec fn stop_on(refusal: SendRefusal) -> (SendState, SendAction) {
    (SendState::Stopped, SendAction::Fail { refusal: Some(refusal), cancelled: false })
}

/// Going on with the first file entry at or after `from`, which starts at
/// the durable offset its checkpoint reports (when that is the one recorded
/// and within the file), or, when there is none, completing the batch.
pub open spec fn start_file(
    batch_id: [u8; 16],
    entries: Vec<OutgoingEntry>,
    checkpoints: Vec<Checkpoint>,
    from: int,
) -> (SendState, SendAction) {
    let i = next_outgoing_file(entries@, from);
    if i >= entries@.len() {
        (SendState::AwaitReceipt { batch_id }, SendAction::SendBatchComplete)
    } else {
        let entry = entries@[i];
        let o = reported_offset(checkpoints@, entry.entry_id@);
        if o != entry.resume_offset || o > entry.size {
            stop_on(SendRefusal::InvalidResume)
        } else {
            (
                SendState::Sending { batch_id, entries, checkpoints, index: i as usize, acked: o, read_to: 0 },
                SendAction::ReadSource { index: i as usize },
            )
        }
    }
}

/// Whether the entry a state is about lies in its batch.
pub open spec fn send_index_ok(s: SendState) -> bool {
    match s {
        SendState::Sending { entries, index, .. } => index < entries@.len(),
        SendState::AwaitAck { entries, index, .. } => index < entries@.len(),
        SendState::AwaitVerified { entries, index, .. } => index < entries@.len(),
        _ => true,
    }
}

/// What a step does, given the bytes `absorbed` the file's digest has
/// taken in.
pub open spec fn send_transition(s: SendState, e: SendEvent, absorbed: Seq<u8>) -> (SendState, SendAction) {
    match e {
        SendEvent::Broken => if s is Done || s is Stopped {
            (SendState::Stopped, SendAction::Finished)
        } else {
            (SendState::Stopped, SendAction::Fail { refusal: None, cancelled: false })
        },
        SendEvent::Cancelled => if s is Done || s is Stopped {
            (SendState::Stopped, SendAction::Finished)
        } else {
            (SendState::Stopped, SendAction::Fail { refusal: None, cancelled: true })
        },
        _ => if !send_index_ok(s) {
            (SendState::Stopped, SendAction::Fail { refusal: None, cancelled: false })
        } else {
            match s {
                SendState::Offered { batch_id, entries } => match e {
                    SendEvent::Reply(m) => match m {
                        ControlMessage::OfferAccept(a) => if a.batch_id@ == batch_id@ && a.available_space_ok {
                            start_file(batch_id, entries, a.checkpoints, 0)
                        } else {
                            stop_on(SendRefusal::NotAccepted)
                        },
                        _ => stop_on(SendRefusal::NotAccepted),
                    },
                    _ => (SendState::Stopped, SendAction::Fail { refusal: None, cancelled: false }),
                },
                SendState::Sending { batch_id, entries, checkpoints, index, acked, read_to } => match e {
                    SendEvent::Read { data } => if data@.len() == 0 || read_to + data@.len() > entries@[index as int].size {
                        stop_on(SendRefusal::SourceChanged)
                    } else if read_to + data@.len() <= acked {
                        (
                            SendState::Sending { batch_id, entries, checkpoints, index, acked, read_to: (read_to + data@.len()) as u64 },
                            SendAction::ReadSource { index },
                        )
                    } else {
                        let skip: u64 = if acked > read_to { (acked - read_to) as u64 } else { 0 };
                        (
                            SendState::AwaitAck { batch_id, entries, checkpoints, index, acked, read_to: (read_to + data@.len()) as u64 },
                            SendAction::SendChunk { index, offset: (read_to + skip) as u64, data, skip },
                        )
                    },
                    SendEvent::EndOfSource => if read_to == entries@[index as int].size && acked == read_to {
                        (
                            SendState::AwaitVerified { batch_id, entries, checkpoints, index, digest: digest_array(blake3_digest(absorbed)) },
                            SendAction::SendComplete { index, digest: digest_array(blake3_digest(absorbed)) },
                        )
                    } else {
                        stop_on(SendRefusal::SourceChanged)
                    },
                    _ => (SendState::Stopped, SendAction::Fail { refusal: None, cancelled: false }),
                },
                SendState::AwaitAck { batch_id, entries, checkpoints, index, acked, read_to } => match e {
                    SendEvent::Reply(m) => if (m matches ControlMessage::ChunkAck(a) && a.batch_id@ == batch_id@
                        && a.entry_id@ == entries@[index as int].entry_id@ && a.durable_offset == read_to) {
                        (
                            SendState::Sending { batch_id, entries, checkpoints, index, acked: read_to, read_to },
                            SendAction::Progress { index, acknowledged: read_to },
                        )
                    } else {
                        stop_on(SendRefusal::InvalidAck)
                    },
                    _ => (SendState::Stopped, SendAction::Fail { refusal: None, cancelled: false }),
                },
                SendState::AwaitVerified { batch_id, entries, checkpoints, index, digest } => match e {
                    SendEvent::Reply(m) => if (m matches ControlMessage::EntryVerified(v) && v.batch_id@ == batch_id@
                        && v.entry_id@ == entries@[index as int].entry_id@ && v.blake3@ == hex_lower(digest@)) {
                        start_file(batch_id, entries, checkpoints, index + 1)
                    } else {
                        stop_on(SendRefusal::NotVerified)
                    },
                    _ => (SendState::Stopped, SendAction::Fail { refusal: None, cancelled: false }),
                },
                SendState::AwaitReceipt { batch_id } => match e {
                    SendEvent::Reply(m) => if (m matches ControlMessage::BatchReceipt(r) && r.batch_id@ == batch_id@
                        && r.result@ == "completed"@) {
                        (SendState::Done, SendAction::Finished)
                    } else {
                        stop_on(SendRefusal::NoReceipt)
                    },
                    _ => (SendState::Stopped, SendAction::Fail { refusal: None, cancelled: false }),
                },
                SendState::Done | SendState::Stopped => (SendState::Stopped, SendAction::Finished),
            }
        },
    }
}

/// The bytes the file's digest has taken in after a step: none once a
/// reply moves the send on to a new file; each read's bytes as they are
/// read.
pub open spec fn send_absorbed_after(s: SendState, e: SendEvent, absorbed: Seq<u8>) -> Seq<u8> {
    let (n, a) = send_transition(s, e, absorbed);
    if !send_index_ok(s) {
        absorbed
    } else {
        match e {
            SendEvent::Reply(_) => if s is Offered || s is AwaitVerified {
                Seq::empty()
            } else {
                absorbed
            },
            SendEvent::Read { data } => if s is Sending && !(n is Stopped) {
                absorbed + data@
            } else {
                absorbed
            },
            _ => absorbed,
        }
    }
}

/// The lower-case hexadecimal text of `digest`.
fn digest_text(digest: &[u8; 32]) -> (text: String)
    ensures
        text@ == hex_lower(digest@),
{
    let hex = hex_encode(digest);
    string_from_chars(&hex)
}

/// The completion of `entry` in batch `batch_id`, announcing the BLAKE3
/// digest `digest` of its bytes as lower-case hexadecimal.
pub fn entry_completion(batch_id: [u8; 16], entry: &OutgoingEntry, digest: &[u8; 32]) -> (done: EntryComplete)
    ensures
        done.batch_id == batch_id,
        done.entry_id == entry.entry_id,
        done.total_size == entry.size,
        done.blake3@ == hex_lower(digest@),
{
    EntryComplete { batch_id, entry_id: entry.entry_id, total_size: entry.size, blake3: digest_text(digest) }
}

fn first_outgoing_file(entries: &Vec<OutgoingEntry>, from: usize) -> (i: usize)
    ensures
        i as int == next_outgoing_file(entries@, from as int),
{
    let mut i = from;
    if i >= entries.len() {
        return entries.len();
    }
    while i < entries.len()
        invariant
            from <= i <= entries@.len(),
            next_outgoing_file(entries@, i as int) == next_outgoing_file(entries@, from as int),
        decreases entries@.len() - i,
    {
        match entries[i].kind {
            EntryKind::File => return i,
            EntryKind::Directory => {},
        }
        i = i + 1;
    }
    i
}

fn start_next(batch_id: [u8; 16], entries: Vec<OutgoingEntry>, checkpoints: Vec<Checkpoint>, from: usize) -> (next: (
    SendState,
    SendAction,
))
    ensures
        next == start_file(batch_id, entries, checkpoints, from as int),
{
    let i = first_outgoing_file(&entries, from);
    if i >= entries.len() {
        return (SendState::AwaitReceipt { batch_id }, SendAction::SendBatchComplete);
    }
    match resume_offset(&checkpoints, &entries[i]) {
        Ok(o) => (
            SendState::Sending { batch_id, entries, checkpoints, index: i, acked: o, read_to: 0 },
            SendAction::ReadSource { index: i },
        ),
        Err(_) => (SendState::Stopped, SendAction::Fail { refusal: Some(SendRefusal::InvalidResume), cancelled: false }),
    }
}

fn send_index_valid(state: &SendState) -> (ok: bool)
    ensures
        ok == send_index_ok(*state),
{
    match state {
        SendState::Sending { entries, index, .. } => *index < entries.len(),
        SendState::AwaitAck { entries, index, .. } => *index < entries.len(),
        SendState::AwaitVerified { entries, index, .. } => *index < entries.len(),
        _ => true,
    }
}

/// One step of a send, as `send_transition` says; `digest` takes in the
/// file's bytes as `send_absorbed_after` says.
#[verifier::rlimit(60)]
pub fn send_step(state: SendState, event: SendEvent, digest: &mut StreamDigest) -> (next: (SendState, SendAction))
    ensures
        next == send_transition(state, event, old(digest)@),
        final(digest)@ == send_absorbed_after(state, event, old(digest)@),
        next.1 matches SendAction::SendComplete { digest: announced, .. } ==> announced@ == blake3_digest(old(digest)@),
{
    let over = match state {
        SendState::Done | SendState::Stopped => true,
        _ => false,
    };
    match event {
        SendEvent::Broken => {
            if over {
                return (SendState::Stopped, SendAction::Finished);
            }
            return (SendState::Stopped, SendAction::Fail { refusal: None, cancelled: false });
        },
        SendEvent::Cancelled => {
            if over {
                return (SendState::Stopped, SendAction::Finished);
            }
            return (SendState::Stopped, SendAction::Fail { refusal: None, cancelled: true });
        },
        _ => {},
    }
    if !send_index_valid(&state) {
        return (SendState::Stopped, SendAction::Fail { refusal: None, cancelled: false });
    }
    match state {
        SendState::Offered { batch_id, entries } => match event {
            SendEvent::Reply(m) => {
                *digest = StreamDigest::new();
                match accepted_checkpoints(m, batch_id) {
                    Ok(checkpoints) => start_next(batch_id, entries, checkpoints, 0),
                    Err(r) => (SendState::Stopped, SendAction::Fail { refusal: Some(r), cancelled: false }),
                }
            },
            _ => (SendState::Stopped, SendAction::Fail { refusal: None, cancelled: false }),
        },
        SendState::Sending { batch_id, entries, checkpoints, index, acked, read_to } => match event {
            SendEvent::Read { data } => {
                let size = entries[index].size;
                let count = data.len() as u64;
                if count == 0 || read_to > size || count > size - read_to {
                    return (SendState::Stopped, SendAction::Fail { refusal: Some(SendRefusal::SourceChanged), cancelled: false });
                }
                digest.absorb(data.as_slice());
                match chunk_start(read_to, count, acked) {
                    None => (
                        SendState::Sending { batch_id, entries, checkpoints, index, acked, read_to: read_to + count },
                        SendAction::ReadSource { index },
                    ),
                    Some(skip) => (
                        SendState::AwaitAck { batch_id, entries, checkpoints, index, acked, read_to: read_to + count },
                        SendAction::SendChunk { index, offset: read_to + skip, data, skip },
                    ),
                }
            },
            SendEvent::EndOfSource => if read_to == entries[index].size && acked == read_to {
                let d = digest.digest();
                proof {
                    reveal(digest_array);
                    let chosen = digest_array(blake3_digest(digest@));
                    assert(chosen@ == d@);
                    assert(chosen =~= d);
                }
                (SendState::AwaitVerified { batch_id, entries, checkpoints, index, digest: d }, SendAction::SendComplete { index, digest: d })
            } else {
                (SendState::Stopped, SendAction::Fail { refusal: Some(SendRefusal::SourceChanged), cancelled: false })
            },
            _ => (SendState::Stopped, SendAction::Fail { refusal: None, cancelled: false }),
        },
        SendState::AwaitAck { batch_id, entries, checkpoints, index, acked, read_to } => match event {
            SendEvent::Reply(m) => if ack_matches(&m, &batch_id, &entries[index].entry_id, read_to) {
                (
                    SendState::Sending { batch_id, entries, checkpoints, index, acked: read_to, read_to },
                    SendAction::Progress { index, acknowledged: read_to },
                )
            } else {
                (SendState::Stopped, SendAction::Fail { refusal: Some(SendRefusal::InvalidAck), cancelled: false })
            },
            _ => (SendState::Stopped, SendAction::Fail { refusal: None, cancelled: false }),
        },
        SendState::AwaitVerified { batch_id, entries, checkpoints, index, digest: announced } => match event {
            SendEvent::Reply(m) => {
                *digest = StreamDigest::new();
                let text = digest_text(&announced);
                if verified_matches(&m, &batch_id, &entries[index].entry_id, text.as_str()) {
                    let count = entries.len();
                    start_next(batch_id, entries, checkpoints, if index < count { index + 1 } else { count })
                } else {
                    (SendState::Stopped, SendAction::Fail { refusal: Some(SendRefusal::NotVerified), cancelled: false })
                }
            },
            _ => (SendState::Stopped, SendAction::Fail { refusal: None, cancelled: false }),
        },
        SendState::AwaitReceipt { batch_id } => match event {
            SendEvent::Reply(m) => if receipt_matches(&m, &batch_id) {
                (SendState::Done, SendAction::Finished)
            } else {
                (SendState::Stopped, SendAction::Fail { refusal: Some(SendRefusal::NoReceipt), cancelled: false })
            },
            _ => (SendState::Stopped, SendAction::Fail { refusal: None, cancelled: false }),
        },
        SendState::Done | SendState::Stopped => (SendState::Stopped, SendAction::Finished),
    }
}

proof fn lemma_next_outgoing_bounds(entries: Seq<OutgoingEntry>, from: int)
    ensures
        0 <= next_outgoing_file(entries, from) <= entries.len(),
    decreases entries.len() - from,
{
    if 0 <= from < entries.len() && entries[from].kind != EntryKind::File {
        lemma_next_outgoing_bounds(entries, from + 1);
    }
}

/// Progress is recorded only for bytes the receiver acknowledged: a
/// `Progress` step answers an acknowledgement of exactly the bytes sent so
/// far of the entry, and from then on the entry counts those bytes as held.
pub proof fn lemma_progress_only_on_ack(s: SendState, e: SendEvent, absorbed: Seq<u8>)
    ensures
        ({
            let (n, a) = send_transition(s, e, absorbed);
            a matches SendAction::Progress { acknowledged, .. } ==> {
                &&& s matches SendState::AwaitAck { batch_id, entries, index, read_to, .. }
                &&& acknowledged == read_to
                &&& e matches SendEvent::Reply(m) && m matches ControlMessage::ChunkAck(ack) && ack.batch_id@ == batch_id@
                    && ack.entry_id@ == entries@[index as int].entry_id@ && ack.durable_offset == acknowledged
                &&& n matches SendState::Sending { acked, .. } && acked == acknowledged
            }
        }),
{
}

/// A file starts at the durable offset the accept reports for it, never
/// elsewhere, and its chunks start at or after the offset the receiver
/// holds.
pub proof fn lemma_sends_start_at_resume(s: SendState, e: SendEvent, absorbed: Seq<u8>)
    ensures
        ({
            let (n, a) = send_transition(s, e, absorbed);
            &&& (s is Offered || s is AwaitVerified) ==> (n matches SendState::Sending { checkpoints, entries, index, acked, .. } ==> acked
                == reported_offset(checkpoints@, entries@[index as int].entry_id@))
            &&& a matches SendAction::SendChunk { offset, .. } ==> s matches SendState::Sending { acked, .. } && offset
                >= acked
        }),
{
    match s {
        SendState::Offered { batch_id, entries } => {
            lemma_next_outgoing_bounds(entries@, 0);
            if let SendEvent::Reply(ControlMessage::OfferAccept(acc)) = e {
                let i = next_outgoing_file(entries@, 0);
                if i < entries@.len() {
                    assert(entries@.len() == entries.len());
                    assert((i as usize) as int == i);
                }
            }
        },
        SendState::AwaitVerified { batch_id, entries, checkpoints, index, .. } => {
            lemma_next_outgoing_bounds(entries@, index + 1);
            let i = next_outgoing_file(entries@, index + 1);
            if i < entries@.len() {
                assert(entries@.len() == entries.len());
                assert((i as usize) as int == i);
            }
        },
        _ => {},
    }
}

/// The file's digest covers exactly the bytes read from it so far.
pub open spec fn send_digest_tracks(s: SendState, absorbed: Seq<u8>) -> bool {
    match s {
        SendState::Sending { read_to, .. } => absorbed.len() == read_to,
        SendState::AwaitAck { read_to, .. } => absorbed.len() == read_to,
        _ => true,
    }
}

/// The digest a completion announces is the BLAKE3 digest of every byte
/// read from the file, from its start, and what is sent of a read is part
/// of the bytes hashed: a file starts with a fresh digest, each read is
/// hashed in order, a chunk is the tail of the last read from the resume
/// offset on, and the completion comes once the whole file is read and its
/// digest is that of exactly the file's size in bytes.
pub proof fn lemma_announced_digest_covers_source(s: SendState, e: SendEvent, absorbed: Seq<u8>)
    requires
        send_digest_tracks(s, absorbed),
    ensures
        ({
            let (n, a) = send_transition(s, e, absorbed);
            let after = send_absorbed_after(s, e, absorbed);
            &&& send_digest_tracks(n, after)
            &&& n matches SendState::Sending { read_to, .. } ==> (read_to == 0 ==> (s is Offered || s is AwaitVerified) ==> after
                == Seq::<u8>::empty())
            &&& a matches SendAction::SendChunk { offset, data, skip, .. } ==> {
                &&& after == absorbed + data@
                &&& skip < data@.len()
                &&& offset == absorbed.len() + skip
            }
            &&& a matches SendAction::SendComplete { index, digest } ==> {
                &&& s matches SendState::Sending { entries, read_to, .. } && read_to == entries@[index as int].size
                    && absorbed.len() == entries@[index as int].size
                &&& forall|x: [u8; 32]| #[trigger] x@ == blake3_digest(absorbed) ==> digest == x
            }
        }),
{
    let (n, a) = send_transition(s, e, absorbed);
    if a is SendComplete {
        reveal(digest_array);
        let d = blake3_digest(absorbed);
        assert forall|x: [u8; 32]| #[trigger] x@ == d implies digest_array(d) == x by {
            assert(digest_array(d)@ == d);
            assert(digest_array(d) =~= x);
        }
    }
    match s {
        SendState::Offered { entries, .. } => {
            lemma_next_outgoing_bounds(entries@, 0);
        },
        SendState::AwaitVerified { entries, index, .. } => {
            lemma_next_outgoing_bounds(entries@, index + 1);
        },
        _ => {},
    }
}

/// The file a sending state is about and the bytes the receiver holds of it.
pub open spec fn held_of(s: SendState) -> Option<(usize, u64)> {
    match s {
        SendState::Sending { index, acked, .. } => Some((index, acked)),
        SendState::AwaitAck { index, acked, .. } => Some((index, acked)),
        _ => None,
    }
}

/// The bytes a file counts as held by the receiver change only by a
/// progress report of exactly the new count, and a file's completion is
/// announced only once the receiver holds all of its bytes; so the last
/// progress reported for a file, if any, is its size.
pub proof fn lemma_completion_follows_full_acknowledgement(s: SendState, e: SendEvent, absorbed: Seq<u8>)
    ensures
        ({
            let (n, a) = send_transition(s, e, absorbed);
            &&& a matches SendAction::SendComplete { index, .. } ==> (s matches SendState::Sending { entries, acked, .. }
                && acked == entries@[index as int].size)
            &&& (held_of(s) matches Some(p) && (held_of(n) matches Some(q) && p.0 == q.0 && p.1 != q.1)) ==> (a
                matches SendAction::Progress { acknowledged, .. } && acknowledged == held_of(n)->Some_0.1)
        }),
{
}

proof fn lemma_next_outgoing_file(entries: Seq<OutgoingEntry>, from: int)
    requires
        0 <= from,
    ensures
        next_outgoing_file(entries, from) <= entries.len(),
        from <= entries.len() ==> from <= next_outgoing_file(entries, from),
        next_outgoing_file(entries, from) < entries.len() ==> entries[next_outgoing_file(entries, from)].kind == EntryKind::File,
        forall|j: int| from <= j < next_outgoing_file(entries, from) ==> (#[trigger] entries[j]).kind != EntryKind::File,
    decreases entries.len() - from,
{
    if from < entries.len() && entries[from].kind != EntryKind::File {
        lemma_next_outgoing_file(entries, from + 1);
    }
}

/// The batch's completion is announced only once no file is left to send:
/// after the accept when the batch has no file, or after the verification
/// of a file when no file follows it.  After the accept the first file is
/// read first, and after a verification the next file read is the first
/// file that follows.
pub proof fn lemma_batch_complete_after_every_file(s: SendState, e: SendEvent, absorbed: Seq<u8>)
    ensures
        ({
            let (n, a) = send_transition(s, e, absorbed);
            &&& a is SendBatchComplete ==> {
                ||| s matches SendState::AwaitVerified { entries, index, .. } && forall|j: int|
                    index < j < entries@.len() ==> (#[trigger] entries@[j]).kind != EntryKind::File
                ||| s matches SendState::Offered { entries, .. } && forall|j: int|
                    0 <= j < entries@.len() ==> (#[trigger] entries@[j]).kind != EntryKind::File
            }
            &&& (s is AwaitVerified && a is ReadSource) ==> (n matches SendState::Sending { entries, index: k, .. }
                && s->AwaitVerified_index < k < entries@.len() && entries@[k as int].kind == EntryKind::File
                && forall|j: int| s->AwaitVerified_index < j < k ==> (#[trigger] entries@[j]).kind != EntryKind::File)
            &&& (s is Offered && a is ReadSource) ==> (n matches SendState::Sending { entries, index: k, .. }
                && k < entries@.len() && entries@[k as int].kind == EntryKind::File
                && forall|j: int| 0 <= j < k ==> (#[trigger] entries@[j]).kind != EntryKind::File)
        }),
{
    match s {
        SendState::Offered { entries, .. } => {
            lemma_next_outgoing_file(entries@, 0);
            let i = next_outgoing_file(entries@, 0);
            if i < entries@.len() {
                assert(entries@.len() == entries.len());
                assert((i as usize) as int == i);
            }
        },
        SendState::AwaitVerified { entries, index, .. } => {
            lemma_next_outgoing_file(entries@, index + 1);
            let i = next_outgoing_file(entries@, index + 1);
            if i < entries@.len() {
                assert(entries@.len() == entries.len());
                assert((i as usize) as int == i);
            }
        },
        _ => {},
    }
}

} // verus!
