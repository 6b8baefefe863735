//! Decisions of the sending side of a batch transfer: whether a queued
//! manifest still describes its sources, the offer and manifest it is sent
//! as, where each file resumes, which bytes of a read go into a chunk, and
//! whether each reply from the receiver is the one expected.  Reading the
//! sources and the stream is the caller's.
use crate::bytes::{bytes_equal, id_key, id_number, lemma_id_number_injective};
use crate::protocol::{
    Checkpoint, ControlMessage, EntryKind, ManifestEntry, ManifestPage, OfferStart, TopLevelItem,
};
use crate::engine::{
    earlier_index, entry_refusal, file_total, first_refusal, manifest_check, manifest_header_ok, placement_refusal,
    top_indices, tops_match, ManifestRefusal,
};
use crate::receiver::{checkpoint_views, resume_points};
use crate::text::{i64_text, parse_i64, str_equal};
use crate::transfer::{clone_strings, receiver_path_ok, validate_receiver_components, views, MAX_ENTRIES};
use std::collections::HashMap;
use vstd::prelude::*;

verus! {

broadcast use vstd::std_specs::hash::group_hash_axioms;

/// One entry of a queued batch: receiver-relative components, never a local
/// path, and the offset the receiver last acknowledged.
#[derive(Debug, Clone, PartialEq, Eq)]
pub struct OutgoingEntry {
    pub entry_id: [u8; 16],
    pub parent_entry_id: Option<[u8; 16]>,
    pub kind: EntryKind,
    pub components: Vec<String>,
    pub size: u64,
    pub mtime: Option<String>,
    pub resume_offset: u64,
}

/// What the file system says of an entry's source now: its kind, its
/// length, and its modification time in whole seconds since the epoch.
#[derive(Debug, Clone, Copy, PartialEq, Eq)]
pub struct SourceFacts {
    pub is_file: bool,
    pub is_dir: bool,
    pub len: u64,
    pub mtime_secs: Option<i64>,
}

/// Why the sender stops.
#[derive(Debug, Clone, Copy, PartialEq, Eq, Structural)]
pub enum SendRefusal {
    InvalidAddress,
    InvalidBatch,
    UnsafePath,
    InvalidIdentity,
    ParentOrder,
    SourceUnavailable,
    SourceChanged,
    BatchTooLarge,
    InvalidDirectory,
    NoRoots,
    NotAccepted,
    InvalidResume,
    InvalidAck,
    NotVerified,
    NoReceipt,
}

/// The text of each `SendRefusal`.
pub open spec fn send_refusal_text(value: SendRefusal) -> &'static str {
    match value {
        SendRefusal::InvalidAddress => "manual endpoints must use a loopback or private address",
        SendRefusal::InvalidBatch => "invalid batch manifest",
        SendRefusal::UnsafePath => "unsafe manifest path",
        SendRefusal::InvalidIdentity => "invalid manifest identity",
        SendRefusal::ParentOrder => "manifest parent order",
        SendRefusal::SourceUnavailable => "source unavailable",
        SendRefusal::SourceChanged => "source changed",
        SendRefusal::BatchTooLarge => "batch too large",
        SendRefusal::InvalidDirectory => "invalid directory entry",
        SendRefusal::NoRoots => "manifest has no roots",
        SendRefusal::NotAccepted => "offer was not accepted",
        SendRefusal::InvalidResume => "invalid resume checkpoint",
        SendRefusal::InvalidAck => "invalid chunk acknowledgement",
        SendRefusal::NotVerified => "receiver did not verify entry",
        SendRefusal::NoReceipt => "receiver did not receipt batch",
    }
}

impl SendRefusal {
    /// The refusal's message text.
    pub fn message(&self) -> (text: &'static str)
        ensures
            text == send_refusal_text(*self),
    {
        match self {
            SendRefusal::InvalidAddress => "manual endpoints must use a loopback or private address",
            SendRefusal::InvalidBatch => "invalid batch manifest",
            SendRefusal::UnsafePath => "unsafe manifest path",
            SendRefusal::InvalidIdentity => "invalid manifest identity",
            SendRefusal::ParentOrder => "manifest parent order",
            SendRefusal::SourceUnavailable => "source unavailable",
            SendRefusal::SourceChanged => "source changed",
            SendRefusal::BatchTooLarge => "batch too large",
            SendRefusal::InvalidDirectory => "invalid directory entry",
            SendRefusal::NoRoots => "manifest has no roots",
            SendRefusal::NotAccepted => "offer was not accepted",
            SendRefusal::InvalidResume => "invalid resume checkpoint",
            SendRefusal::InvalidAck => "invalid chunk acknowledgement",
            SendRefusal::NotVerified => "receiver did not verify entry",
            SendRefusal::NoReceipt => "receiver did not receipt batch",
        }
    }
}

/// Whether one of the first `n` entries has the ID `id`.
pub open spec fn id_seen(entries: Seq<OutgoingEntry>, n: int, id: Seq<u8>) -> bool {
    exists|j: int| 0 <= j < n && #[trigger] entries[j].entry_id@ == id
}

/// A recorded modification time holds when it does not parse as seconds,
/// or when the source still has exactly it.
pub open spec fn mtime_holds(recorded: Option<String>, facts: SourceFacts) -> bool {
    match recorded {
        Some(t) => match i64_text(t@) {
            Some(expected) => facts.mtime_secs == Some(expected),
            None => true,
        },
        None => true,
    }
}

/// What entry `i` adds to a batch whose files so far hold `total` bytes,
/// checked in the sender's order: its path, its ID, its parent, then its
/// source.
pub open spec fn entry_scan(entries: Seq<OutgoingEntry>, facts: Seq<Option<SourceFacts>>, i: int, total: int) -> Result<int, SendRefusal> {
    let e = entries[i];
    let cs = views(e.components@);
    if !receiver_path_ok(cs) {
        Err(SendRefusal::UnsafePath)
    } else if id_seen(entries, i, e.entry_id@) || (cs.len() == 1 && e.parent_entry_id is Some) {
        Err(SendRefusal::InvalidIdentity)
    } else if e.parent_entry_id matches Some(p) && !id_seen(entries, i + 1, p@) {
        Err(SendRefusal::ParentOrder)
    } else {
        match facts[i] {
            None => Err(SendRefusal::SourceUnavailable),
            Some(f) => if e.kind == EntryKind::File {
                if !f.is_file || f.len != e.size || !mtime_holds(e.mtime, f) {
                    Err(SendRefusal::SourceChanged)
                } else if total + e.size > u64::MAX {
                    Err(SendRefusal::BatchTooLarge)
                } else {
                    Ok(total + e.size)
                }
            } else {
                if !f.is_dir || e.size != 0 || !mtime_holds(e.mtime, f) {
                    Err(SendRefusal::InvalidDirectory)
                } else {
                    Ok(total)
                }
            },
        }
    }
}

/// The file bytes of the first `n` entries, or the first refusal.
pub open spec fn scan(entries: Seq<OutgoingEntry>, facts: Seq<Option<SourceFacts>>, n: int) -> Result<int, SendRefusal>
    decreases n,
{
    if n <= 0 {
        Ok(0)
    } else {
        match scan(entries, facts, n - 1) {
            Err(r) => Err(r),
            Ok(t) => entry_scan(entries, facts, n - 1, t),
        }
    }
}

/// What checking a queued batch against its sources gives: the bytes of its
/// files, or why it cannot be sent.
pub open spec fn outgoing_check(entries: Seq<OutgoingEntry>, facts: Seq<Option<SourceFacts>>) -> Result<u64, SendRefusal> {
    if entries.len() == 0 || entries.len() > MAX_ENTRIES {
        Err(SendRefusal::InvalidBatch)
    } else {
        match scan(entries, facts, entries.len() as int) {
            Err(r) => Err(r),
            Ok(t) => if forall|j: int| 0 <= j < entries.len() ==> #[trigger] entries[j].parent_entry_id is Some {
                Err(SendRefusal::NoRoots)
            } else {
                Ok(t as u64)
            },
        }
    }
}

fn mtime_matches(recorded: &Option<String>, facts: &SourceFacts) -> (holds: bool)
    ensures
        holds == mtime_holds(*recorded, *facts),
{
    match recorded {
        Some(t) => match parse_i64(t.as_str()) {
            Some(expected) => match facts.mtime_secs {
                Some(m) => m == expected,
                None => false,
            },
            None => true,
        },
        None => true,
    }
}

proof fn lemma_scan_stays(entries: Seq<OutgoingEntry>, facts: Seq<Option<SourceFacts>>, m: int, n: int)
    requires
        0 <= m <= n,
        scan(entries, facts, m) is Err,
    ensures
        scan(entries, facts, n) == scan(entries, facts, m),
    decreases n - m,
{
    if n > m {
        lemma_scan_stays(entries, facts, m, n - 1);
    }
}

/// Checks a queued batch against what the file system now says of each
/// entry's source (`None` when the source cannot be examined), before
/// anything is sent.  Returns the bytes of its files.
pub fn check_outgoing(entries: &Vec<OutgoingEntry>, facts: &Vec<Option<SourceFacts>>) -> (result: Result<u64, SendRefusal>)
    requires
        facts@.len() == entries@.len(),
    ensures
        result == outgoing_check(entries@, facts@),
{
    let n = entries.len();
    if n == 0 || n > MAX_ENTRIES {
        return Err(SendRefusal::InvalidBatch);
    }
    let mut seen: HashMap<u128, usize> = HashMap::new();
    let mut total: u64 = 0;
    let mut has_root = false;
    let mut i: usize = 0;
    while i < n
        invariant
            n == entries@.len(),
            facts@.len() == n,
            0 < n <= MAX_ENTRIES,
            i <= n,
            scan(entries@, facts@, i as int) == Ok::<int, SendRefusal>(total as int),
            has_root == exists|j: int| 0 <= j < i && #[trigger] entries@[j].parent_entry_id is None,
            forall|j: int| 0 <= j < i ==> #[trigger] seen@.contains_key(id_number(entries@[j].entry_id@) as u128),
            forall|key: u128| #[trigger] seen@.contains_key(key) ==> seen@[key] < i
                && id_number(entries@[seen@[key] as int].entry_id@) == key,
        decreases n - i,
    {
        let e = &entries[i];
        let ghost t = total as int;
        proof {
            assert(scan(entries@, facts@, i + 1) == entry_scan(entries@, facts@, i as int, t));
        }
        let failure: Option<SendRefusal> = if validate_receiver_components(e.components.as_slice()).is_err() {
            Some(SendRefusal::UnsafePath)
        } else {
            let key = id_key(&e.entry_id);
            let duplicate = seen.contains_key(&key);
            proof {
                if duplicate {
                    let j = seen@[key] as int;
                    lemma_id_number_injective(entries@[j].entry_id@, e.entry_id@);
                    assert(id_seen(entries@, i as int, e.entry_id@));
                } else {
                    assert forall|j: int| 0 <= j < i implies entries@[j].entry_id@ != e.entry_id@ by {
                        assert(seen@.contains_key(id_number(entries@[j].entry_id@) as u128));
                    }
                }
            }
            if duplicate || (e.components.len() == 1 && e.parent_entry_id.is_some()) {
                Some(SendRefusal::InvalidIdentity)
            } else {
                seen.insert(key, i);
                proof {
                    assert(id_number(e.entry_id@) as u128 == key);
                    assert forall|j: int| 0 <= j < i implies id_number(entries@[j].entry_id@) as u128 != key by {
                        if id_number(entries@[j].entry_id@) as u128 == key {
                            lemma_id_number_injective(entries@[j].entry_id@, e.entry_id@);
                        }
                    }
                }
                let parent_missing = match &e.parent_entry_id {
                    Some(p) => {
                        let pk = id_key(p);
                        let found = seen.contains_key(&pk);
                        proof {
                            if found {
                                let j = seen@[pk] as int;
                                lemma_id_number_injective(entries@[j].entry_id@, p@);
                                assert(id_seen(entries@, i + 1, p@));
                            } else {
                                assert forall|j: int| 0 <= j < i + 1 implies entries@[j].entry_id@ != p@ by {
                                    assert(seen@.contains_key(id_number(entries@[j].entry_id@) as u128));
                                }
                            }
                        }
                        !found
                    },
                    None => false,
                };
                if parent_missing {
                    Some(SendRefusal::ParentOrder)
                } else {
                    match &facts[i] {
                        None => Some(SendRefusal::SourceUnavailable),
                        Some(f) => if e.kind == EntryKind::File {
                            if !f.is_file || f.len != e.size || !mtime_matches(&e.mtime, f) {
                                Some(SendRefusal::SourceChanged)
                            } else {
                                match total.checked_add(e.size) {
                                    Some(next) => {
                                        total = next;
                                        None
                                    },
                                    None => Some(SendRefusal::BatchTooLarge),
                                }
                            }
                        } else if !f.is_dir || e.size != 0 || !mtime_matches(&e.mtime, f) {
                            Some(SendRefusal::InvalidDirectory)
                        } else {
                            None
                        },
                    }
                }
            }
        };
        match failure {
            Some(r) => {
                proof {
                    assert(scan(entries@, facts@, i + 1) == Err::<int, SendRefusal>(r));
                    lemma_scan_stays(entries@, facts@, i + 1, n as int);
                }
                return Err(r);
            },
            None => {},
        }
        if e.parent_entry_id.is_none() {
            has_root = true;
        }
        i = i + 1;
    }
    if !has_root {
        return Err(SendRefusal::NoRoots);
    }
    Ok(total)
}

/// The offered items of the first `n` entries: those without a parent, in
/// order, by ID, first component, kind and size.
pub open spec fn top_items(entries: Seq<OutgoingEntry>, n: int) -> Seq<(Seq<u8>, Seq<char>, EntryKind, u64)>
    decreases n,
{
    if n <= 0 {
        Seq::empty()
    } else {
        let rest = top_items(entries, n - 1);
        let e = entries[n - 1];
        if e.parent_entry_id is None {
            rest.push((e.entry_id@, e.components@[0]@, e.kind, e.size))
        } else {
            rest
        }
    }
}

pub open spec fn item_views(items: Seq<TopLevelItem>) -> Seq<(Seq<u8>, Seq<char>, EntryKind, u64)> {
    items.map_values(|t: TopLevelItem| (t.entry_id@, t.name@, t.kind, t.size))
}

/// The manifest entries say of each entry what the queued batch says: its
/// ID, parent, kind, path and size, in the same order.
pub open spec fn mirrors(entries: Seq<OutgoingEntry>, manifest: Seq<ManifestEntry>) -> bool {
    &&& manifest.len() == entries.len()
    &&& forall|j: int|
        0 <= j < entries.len() ==> {
            let m = #[trigger] manifest[j];
            let e = entries[j];
            &&& m.entry_id == e.entry_id
            &&& m.parent_entry_id == e.parent_entry_id
            &&& m.kind == e.kind
            &&& views(m.components@) == views(e.components@)
            &&& m.size == e.size
        }
}

/// `offer` and `page` are what a batch of `entries` with `total` file
/// bytes is sent as under `batch_id`: the offer lists the entries without
/// a parent, in order, and the single final page mirrors every entry.
pub open spec fn offered_as(entries: Seq<OutgoingEntry>, total: u64, batch_id: [u8; 16], offer: OfferStart, page: ManifestPage) -> bool {
    &&& offer.batch_id == batch_id
    &&& offer.total_bytes == total
    &&& offer.total_entries == entries.len()
    &&& page.batch_id == batch_id
    &&& page.page == 0
    &&& page.final_page
    &&& mirrors(entries, page.entries@)
    &&& item_views(offer.items@) == top_items(entries, entries.len() as int)
}

/// The offer and the single manifest page a checked batch is sent as: the
/// entries without a parent are the offered items, in order.
pub fn offer_messages(batch_id: [u8; 16], entries: &Vec<OutgoingEntry>, total: u64) -> (out: (OfferStart, ManifestPage))
    requires
        entries@.len() <= MAX_ENTRIES,
        forall|j: int| 0 <= j < entries@.len() ==> views(#[trigger] entries@[j].components@).len() >= 1,
    ensures
        offered_as(entries@, total, batch_id, out.0, out.1),
{
    let mut items: Vec<TopLevelItem> = Vec::new();
    let mut manifest: Vec<ManifestEntry> = Vec::new();
    let mut i: usize = 0;
    while i < entries.len()
        invariant
            i <= entries@.len(),
            entries@.len() <= MAX_ENTRIES,
            forall|j: int| 0 <= j < entries@.len() ==> views(#[trigger] entries@[j].components@).len() >= 1,
            manifest@.len() == i,
            item_views(items@) == top_items(entries@, i as int),
            forall|j: int| 0 <= j < i ==> {
                let m = #[trigger] manifest@[j];
                let e = entries@[j];
                &&& m.entry_id == e.entry_id
                &&& m.parent_entry_id == e.parent_entry_id
                &&& m.kind == e.kind
                &&& views(m.components@) == views(e.components@)
                &&& m.size == e.size
            },
        decreases entries@.len() - i,
    {
        let e = &entries[i];
        if e.parent_entry_id.is_none() {
            assert(views(e.components@).len() >= 1);
            let ghost old_items = item_views(items@);
            items.push(TopLevelItem { entry_id: e.entry_id, name: e.components[0].clone(), kind: e.kind, size: e.size });
            assert(item_views(items@) =~= old_items.push((e.entry_id@, e.components@[0]@, e.kind, e.size)));
        }
        manifest.push(ManifestEntry {
            entry_id: e.entry_id,
            parent_entry_id: e.parent_entry_id,
            kind: e.kind,
            components: clone_strings(&e.components),
            size: e.size,
            mtime: match &e.mtime {
                Some(t) => Some(t.clone()),
                None => None,
            },
        });
        i = i + 1;
    }
    let offer = OfferStart {
        batch_id,
        items,
        total_bytes: total,
        total_entries: entries.len() as u64,
        created_at: "durable-batch".to_owned(),
    };
    let page = ManifestPage { batch_id, page: 0, entries: manifest, final_page: true };
    (offer, page)
}

/// The checkpoints of an acceptance of batch `batch_id` that reports
/// enough space; anything else means the offer was not accepted.
pub fn accepted_checkpoints(message: ControlMessage, batch_id: [u8; 16]) -> (result: Result<Vec<Checkpoint>, SendRefusal>)
    ensures
        match message {
            ControlMessage::OfferAccept(a) => if a.batch_id@ == batch_id@ && a.available_space_ok {
                result == Ok::<Vec<Checkpoint>, SendRefusal>(a.checkpoints)
            } else {
                result == Err::<Vec<Checkpoint>, SendRefusal>(SendRefusal::NotAccepted)
            },
            _ => result == Err::<Vec<Checkpoint>, SendRefusal>(SendRefusal::NotAccepted),
        },
{
    match message {
        ControlMessage::OfferAccept(a) => if bytes_equal(&a.batch_id, &batch_id) && a.available_space_ok {
            Ok(a.checkpoints)
        } else {
            Err(SendRefusal::NotAccepted)
        },
        _ => Err(SendRefusal::NotAccepted),
    }
}

/// The durable offset the receiver reported for an entry: that of its last
/// checkpoint, or 0.
pub open spec fn reported_offset(checkpoints: Seq<Checkpoint>, entry_id: Seq<u8>) -> u64
    decreases checkpoints.len(),
{
    if checkpoints.len() == 0 {
        0
    } else if checkpoints.last().entry_id@ == entry_id {
        checkpoints.last().durable_offset
    } else {
        reported_offset(checkpoints.drop_last(), entry_id)
    }
}

/// Where an entry resumes: the receiver's durable offset, which must be
/// the one the sender recorded and within the file.
pub fn resume_offset(checkpoints: &Vec<Checkpoint>, entry: &OutgoingEntry) -> (result: Result<u64, SendRefusal>)
    ensures
        ({
            let o = reported_offset(checkpoints@, entry.entry_id@);
            if o != entry.resume_offset || o > entry.size {
                result == Err::<u64, SendRefusal>(SendRefusal::InvalidResume)
            } else {
                result == Ok::<u64, SendRefusal>(o)
            }
        }),
{
    let mut i: usize = checkpoints.len();
    assert(checkpoints@.subrange(0, i as int) =~= checkpoints@);
    let mut offset: u64 = 0;
    while i > 0
        invariant_except_break
            i <= checkpoints@.len(),
            offset == 0,
            reported_offset(checkpoints@, entry.entry_id@) == reported_offset(
                checkpoints@.subrange(0, i as int),
                entry.entry_id@,
            ),
        ensures
            offset == reported_offset(checkpoints@, entry.entry_id@),
        decreases i,
    {
        let ghost prefix = checkpoints@.subrange(0, i as int);
        assert(prefix.drop_last() =~= checkpoints@.subrange(0, i - 1));
        assert(prefix.last() == checkpoints@[i - 1]);
        if bytes_equal(&checkpoints[i - 1].entry_id, &entry.entry_id) {
            offset = checkpoints[i - 1].durable_offset;
            break;
        }
        i = i - 1;
    }
    if offset != entry.resume_offset || offset > entry.size {
        return Err(SendRefusal::InvalidResume);
    }
    Ok(offset)
}

/// Of a read of `count` bytes at `position` of a file being resumed at
/// `offset`, where the bytes to send start: `None` when the whole read lies
/// before the offset.
pub fn chunk_start(position: u64, count: u64, offset: u64) -> (start: Option<u64>)
    requires
        count > 0,
        position + count <= u64::MAX,
    ensures
        position + count <= offset ==> start is None,
        position + count > offset ==> start == Some(if offset > position {
            (offset - position) as u64
        } else {
            0u64
        }),
        start matches Some(s) ==> s < count,
{
    if position + count <= offset {
        None
    } else if offset > position {
        Some(offset - position)
    } else {
        Some(0)
    }
}

/// Whether a reply acknowledges exactly the bytes up to `offset` of the
/// entry.
pub fn ack_matches(message: &ControlMessage, batch_id: &[u8; 16], entry_id: &[u8; 16], offset: u64) -> (matched: bool)
    ensures
        matched == (message matches ControlMessage::ChunkAck(a) && a.batch_id@ == batch_id@ && a.entry_id@
            == entry_id@ && a.durable_offset == offset),
{
    match message {
        ControlMessage::ChunkAck(a) => bytes_equal(&a.batch_id, batch_id) && bytes_equal(&a.entry_id, entry_id)
            && a.durable_offset == offset,
        _ => false,
    }
}

/// Whether a reply verifies the entry with the digest the sender computed.
pub fn verified_matches(message: &ControlMessage, batch_id: &[u8; 16], entry_id: &[u8; 16], hash: &str) -> (matched: bool)
    ensures
        matched == (message matches ControlMessage::EntryVerified(v) && v.batch_id@ == batch_id@ && v.entry_id@
            == entry_id@ && v.blake3@ == hash@),
{
    match message {
        ControlMessage::EntryVerified(v) => bytes_equal(&v.batch_id, batch_id) && bytes_equal(&v.entry_id, entry_id)
            && str_equal(v.blake3.as_str(), hash),
        _ => false,
    }
}

/// Whether a reply is the receipt of a completed batch.
pub fn receipt_matches(message: &ControlMessage, batch_id: &[u8; 16]) -> (matched: bool)
    ensures
        matched == (message matches ControlMessage::BatchReceipt(r) && r.batch_id@ == batch_id@ && r.result@
            == "completed"@),
{
    match message {
        ControlMessage::BatchReceipt(r) => bytes_equal(&r.batch_id, batch_id) && str_equal(r.result.as_str(), "completed"),
        _ => false,
    }
}


/// Every entry with a parent sits under an earlier directory whose path its
/// own extends by one component, and every entry without one is a single
/// component: the shape of a tree built from local sources.
pub open spec fn tree_consistent(entries: Seq<OutgoingEntry>) -> bool {
    forall|i: int|
        0 <= i < entries.len() ==> {
            let e = #[trigger] entries[i];
            let cs = views(e.components@);
            match e.parent_entry_id {
                None => cs.len() == 1,
                Some(p) => forall|j: int|
                    0 <= j < entries.len() && (#[trigger] entries[j]).entry_id@ == p@ ==> {
                        let ps = views(entries[j].components@);
                        &&& j < i
                        &&& entries[j].kind == EntryKind::Directory
                        &&& cs.len() == ps.len() + 1
                        &&& cs.subrange(0, cs.len() - 1) == ps
                    },
            }
        }
}

proof fn lemma_earlier_index_of(entries: Seq<ManifestEntry>, k: int, id: Seq<u8>)
    requires
        0 <= k <= entries.len(),
    ensures
        match earlier_index(entries, k, id) {
            Some(j) => 0 <= j < k && entries[j].entry_id@ == id,
            None => forall|j: int| 0 <= j < k ==> (#[trigger] entries[j]).entry_id@ != id,
        },
    decreases k,
{
    if k > 0 {
        lemma_earlier_index_of(entries, k - 1, id);
    }
}

proof fn lemma_scan_prefix_ok(entries: Seq<OutgoingEntry>, facts: Seq<Option<SourceFacts>>, m: int, n: int)
    requires
        0 <= m <= n,
        scan(entries, facts, n) is Ok,
    ensures
        scan(entries, facts, m) is Ok,
{
    if scan(entries, facts, m) is Err {
        lemma_scan_stays(entries, facts, m, n);
    }
}

proof fn lemma_scan_total_fits(entries: Seq<OutgoingEntry>, facts: Seq<Option<SourceFacts>>, n: int)
    requires
        scan(entries, facts, n) is Ok,
    ensures
        0 <= scan(entries, facts, n)->Ok_0 <= u64::MAX,
    decreases n,
{
    if n > 0 {
        lemma_scan_total_fits(entries, facts, n - 1);
    }
}

/// Entries the sender accepts pass the receiver's check one by one, and
/// their file bytes add up the same.
proof fn lemma_scan_passes_receiver(
    entries: Seq<OutgoingEntry>,
    facts: Seq<Option<SourceFacts>>,
    manifest: Seq<ManifestEntry>,
    n: int,
)
    requires
        0 <= n <= entries.len(),
        mirrors(entries, manifest),
        tree_consistent(entries),
        scan(entries, facts, n) is Ok,
    ensures
        first_refusal(manifest, n) is None,
        file_total(manifest, n) == scan(entries, facts, n)->Ok_0,
    decreases n,
{
    if n > 0 {
        let i = n - 1;
        lemma_scan_prefix_ok(entries, facts, i, n);
        lemma_scan_passes_receiver(entries, facts, manifest, i);
        let t = scan(entries, facts, i)->Ok_0;
        let e = entries[i];
        let m = manifest[i];
        assert(entry_scan(entries, facts, i, t) is Ok);
        lemma_earlier_index_of(manifest, i, m.entry_id@);
        if earlier_index(manifest, i, m.entry_id@) is Some {
            let j = earlier_index(manifest, i, m.entry_id@)->Some_0;
            assert(manifest[j].entry_id == entries[j].entry_id);
            assert(id_seen(entries, i, e.entry_id@));
        }
        match e.parent_entry_id {
            Some(p) => {
                assert(id_seen(entries, i + 1, p@));
                let w = choose|j: int| 0 <= j < i + 1 && #[trigger] entries[j].entry_id@ == p@;
                assert(w < i);
                assert(manifest[w].entry_id == entries[w].entry_id);
                lemma_earlier_index_of(manifest, i, p@);
                let j0 = earlier_index(manifest, i, p@)->Some_0;
                assert(manifest[j0].entry_id == entries[j0].entry_id);
                assert(entries[j0].entry_id@ == p@);
                assert(manifest[j0].kind == entries[j0].kind);
                assert(views(manifest[j0].components@) == views(entries[j0].components@));
                assert(placement_refusal(manifest, i) is None);
            },
            None => {
                assert(placement_refusal(manifest, i) is None);
            },
        }
        assert(entry_refusal(manifest, i) is None);
    }
}

/// Where the offered items come from: the entries without a parent, in
/// order.
proof fn lemma_tops_agree(entries: Seq<OutgoingEntry>, manifest: Seq<ManifestEntry>, n: int)
    requires
        0 <= n <= entries.len(),
        mirrors(entries, manifest),
        forall|j: int| 0 <= j < entries.len() ==> views(#[trigger] entries[j].components@).len() >= 1,
    ensures
        top_indices(manifest, n).len() == top_items(entries, n).len(),
        forall|k: int|
            0 <= k < top_indices(manifest, n).len() ==> {
                let x = #[trigger] top_indices(manifest, n)[k];
                let m = manifest[x];
                &&& 0 <= x < n
                &&& top_items(entries, n)[k] == (m.entry_id@, m.components@[0]@, m.kind, m.size)
            },
    decreases n,
{
    if n > 0 {
        lemma_tops_agree(entries, manifest, n - 1);
        let i = n - 1;
        let m = manifest[i];
        let e = entries[i];
        assert(views(m.components@)[0] == views(e.components@)[0]);
    }
}

proof fn lemma_some_root(entries: Seq<OutgoingEntry>, n: int, j: int)
    requires
        0 <= j < n <= entries.len(),
        entries[j].parent_entry_id is None,
    ensures
        top_items(entries, n).len() > 0,
    decreases n,
{
    if j < n - 1 {
        lemma_some_root(entries, n - 1, j);
    }
}

/// What a sender offers for a batch it checked is what a receiver accepts:
/// when the batch has the shape of a tree (`tree_consistent`) and its file
/// bytes fit in an `i64`, the offer and manifest it is sent as pass the
/// receiver's manifest check with the same byte total.
pub proof fn lemma_sent_batches_are_accepted(
    entries: Seq<OutgoingEntry>,
    facts: Seq<Option<SourceFacts>>,
    batch_id: [u8; 16],
    offer: OfferStart,
    page: ManifestPage,
)
    requires
        outgoing_check(entries, facts) is Ok,
        outgoing_check(entries, facts)->Ok_0 <= i64::MAX,
        tree_consistent(entries),
        offered_as(entries, outgoing_check(entries, facts)->Ok_0, batch_id, offer, page),
    ensures
        manifest_check(offer, page) == Ok::<u64, ManifestRefusal>(outgoing_check(entries, facts)->Ok_0),
{
    let total = outgoing_check(entries, facts)->Ok_0;
    let n = entries.len() as int;
    let manifest = page.entries@;
    lemma_scan_passes_receiver(entries, facts, manifest, n);
    lemma_scan_total_fits(entries, facts, n);
    assert(file_total(manifest, n) == total);
    assert forall|j: int| 0 <= j < entries.len() implies views(#[trigger] entries[j].components@).len() >= 1 by {
        lemma_scan_prefix_ok(entries, facts, j + 1, n);
        lemma_scan_prefix_ok(entries, facts, j, n);
        assert(entry_scan(entries, facts, j, scan(entries, facts, j)->Ok_0) is Ok);
    }
    lemma_tops_agree(entries, manifest, n);
    let j = choose|j: int| 0 <= j < entries.len() && !(#[trigger] entries[j].parent_entry_id is Some);
    lemma_some_root(entries, n, j);
    let tops = top_indices(manifest, n);
    let items = offer.items@;
    assert(item_views(items).len() == items.len());
    assert forall|k: int| 0 <= k < tops.len() implies {
        let e = #[trigger] manifest[tops[k]];
        &&& e.entry_id@ == items[k].entry_id@
        &&& e.components@[0]@ == items[k].name@
        &&& e.kind == items[k].kind
        &&& e.size == items[k].size
    } by {
        assert(item_views(items)[k] == (items[k].entry_id@, items[k].name@, items[k].kind, items[k].size));
    }
    assert(tops_match(manifest, tops, items));
    assert(manifest_header_ok(offer, page));
}


/// The offset the last point for `id` gives, or 0.
pub open spec fn reported_in(points: Seq<(Seq<u8>, u64)>, id: Seq<u8>) -> u64
    decreases points.len(),
{
    if points.len() == 0 {
        0
    } else if points.last().0 == id {
        points.last().1
    } else {
        reported_in(points.drop_last(), id)
    }
}

proof fn lemma_reported_views(checkpoints: Seq<Checkpoint>, id: Seq<u8>)
    ensures
        reported_offset(checkpoints, id) == reported_in(checkpoint_views(checkpoints), id),
    decreases checkpoints.len(),
{
    if checkpoints.len() > 0 {
        assert(checkpoint_views(checkpoints).drop_last() =~= checkpoint_views(checkpoints.drop_last()));
        lemma_reported_views(checkpoints.drop_last(), id);
    }
}

proof fn lemma_points_absent(entries: Seq<ManifestEntry>, durable: Seq<Option<i64>>, n: int, id: Seq<u8>)
    requires
        0 <= n <= entries.len(),
        forall|k: int| 0 <= k < n ==> (#[trigger] entries[k]).entry_id@ != id,
    ensures
        reported_in(resume_points(entries.subrange(0, n), durable), id) == 0,
    decreases n,
{
    if n > 0 {
        let prefix = entries.subrange(0, n);
        assert(prefix.drop_last() =~= entries.subrange(0, n - 1));
        assert(prefix.last() == entries[n - 1]);
        lemma_points_absent(entries, durable, n - 1, id);
        lemma_points_step(entries, durable, n);
    }
}

proof fn lemma_points_step(entries: Seq<ManifestEntry>, durable: Seq<Option<i64>>, n: int)
    requires
        0 < n <= entries.len(),
    ensures
        forall|id: Seq<u8>|
            #[trigger] reported_in(resume_points(entries.subrange(0, n), durable), id) == match durable[n - 1] {
                Some(d) => if d > 0 && entries[n - 1].entry_id@ == id {
                    d as u64
                } else {
                    reported_in(resume_points(entries.subrange(0, n - 1), durable), id)
                },
                None => reported_in(resume_points(entries.subrange(0, n - 1), durable), id),
            },
{
    let prefix = entries.subrange(0, n);
    assert(prefix.drop_last() =~= entries.subrange(0, n - 1));
    assert(prefix.last() == entries[n - 1]);
    let rest = resume_points(entries.subrange(0, n - 1), durable);
    match durable[n - 1] {
        Some(d) => if d > 0 {
            let x = (entries[n - 1].entry_id@, d as u64);
            assert(rest.push(x).drop_last() =~= rest);
        },
        None => {},
    }
}

proof fn lemma_resume_point_of(entries: Seq<ManifestEntry>, durable: Seq<Option<i64>>, n: int, j: int)
    requires
        0 <= j < n <= entries.len(),
        forall|a: int, b: int| 0 <= a < b < entries.len() ==> (#[trigger] entries[a]).entry_id@ != (#[trigger] entries[b]).entry_id@,
    ensures
        reported_in(resume_points(entries.subrange(0, n), durable), entries[j].entry_id@) == match durable[j] {
            Some(d) => if d > 0 {
                d as u64
            } else {
                0u64
            },
            None => 0u64,
        },
    decreases n,
{
    let prefix = entries.subrange(0, n);
    assert(prefix.drop_last() =~= entries.subrange(0, n - 1));
    assert(prefix.last() == entries[n - 1]);
    lemma_points_step(entries, durable, n);
    if j < n - 1 {
        lemma_resume_point_of(entries, durable, n - 1, j);
        assert(entries[j].entry_id@ != entries[n - 1].entry_id@);
    } else {
        assert forall|k: int| 0 <= k < n - 1 implies (#[trigger] entries[k]).entry_id@ != entries[j].entry_id@ by {
            assert(entries[k].entry_id@ != entries[n - 1].entry_id@);
        }
        lemma_points_absent(entries, durable, n - 1, entries[j].entry_id@);
    }
}

/// Where a receiver says an entry resumes is where its sender reads it
/// back: for every entry of a manifest whose IDs are distinct, the offset
/// `resume_offset` finds in the acceptance is the receiver's stored durable
/// offset when that is past zero, and zero otherwise.
pub proof fn lemma_resume_points_are_read_back(
    entries: Seq<ManifestEntry>,
    durable: Seq<Option<i64>>,
    checkpoints: Seq<Checkpoint>,
    j: int,
)
    requires
        durable.len() == entries.len(),
        0 <= j < entries.len(),
        forall|a: int, b: int| 0 <= a < b < entries.len() ==> (#[trigger] entries[a]).entry_id@ != (#[trigger] entries[b]).entry_id@,
        checkpoint_views(checkpoints) == resume_points(entries, durable),
    ensures
        reported_offset(checkpoints, entries[j].entry_id@) == match durable[j] {
            Some(d) => if d > 0 {
                d as u64
            } else {
                0u64
            },
            None => 0u64,
        },
{
    lemma_reported_views(checkpoints, entries[j].entry_id@);
    assert(entries.subrange(0, entries.len() as int) =~= entries);
    lemma_resume_point_of(entries, durable, entries.len() as int, j);
}

} // verus!
