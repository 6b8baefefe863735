//! Decisions of the transfer engine: whether an incoming offer and its
//! manifest describe a tree the receiver may build, which addresses the
//! engine talks to, and how its lifecycle and progress are reported.
use crate::bytes::{bytes_equal, id_key, id_number, lemma_id_number_injective};
use crate::protocol::{EntryKind, ManifestEntry, ManifestPage, OfferStart, TopLevelItem};
use crate::text::str_equal;
use crate::transfer::{receiver_path_ok, validate_receiver_components, views, MAX_DEPTH, MAX_ENTRIES};
use crate::records::TransferItem;
use crate::network::TrustedPeerPin;
use std::collections::HashMap;
use vstd::prelude::*;

verus! {

broadcast use vstd::std_specs::hash::group_hash_axioms;

/// Why an incoming offer is refused before anything is written.
#[derive(Debug, Clone, Copy, PartialEq, Eq, Structural)]
pub enum ManifestRefusal {
    InvalidManifest,
    UnsafePath,
    DuplicateEntry,
    ParentOrder,
    InvalidHierarchy,
    TopLevelPath,
    BatchTooLarge,
    InvalidDirectory,
    OfferMismatch,
}

/// The text of each `ManifestRefusal`.
pub open spec fn manifest_refusal_text(value: ManifestRefusal) -> &'static str {
    match value {
        ManifestRefusal::InvalidManifest => "invalid manifest",
        ManifestRefusal::UnsafePath => "unsafe manifest path",
        ManifestRefusal::DuplicateEntry => "duplicate manifest entry",
        ManifestRefusal::ParentOrder => "manifest parent order",
        ManifestRefusal::InvalidHierarchy => "invalid manifest hierarchy",
        ManifestRefusal::TopLevelPath => "top-level path invalid",
        ManifestRefusal::BatchTooLarge => "batch too large",
        ManifestRefusal::InvalidDirectory => "invalid directory entry",
        ManifestRefusal::OfferMismatch => "offer does not match manifest",
    }
}

impl ManifestRefusal {
    /// The refusal's message text.
    pub fn message(&self) -> (text: &'static str)
        ensures
            text == manifest_refusal_text(*self),
    {
        match self {
            ManifestRefusal::InvalidManifest => "invalid manifest",
            ManifestRefusal::UnsafePath => "unsafe manifest path",
            ManifestRefusal::DuplicateEntry => "duplicate manifest entry",
            ManifestRefusal::ParentOrder => "manifest parent order",
            ManifestRefusal::InvalidHierarchy => "invalid manifest hierarchy",
            ManifestRefusal::TopLevelPath => "top-level path invalid",
            ManifestRefusal::BatchTooLarge => "batch too large",
            ManifestRefusal::InvalidDirectory => "invalid directory entry",
            ManifestRefusal::OfferMismatch => "offer does not match manifest",
        }
    }
}

/// The offer and its single manifest page agree on their framing: a
/// non-empty offer of at most `MAX_ENTRIES` entries whose byte total fits in
/// an `i64`, announced by one final page 0 of the same batch that holds
/// exactly the announced entries.
pub open spec fn manifest_header_ok(offer: OfferStart, page: ManifestPage) -> bool {
    &&& offer.items@.len() > 0
    &&& offer.total_entries != 0
    &&& offer.total_entries <= MAX_ENTRIES
    &&& offer.total_bytes <= 9223372036854775807
    &&& page.batch_id@ == offer.batch_id@
    &&& page.final_page
    &&& page.page == 0
    &&& page.entries@.len() == offer.total_entries
}

/// The first of the first `n` entries whose ID is `id`.
pub open spec fn earlier_index(entries: Seq<ManifestEntry>, n: int, id: Seq<u8>) -> Option<int>
    decreases n,
{
    if n <= 0 {
        None
    } else {
        match earlier_index(entries, n - 1, id) {
            Some(j) => Some(j),
            None => if entries[n - 1].entry_id@ == id {
                Some(n - 1)
            } else {
                None
            },
        }
    }
}

/// The bytes of the files among the first `n` entries.
pub open spec fn file_total(entries: Seq<ManifestEntry>, n: int) -> int
    decreases n,
{
    if n <= 0 {
        0
    } else {
        file_total(entries, n - 1) + if entries[n - 1].kind == EntryKind::File {
            entries[n - 1].size as int
        } else {
            0
        }
    }
}

/// Where entry `i` sits: a nested entry's parent must be an earlier
/// directory whose path is the entry's path without its last component; an
/// entry without a parent must be a single component.
pub open spec fn placement_refusal(entries: Seq<ManifestEntry>, i: int) -> Option<ManifestRefusal> {
    let e = entries[i];
    let cs = views(e.components@);
    match e.parent_entry_id {
        Some(pid) => match earlier_index(entries, i, pid@) {
            None => Some(ManifestRefusal::ParentOrder),
            Some(j) => {
                let p = entries[j];
                let ps = views(p.components@);
                if p.kind != EntryKind::Directory || cs.len() != ps.len() + 1 || cs.subrange(
                    0,
                    cs.len() - 1,
                ) != ps {
                    Some(ManifestRefusal::InvalidHierarchy)
                } else {
                    None
                }
            },
        },
        None => if cs.len() != 1 {
            Some(ManifestRefusal::TopLevelPath)
        } else {
            None
        },
    }
}

/// What is wrong with entry `i`, checked in the order the receiver checks
/// it: its path, its ID, its place in the tree, then its kind and size.
pub open spec fn entry_refusal(entries: Seq<ManifestEntry>, i: int) -> Option<ManifestRefusal> {
    let e = entries[i];
    if !receiver_path_ok(views(e.components@)) {
        Some(ManifestRefusal::UnsafePath)
    } else if earlier_index(entries, i, e.entry_id@) is Some {
        Some(ManifestRefusal::DuplicateEntry)
    } else if placement_refusal(entries, i) is Some {
        placement_refusal(entries, i)
    } else if e.kind == EntryKind::File {
        if file_total(entries, i + 1) > u64::MAX {
            Some(ManifestRefusal::BatchTooLarge)
        } else {
            None
        }
    } else if e.size == 0 {
        None
    } else {
        Some(ManifestRefusal::InvalidDirectory)
    }
}

/// The refusal of the first refused entry among the first `n`.
pub open spec fn first_refusal(entries: Seq<ManifestEntry>, n: int) -> Option<ManifestRefusal>
    decreases n,
{
    if n <= 0 {
        None
    } else {
        match first_refusal(entries, n - 1) {
            Some(r) => Some(r),
            None => entry_refusal(entries, n - 1),
        }
    }
}

/// The indices of the entries without a parent among the first `n`.
pub open spec fn top_indices(entries: Seq<ManifestEntry>, n: int) -> Seq<int>
    decreases n,
{
    if n <= 0 {
        Seq::empty()
    } else if entries[n - 1].parent_entry_id is None {
        top_indices(entries, n - 1).push(n - 1)
    } else {
        top_indices(entries, n - 1)
    }
}

/// The top-level entries are the offered items, in order.
pub open spec fn tops_match(entries: Seq<ManifestEntry>, tops: Seq<int>, items: Seq<TopLevelItem>) -> bool {
    &&& tops.len() == items.len()
    &&& forall|k: int|
        0 <= k < tops.len() ==> {
            let e = #[trigger] entries[tops[k]];
            &&& e.entry_id@ == items[k].entry_id@
            &&& e.components@[0]@ == items[k].name@
            &&& e.kind == items[k].kind
            &&& e.size == items[k].size
        }
}

/// What checking an incoming offer against its manifest gives: the batch's
/// byte total, or the first reason to refuse it.
pub open spec fn manifest_check(offer: OfferStart, page: ManifestPage) -> Result<u64, ManifestRefusal> {
    let entries = page.entries@;
    let n = entries.len() as int;
    if !manifest_header_ok(offer, page) {
        Err(ManifestRefusal::InvalidManifest)
    } else {
        match first_refusal(entries, n) {
            Some(r) => Err(r),
            None => if file_total(entries, n) != offer.total_bytes || !tops_match(
                entries,
                top_indices(entries, n),
                offer.items@,
            ) {
                Err(ManifestRefusal::OfferMismatch)
            } else {
                Ok(offer.total_bytes)
            },
        }
    }
}

proof fn lemma_earlier_index_found(entries: Seq<ManifestEntry>, n: int, j: int)
    requires
        0 <= j < n <= entries.len(),
        forall|a: int, b: int| 0 <= a < b < n ==> entries[a].entry_id@ != entries[b].entry_id@,
    ensures
        earlier_index(entries, n, entries[j].entry_id@) == Some(j),
    decreases n,
{
    if j < n - 1 {
        lemma_earlier_index_found(entries, n - 1, j);
    } else {
        lemma_earlier_index_absent(entries, n - 1, entries[j].entry_id@);
    }
}

proof fn lemma_earlier_index_absent(entries: Seq<ManifestEntry>, n: int, id: Seq<u8>)
    requires
        n <= entries.len(),
        forall|a: int| 0 <= a < n ==> entries[a].entry_id@ != id,
    ensures
        earlier_index(entries, n, id) is None,
    decreases n,
{
    if n > 0 {
        lemma_earlier_index_absent(entries, n - 1, id);
    }
}

proof fn lemma_top_indices_bound(entries: Seq<ManifestEntry>, n: int)
    requires
        0 <= n,
    ensures
        forall|k: int| 0 <= k < top_indices(entries, n).len() ==> 0 <= #[trigger] top_indices(entries, n)[k] < n,
        forall|k: int|
            0 <= k < top_indices(entries, n).len() ==> entries[#[trigger] top_indices(entries, n)[k]].parent_entry_id is None,
    decreases n,
{
    if n > 0 {
        lemma_top_indices_bound(entries, n - 1);
    }
}

proof fn lemma_no_refusal(entries: Seq<ManifestEntry>, n: int)
    requires
        first_refusal(entries, n) is None,
    ensures
        forall|t: int| 0 <= t < n ==> #[trigger] entry_refusal(entries, t) is None,
    decreases n,
{
    if n > 0 {
        lemma_no_refusal(entries, n - 1);
    }
}

proof fn lemma_refusal_stays(entries: Seq<ManifestEntry>, m: int, n: int)
    requires
        0 <= m <= n,
        first_refusal(entries, m) is Some,
    ensures
        first_refusal(entries, n) == first_refusal(entries, m),
    decreases n - m,
{
    if n > m {
        lemma_refusal_stays(entries, m, n - 1);
    }
}

/// Once entry `i` is refused, the whole manifest is refused for that reason.
proof fn lemma_refused_at(offer: OfferStart, page: ManifestPage, i: int)
    requires
        manifest_header_ok(offer, page),
        0 <= i < page.entries@.len(),
        first_refusal(page.entries@, i) is None,
        entry_refusal(page.entries@, i) is Some,
    ensures
        manifest_check(offer, page) == Err::<u64, ManifestRefusal>(entry_refusal(page.entries@, i)->0),
{
    assert(first_refusal(page.entries@, i + 1) == entry_refusal(page.entries@, i));
    lemma_refusal_stays(page.entries@, i + 1, page.entries@.len() as int);
}

/// Whether `path` is `parent` with one more component.
fn extends_by_one(path: &Vec<String>, parent: &Vec<String>) -> (extends: bool)
    ensures
        extends == (views(path@).len() == views(parent@).len() + 1 && views(path@).subrange(
            0,
            views(path@).len() - 1,
        ) == views(parent@)),
{
    if path.len() == 0 || path.len() - 1 != parent.len() {
        return false;
    }
    let mut k: usize = 0;
    while k < parent.len()
        invariant
            path@.len() == parent@.len() + 1,
            k <= parent@.len(),
            forall|m: int| 0 <= m < k ==> path@[m]@ == parent@[m]@,
        decreases parent@.len() - k,
    {
        if !str_equal(path[k].as_str(), parent[k].as_str()) {
            assert(views(path@)[k as int] != views(parent@)[k as int]);
            assert(views(path@).subrange(0, views(path@).len() - 1)[k as int] == views(path@)[k as int]);
            return false;
        }
        k = k + 1;
    }
    assert(views(path@).subrange(0, views(path@).len() - 1) =~= views(parent@));
    true
}

/// Checks an incoming offer against its manifest before anything is
/// staged: the framing, then each entry in order (path, ID, place in the
/// tree, kind and size), then that the file bytes and the top-level entries
/// are the ones offered.  Returns the batch's byte total.
pub fn check_incoming_manifest(offer: &OfferStart, page: &ManifestPage) -> (result: Result<u64, ManifestRefusal>)
    ensures
        result == manifest_check(*offer, *page),
{
    if offer.items.len() == 0 || offer.total_entries == 0 || offer.total_entries > MAX_ENTRIES as u64
        || offer.total_bytes > 9223372036854775807u64 || !bytes_equal(&page.batch_id, &offer.batch_id)
        || !page.final_page || page.page != 0 || page.entries.len() as u64 != offer.total_entries {
        return Err(ManifestRefusal::InvalidManifest);
    }
    let ghost entries = page.entries@;
    let n = page.entries.len();
    let mut index: HashMap<u128, usize> = HashMap::new();
    let mut tops: Vec<usize> = Vec::new();
    let mut total: u64 = 0;
    let mut i: usize = 0;
    while i < n
        invariant
            n == entries.len(),
            entries == page.entries@,
            manifest_header_ok(*offer, *page),
            i <= n,
            first_refusal(entries, i as int) is None,
            total == file_total(entries, i as int),
            tops@.map_values(|k: usize| k as int) == top_indices(entries, i as int),
            forall|a: int, b: int| 0 <= a < b < i ==> entries[a].entry_id@ != entries[b].entry_id@,
            forall|j: int| 0 <= j < i ==> #[trigger] index@.contains_key(id_number(entries[j].entry_id@) as u128)
                && index@[id_number(entries[j].entry_id@) as u128] == j,
            forall|key: u128| #[trigger] index@.contains_key(key) ==> index@[key] < i
                && id_number(entries[index@[key] as int].entry_id@) == key,
        decreases n - i,
    {
        let e = &page.entries[i];
        proof {
            assert(first_refusal(entries, i + 1) == entry_refusal(entries, i as int));
        }
        if validate_receiver_components(e.components.as_slice()).is_err() {
            proof {
                lemma_refused_at(*offer, *page, i as int);
            }
            return Err(ManifestRefusal::UnsafePath);
        }
        let key = id_key(&e.entry_id);
        if index.contains_key(&key) {
            proof {
                let j = index@[key] as int;
                lemma_id_number_injective(entries[j].entry_id@, e.entry_id@);
                lemma_earlier_index_found(entries, i as int, j);
                lemma_refused_at(*offer, *page, i as int);
            }
            return Err(ManifestRefusal::DuplicateEntry);
        }
        proof {
            assert forall|a: int| 0 <= a < i implies entries[a].entry_id@ != e.entry_id@ by {
                assert(index@.contains_key(id_number(entries[a].entry_id@) as u128));
            }
            lemma_earlier_index_absent(entries, i as int, e.entry_id@);
        }
        match &e.parent_entry_id {
            Some(pid) => {
                let pkey = id_key(pid);
                match index.get(&pkey) {
                    None => {
                        proof {
                            assert forall|a: int| 0 <= a < i implies entries[a].entry_id@ != pid@ by {
                                assert(index@.contains_key(id_number(entries[a].entry_id@) as u128));
                            }
                            lemma_earlier_index_absent(entries, i as int, pid@);
                            lemma_refused_at(*offer, *page, i as int);
                        }
                        return Err(ManifestRefusal::ParentOrder);
                    },
                    Some(j) => {
                        let j = *j;
                        proof {
                            lemma_id_number_injective(entries[j as int].entry_id@, pid@);
                            lemma_earlier_index_found(entries, i as int, j as int);
                        }
                        let parent = &page.entries[j];
                        if parent.kind != EntryKind::Directory || !extends_by_one(&e.components, &parent.components) {
                            proof {
                                lemma_refused_at(*offer, *page, i as int);
                            }
                            return Err(ManifestRefusal::InvalidHierarchy);
                        }
                    },
                }
            },
            None => {
                if e.components.len() != 1 {
                    proof {
                        lemma_refused_at(*offer, *page, i as int);
                    }
                    return Err(ManifestRefusal::TopLevelPath);
                }
                tops.push(i);
            },
        }
        if e.kind == EntryKind::File {
            match total.checked_add(e.size) {
                Some(t) => {
                    total = t;
                },
                None => {
                    proof {
                        lemma_refused_at(*offer, *page, i as int);
                    }
                    return Err(ManifestRefusal::BatchTooLarge);
                },
            }
        } else if e.size != 0 {
            proof {
                lemma_refused_at(*offer, *page, i as int);
            }
            return Err(ManifestRefusal::InvalidDirectory);
        }
        index.insert(key, i);
        proof {
            assert(id_number(e.entry_id@) as u128 == key);
            assert forall|j: int| 0 <= j < i implies id_number(entries[j].entry_id@) as u128 != key by {
                if id_number(entries[j].entry_id@) as u128 == key {
                    lemma_id_number_injective(entries[j].entry_id@, e.entry_id@);
                }
            }
        }
        i = i + 1;
        proof {
            assert(tops@.map_values(|k: usize| k as int) =~= top_indices(entries, i as int));
        }
    }
    proof {
        lemma_top_indices_bound(entries, n as int);
        lemma_no_refusal(entries, n as int);
        assert forall|t: int| 0 <= t < entries.len() && entries[t].parent_entry_id is None implies views(
            #[trigger] entries[t].components@,
        ).len() == 1 by {
            assert(entry_refusal(entries, t) is None);
        }
    }
    if total != offer.total_bytes || tops.len() != offer.items.len() {
        return Err(ManifestRefusal::OfferMismatch);
    }
    let mut k: usize = 0;
    while k < tops.len()
        invariant
            n == entries.len(),
            entries == page.entries@,
            tops@.len() == offer.items@.len(),
            manifest_header_ok(*offer, *page),
            first_refusal(entries, n as int) is None,
            total == offer.total_bytes,
            total == file_total(entries, n as int),
            tops@.map_values(|t: usize| t as int) == top_indices(entries, n as int),
            forall|t: int| 0 <= t < tops@.len() ==> 0 <= #[trigger] top_indices(entries, n as int)[t] < n,
            forall|t: int|
                0 <= t < tops@.len() ==> entries[#[trigger] top_indices(entries, n as int)[t]].parent_entry_id is None,
            forall|t: int| 0 <= t < entries.len() && entries[t].parent_entry_id is None ==> views(
                #[trigger] entries[t].components@,
            ).len() == 1,
            k <= tops@.len(),
            forall|m: int|
                0 <= m < k ==> {
                    let e = #[trigger] entries[top_indices(entries, n as int)[m]];
                    &&& e.entry_id@ == offer.items@[m].entry_id@
                    &&& e.components@[0]@ == offer.items@[m].name@
                    &&& e.kind == offer.items@[m].kind
                    &&& e.size == offer.items@[m].size
                },
        decreases tops@.len() - k,
    {
        assert(top_indices(entries, n as int)[k as int] == tops@[k as int] as int);
        let e = &page.entries[tops[k]];
        let item = &offer.items[k];
        if !bytes_equal(&e.entry_id, &item.entry_id) || !str_equal(e.components[0].as_str(), item.name.as_str())
            || e.kind != item.kind || e.size != item.size {
            proof {
                let tops_all = top_indices(entries, n as int);
                if tops_match(entries, tops_all, offer.items@) {
                    assert(entries[tops_all[k as int]] == *e);
                }
            }
            return Err(ManifestRefusal::OfferMismatch);
        }
        k = k + 1;
    }
    Ok(total)
}


/// The lifecycle states the engine reports.
#[derive(Debug, Clone, Copy, PartialEq, Eq, Structural)]
pub enum EngineLifecycle {
    Dormant,
    ShutDown,
}

/// Bytes a receiver has acknowledged out of a batch's total.
#[derive(Debug, Clone, Copy, PartialEq, Eq, Structural)]
pub struct TransferProgress {
    pub acknowledged_bytes: u64,
    pub total_bytes: u64,
}

/// An IP address, by its octets.
#[derive(Debug, Clone, Copy, PartialEq, Eq)]
pub enum IpAddress {
    V4([u8; 4]),
    V6([u8; 16]),
}

/// An IP address with a port.
#[derive(Debug, Clone, Copy, PartialEq, Eq)]
pub struct SocketAddress {
    pub ip: IpAddress,
    pub port: u16,
}

/// What the listener is doing: whether it listens, whether it receives,
/// and the endpoint it is bound to.  None of it authorizes a peer.
#[derive(Debug, Clone, Copy, PartialEq, Eq)]
pub struct ListenerStatus {
    pub listening: bool,
    pub receiving: bool,
    pub bound_endpoint: Option<SocketAddress>,
}

/// Why the engine refuses to listen or connect.  `AlreadyListening` names
/// the bound endpoint; `Io` carries the transport's own text.
#[derive(Debug, Clone, PartialEq, Eq)]
pub enum ListenerError {
    InvalidAddress,
    ShuttingDown,
    AlreadyListening(String),
    Io(String),
}

/// `127.0.0.0/8`.
pub open spec fn v4_loopback(o: Seq<u8>) -> bool {
    o[0] == 127
}

/// `10.0.0.0/8`, `172.16.0.0/12` and `192.168.0.0/16`.
pub open spec fn v4_private(o: Seq<u8>) -> bool {
    o[0] == 10 || (o[0] == 172 && 16 <= o[1] < 32) || (o[0] == 192 && o[1] == 168)
}

/// `::1`.
pub open spec fn v6_loopback(o: Seq<u8>) -> bool {
    (forall|i: int| 0 <= i < 15 ==> o[i] == 0) && o[15] == 1
}

/// `fc00::/7`, the IPv6 unique-local space.
pub open spec fn v6_unique_local(o: Seq<u8>) -> bool {
    o[0] == 0xfc || o[0] == 0xfd
}

/// Whether `address` is a loopback or private-network address.
pub open spec fn loopback_or_private(address: IpAddress) -> bool {
    match address {
        IpAddress::V4(o) => v4_loopback(o@) || v4_private(o@),
        IpAddress::V6(o) => v6_loopback(o@) || v6_unique_local(o@),
    }
}

/// `0.0.0.0` or `::`.
pub open spec fn unspecified(address: IpAddress) -> bool {
    match address {
        IpAddress::V4(o) => forall|i: int| 0 <= i < 4 ==> o@[i] == 0,
        IpAddress::V6(o) => forall|i: int| 0 <= i < 16 ==> o@[i] == 0,
    }
}

fn all_zero(o: &[u8], n: usize) -> (zero: bool)
    requires
        n <= o@.len(),
    ensures
        zero == forall|i: int| 0 <= i < n ==> o@[i] == 0,
{
    let mut i: usize = 0;
    while i < n
        invariant
            i <= n <= o@.len(),
            forall|k: int| 0 <= k < i ==> o@[k] == 0,
        decreases n - i,
    {
        if o[i] != 0 {
            return false;
        }
        i = i + 1;
    }
    true
}

/// Accepts only addresses useful for direct LAN and manual connections.
pub fn is_loopback_or_private(address: IpAddress) -> (accepted: bool)
    ensures
        accepted == loopback_or_private(address),
{
    match address {
        IpAddress::V4(o) => o[0] == 127 || o[0] == 10 || (o[0] == 172 && 16 <= o[1] && o[1] < 32) || (o[0] == 192
            && o[1] == 168),
        IpAddress::V6(o) => {
            let first = o[0];
            assert((first & 0xfe == 0xfc) == (first == 0xfc || first == 0xfd)) by (bit_vector);
            (all_zero(&o, 15) && o[15] == 1) || first & 0xfe == 0xfc
        },
    }
}

/// Whether `address` is the unspecified address of its family.
pub fn is_unspecified(address: IpAddress) -> (u: bool)
    ensures
        u == unspecified(address),
{
    match address {
        IpAddress::V4(o) => all_zero(&o, 4),
        IpAddress::V6(o) => all_zero(&o, 16),
    }
}

/// The private IPv4 ranges and the loopback range are accepted whole,
/// whatever their remaining octets: `10.a.b.c`, `172.16.b.c` to
/// `172.31.b.c`, `192.168.b.c` and `127.a.b.c`.  Outside them no IPv4
/// address is: any other first octet, `172.x` below 16 or above 31, and
/// `192.x` other than `192.168`.  In IPv6, `::1` and every `fc00::/7`
/// address are accepted, and no address outside `fc00::/7` whose first
/// byte is not zero.
pub proof fn lemma_private_ranges(a: u8, b: u8, c: u8, x: u8, o: [u8; 4], six: [u8; 16])
    ensures
        loopback_or_private(IpAddress::V4([10, a, b, c])),
        loopback_or_private(IpAddress::V4([127, a, b, c])),
        loopback_or_private(IpAddress::V4([192, 168, b, c])),
        16 <= x <= 31 ==> loopback_or_private(IpAddress::V4([172, x, b, c])),
        !(16 <= x <= 31) ==> !loopback_or_private(IpAddress::V4([172, x, b, c])),
        x != 168 ==> !loopback_or_private(IpAddress::V4([192, x, b, c])),
        (o[0] != 10 && o[0] != 127 && o[0] != 172 && o[0] != 192) ==> !loopback_or_private(IpAddress::V4(o)),
        (six[0] == 0xfc || six[0] == 0xfd) ==> loopback_or_private(IpAddress::V6(six)),
        ((forall|i: int| 0 <= i < 15 ==> six[i] == 0) && six[15] == 1) ==> loopback_or_private(IpAddress::V6(six)),
        (six[0] != 0xfc && six[0] != 0xfd && six[0] != 0) ==> !loopback_or_private(IpAddress::V6(six)),
{
    assert([10u8, a, b, c]@[0] == 10);
    assert([127u8, a, b, c]@[0] == 127);
    assert([192u8, 168u8, b, c]@[0] == 192 && [192u8, 168u8, b, c]@[1] == 168);
    assert([172u8, x, b, c]@[0] == 172 && [172u8, x, b, c]@[1] == x);
    assert([192u8, x, b, c]@[0] == 192 && [192u8, x, b, c]@[1] == x);
}

/// Checks a user-given endpoint, already parsed (`None` when it did not
/// parse as an address with a port): it must name a port and a loopback or
/// private address.
pub fn validate_manual_endpoint(parsed: Option<SocketAddress>) -> (result: Result<SocketAddress, ListenerError>)
    ensures
        match parsed {
            Some(a) => if a.port != 0 && loopback_or_private(a.ip) {
                result == Ok::<SocketAddress, ListenerError>(a)
            } else {
                result == Err::<SocketAddress, ListenerError>(ListenerError::InvalidAddress)
            },
            None => result == Err::<SocketAddress, ListenerError>(ListenerError::InvalidAddress),
        },
{
    match parsed {
        Some(a) => if a.port != 0 && is_loopback_or_private(a.ip) {
            Ok(a)
        } else {
            Err(ListenerError::InvalidAddress)
        },
        None => Err(ListenerError::InvalidAddress),
    }
}

/// Checks a local listening address, already parsed: the unspecified
/// address or a loopback or private one; port zero asks the system to pick.
pub fn validate_listen_address(parsed: Option<SocketAddress>) -> (result: Result<SocketAddress, ListenerError>)
    ensures
        match parsed {
            Some(a) => if unspecified(a.ip) || loopback_or_private(a.ip) {
                result == Ok::<SocketAddress, ListenerError>(a)
            } else {
                result == Err::<SocketAddress, ListenerError>(ListenerError::InvalidAddress)
            },
            None => result == Err::<SocketAddress, ListenerError>(ListenerError::InvalidAddress),
        },
{
    match parsed {
        Some(a) => if !is_unspecified(a.ip) && !is_loopback_or_private(a.ip) {
            Err(ListenerError::InvalidAddress)
        } else {
            Ok(a)
        },
        None => Err(ListenerError::InvalidAddress),
    }
}

/// An IPv4-mapped IPv6 address (`::ffff:a.b.c.d`) as the IPv4 address it
/// maps; any other address unchanged.
pub open spec fn normalized_source_of(source: IpAddress) -> IpAddress {
    match source {
        IpAddress::V6(o) => if (forall|i: int| 0 <= i < 10 ==> o@[i] == 0) && o@[10] == 0xff && o@[11] == 0xff {
            IpAddress::V4([o@[12], o@[13], o@[14], o@[15]])
        } else {
            source
        },
        IpAddress::V4(_) => source,
    }
}

/// The address a connection is counted under.
pub fn normalized_source(source: IpAddress) -> (normal: IpAddress)
    ensures
        normal == normalized_source_of(source),
{
    match source {
        IpAddress::V6(o) => if all_zero(&o, 10) && o[10] == 0xff && o[11] == 0xff {
            IpAddress::V4([o[12], o[13], o[14], o[15]])
        } else {
            source
        },
        IpAddress::V4(_) => source,
    }
}

/// A plain file name: not empty, no separator, not `.` or `..`.
pub open spec fn safe_file_name_spec(name: Seq<char>) -> bool {
    &&& name.len() > 0
    &&& forall|i: int| 0 <= i < name.len() ==> name[i] != '/' && name[i] != '\\'
    &&& name != seq!['.']
    &&& name != seq!['.', '.']
}

pub fn safe_file_name(name: &str) -> (safe: bool)
    ensures
        safe == safe_file_name_spec(name@),
{
    let chars = crate::text::chars_of(name);
    if chars.len() == 0 {
        return false;
    }
    let mut i: usize = 0;
    while i < chars.len()
        invariant
            i <= chars@.len(),
            chars@ == name@,
            forall|k: int| 0 <= k < i ==> chars@[k] != '/' && chars@[k] != '\\',
        decreases chars@.len() - i,
    {
        if chars[i] == '/' || chars[i] == '\\' {
            return false;
        }
        i = i + 1;
    }
    if chars.len() == 1 && chars[0] == '.' {
        assert(name@ =~= seq!['.']);
        return false;
    }
    if chars.len() == 2 && chars[0] == '.' && chars[1] == '.' {
        assert(name@ =~= seq!['.', '.']);
        return false;
    }
    proof {
        if name@ == seq!['.'] {
            assert(chars@[0] == '.');
        }
        if name@ == seq!['.', '.'] {
            assert(chars@[0] == '.' && chars@[1] == '.');
        }
    }
    true
}


/// The first of `all` whose ID is `id`.
pub open spec fn find_record(all: Seq<TransferItem>, id: Seq<char>) -> Option<TransferItem>
    decreases all.len(),
{
    if all.len() == 0 {
        None
    } else if all[0].id@ == id {
        Some(all[0])
    } else {
        find_record(all.drop_first(), id)
    }
}

/// The display names of the ancestors of an item, nearest first, reached
/// through `parent` when `count` names are already collected; `None` when
/// an ancestor is missing or the path would pass `MAX_DEPTH` components.
pub open spec fn ancestor_names(all: Seq<TransferItem>, parent: Option<String>, count: nat) -> Option<Seq<Seq<char>>>
    decreases MAX_DEPTH + 1 - count,
{
    match parent {
        None => Some(Seq::empty()),
        Some(pid) => match find_record(all, pid@) {
            None => None,
            Some(p) => if count + 1 > MAX_DEPTH {
                None
            } else {
                match ancestor_names(all, p.parent_item_id, count + 1) {
                    Some(rest) => Some(seq![p.display_name@] + rest),
                    None => None,
                }
            },
        },
    }
}

/// The receiver-relative path of a stored item: its ancestors' names from
/// the top, then its own; `None` unless every ancestor is stored and the
/// path is one the receiver accepts.
pub open spec fn item_path(item: TransferItem, all: Seq<TransferItem>) -> Option<Seq<Seq<char>>> {
    match ancestor_names(all, item.parent_item_id, 1) {
        Some(names) => {
            let path = (seq![item.display_name@] + names).reverse();
            if receiver_path_ok(path) {
                Some(path)
            } else {
                None
            }
        },
        None => None,
    }
}

fn find_record_exec(all: &[TransferItem], id: &String) -> (found: Option<usize>)
    ensures
        match found {
            Some(k) => k < all@.len() && find_record(all@, id@) == Some(all@[k as int]),
            None => find_record(all@, id@) is None,
        },
{
    assert(all@.subrange(0, all@.len() as int) =~= all@);
    let mut k: usize = 0;
    while k < all.len()
        invariant
            k <= all@.len(),
            find_record(all@, id@) == find_record(all@.subrange(k as int, all@.len() as int), id@),
        decreases all@.len() - k,
    {
        let ghost rest = all@.subrange(k as int, all@.len() as int);
        assert(rest.drop_first() =~= all@.subrange(k + 1, all@.len() as int));
        assert(rest[0] == all@[k as int]);
        if str_equal(all[k].id.as_str(), id.as_str()) {
            return Some(k);
        }
        k = k + 1;
    }
    None
}

/// The receiver-relative path of a stored item.
pub fn item_components(item: &TransferItem, all: &[TransferItem]) -> (path: Option<Vec<String>>)
    ensures
        match path {
            Some(v) => item_path(*item, all@) == Some(views(v@)),
            None => item_path(*item, all@) is None,
        },
{
    let mut components: Vec<String> = vec![item.display_name.clone()];
    let mut parent: Option<String> = match &item.parent_item_id {
        Some(p) => Some(p.clone()),
        None => None,
    };
    let ghost first = seq![item.display_name@];
    assert(views(components@) =~= first);
    proof {
        assert(match (parent, item.parent_item_id) {
            (Some(a), Some(b)) => a@ == b@,
            (None, None) => true,
            _ => false,
        });
    }
    let ghost start_names = ancestor_names(all@, item.parent_item_id, 1);
    loop
        invariant
            1 <= components@.len() <= MAX_DEPTH,
            start_names == ancestor_names(all@, item.parent_item_id, 1),
            start_names is Some <==> ancestor_names(all@, parent, components@.len() as nat) is Some,
            start_names matches Some(names) ==> names == views(components@).subrange(1, components@.len() as int)
                + ancestor_names(all@, parent, components@.len() as nat)->0,
            views(components@)[0] == item.display_name@,
        ensures
            parent is None,
            1 <= components@.len() <= MAX_DEPTH,
            start_names is Some,
            start_names matches Some(names) ==> names == views(components@).subrange(1, components@.len() as int)
                + ancestor_names(all@, parent, components@.len() as nat)->0,
            views(components@)[0] == item.display_name@,
        decreases MAX_DEPTH + 1 - components@.len(),
    {
        let pid = match &parent {
            None => break,
            Some(pid) => pid.clone(),
        };
        let ghost before = ancestor_names(all@, parent, components@.len() as nat);
        let k = match find_record_exec(all, &pid) {
            Some(k) => k,
            None => {
                return None;
            },
        };
        if components.len() + 1 > MAX_DEPTH {
            return None;
        }
        let ghost old_views = views(components@);
        components.push(all[k].display_name.clone());
        assert(views(components@) =~= old_views.push(all@[k as int].display_name@));
        parent = match &all[k].parent_item_id {
            Some(p) => Some(p.clone()),
            None => None,
        };
        proof {
            assert(match (parent, all@[k as int].parent_item_id) {
                (Some(a), Some(b)) => a@ == b@,
                (None, None) => true,
                _ => false,
            });
            assert(ancestor_names(all@, parent, components@.len() as nat) == ancestor_names(
                all@,
                all@[k as int].parent_item_id,
                components@.len() as nat,
            ));
            assert(views(components@).subrange(1, components@.len() as int) =~= old_views.subrange(
                1,
                old_views.len() as int,
            ).push(all@[k as int].display_name@));
        }
    }
    let ghost collected = views(components@);
    assert(collected =~= first + collected.subrange(1, collected.len() as int));
    proof {
        assert(ancestor_names(all@, parent, components@.len() as nat) == Some(Seq::<Seq<char>>::empty()));
        let names = start_names->0;
        assert(names =~= collected.subrange(1, collected.len() as int));
        assert(seq![item.display_name@] + names =~= collected);
    }
    let mut path: Vec<String> = Vec::new();
    let mut i: usize = components.len();
    while i > 0
        invariant
            i <= components@.len(),
            collected == views(components@),
            views(path@) == collected.subrange(i as int, collected.len() as int).reverse(),
        decreases i,
    {
        i = i - 1;
        let ghost before = views(path@);
        path.push(components[i].clone());
        assert(views(path@) =~= before.push(collected[i as int]));
        assert(collected.subrange(i as int, collected.len() as int).reverse() =~= collected.subrange(
            i + 1,
            collected.len() as int,
        ).reverse().push(collected[i as int]));
    }
    assert(collected.subrange(0, collected.len() as int) =~= collected);
    if validate_receiver_components(path.as_slice()).is_err() {
        return None;
    }
    Some(path)
}

/// The stored hexadecimal of a fingerprint, without a `blake3:` or
/// `sha256:` label.
pub open spec fn pin_hex(fingerprint: Seq<char>) -> Seq<char> {
    let b = seq!['b', 'l', 'a', 'k', 'e', '3', ':'];
    let h = seq!['s', 'h', 'a', '2', '5', '6', ':'];
    if fingerprint.len() >= 7 && fingerprint.subrange(0, 7) == b {
        fingerprint.subrange(7, fingerprint.len() as int)
    } else if fingerprint.len() >= 7 && fingerprint.subrange(0, 7) == h {
        fingerprint.subrange(7, fingerprint.len() as int)
    } else {
        fingerprint
    }
}

fn starts_with_label(chars: &Vec<char>, label: &Vec<char>) -> (starts: bool)
    requires
        label@.len() == 7,
    ensures
        starts == (chars@.len() >= 7 && chars@.subrange(0, 7) == label@),
{
    if chars.len() < 7 {
        return false;
    }
    let mut k: usize = 0;
    while k < 7
        invariant
            k <= 7,
            chars@.len() >= 7,
            label@.len() == 7,
            forall|j: int| 0 <= j < k ==> chars@[j] == label@[j],
        decreases 7 - k,
    {
        if chars[k] != label[k] {
            assert(chars@.subrange(0, 7)[k as int] != label@[k as int]);
            return false;
        }
        k = k + 1;
    }
    assert(chars@.subrange(0, 7) =~= label@);
    true
}

/// The pin a stored trusted peer is checked against: its 32-byte key and
/// the 32 bytes its fingerprint's hexadecimal decodes to.
pub fn trusted_pin_from_record(peer: &crate::records::TrustedPeer) -> (result: Result<TrustedPeerPin, ()>)
    ensures
        match result {
            Ok(pin) => peer.public_key@.len() == 32 && pin.public_key@ == peer.public_key@
                && pin.device_id@ == peer.device_id@
                && crate::text::hex_decoded(pin_hex(peer.certificate_fingerprint@)) == Some(pin.certificate_fingerprint@),
            Err(()) => peer.public_key@.len() != 32 || !(crate::text::hex_decoded(
                pin_hex(peer.certificate_fingerprint@),
            ) matches Some(b) && b.len() == 32),
        },
{
    if peer.public_key.len() != 32 {
        return Err(());
    }
    let mut key = [0u8; 32];
    let mut i: usize = 0;
    while i < 32
        invariant
            i <= 32,
            peer.public_key@.len() == 32,
            forall|j: int| 0 <= j < i ==> key@[j] == peer.public_key@[j],
        decreases 32 - i,
    {
        key[i] = peer.public_key[i];
        i = i + 1;
    }
    assert(key@ =~= peer.public_key@);
    let chars = crate::text::chars_of(peer.certificate_fingerprint.as_str());
    let b = vec!['b', 'l', 'a', 'k', 'e', '3', ':'];
    let h = vec!['s', 'h', 'a', '2', '5', '6', ':'];
    assert(b@ =~= seq!['b', 'l', 'a', 'k', 'e', '3', ':']);
    assert(h@ =~= seq!['s', 'h', 'a', '2', '5', '6', ':']);
    let hex = if starts_with_label(&chars, &b) || starts_with_label(&chars, &h) {
        let rest = crate::text::string_from_range(&chars, 7, chars.len());
        crate::text::chars_of(rest.as_str())
    } else {
        chars
    };
    assert(hex@ == pin_hex(peer.certificate_fingerprint@));
    let bytes = match crate::text::hex_decode(&hex) {
        Some(bytes) => bytes,
        None => return Err(()),
    };
    if bytes.len() != 32 {
        return Err(());
    }
    let mut fingerprint = [0u8; 32];
    let mut j: usize = 0;
    while j < 32
        invariant
            j <= 32,
            bytes@.len() == 32,
            forall|m: int| 0 <= m < j ==> fingerprint@[m] == bytes@[m],
        decreases 32 - j,
    {
        fingerprint[j] = bytes[j];
        j = j + 1;
    }
    assert(fingerprint@ =~= bytes@);
    Ok(TrustedPeerPin { device_id: peer.device_id.clone(), public_key: key, certificate_fingerprint: fingerprint })
}

/// Whether an authenticated peer, proving the pin `pin`, is one this device
/// trusts: `stored` is its stored record, if any; it must not be revoked and
/// must pin exactly the same device, key and certificate.
pub fn authenticated_peer_trusted(stored: &Option<crate::records::TrustedPeer>, pin: &TrustedPeerPin) -> (trusted: bool)
    ensures
        trusted == (stored matches Some(p) && p.revoked_at is None && p.public_key@.len() == 32
            && p.public_key@ == pin.public_key@ && p.device_id@ == pin.device_id@ && crate::text::hex_decoded(
            pin_hex(p.certificate_fingerprint@),
        ) == Some(pin.certificate_fingerprint@)),
{
    match stored {
        Some(p) => {
            if p.revoked_at.is_some() {
                return false;
            }
            match trusted_pin_from_record(p) {
                Ok(stored_pin) => str_equal(stored_pin.device_id.as_str(), pin.device_id.as_str()) && bytes_equal(
                    &stored_pin.public_key,
                    &pin.public_key,
                ) && bytes_equal(&stored_pin.certificate_fingerprint, &pin.certificate_fingerprint),
                Err(()) => false,
            }
        },
        None => false,
    }
}

/// What startup recovery does with one staged file.
#[derive(Debug, Clone, Copy, PartialEq, Eq)]
pub enum StagedFileRecovery {
    /// The staging tree cannot be trusted and is removed.
    Corrupt,
    /// The staged bytes and the checkpoint agree.
    Keep,
    /// The checkpoint and the disk disagree: the disk wins.  Bytes past the
    /// checkpoint are cut off (`truncate_to`), and the checkpoint is lowered
    /// to what the disk holds (`durable_offset`).
    Rewind { truncate_to: Option<u64>, durable_offset: u64 },
}

/// The recovery of a staged file of recorded size `size`, whose staged copy
/// holds `disk_len` bytes (`None` when it is missing), whose checkpoint is
/// durable to `durable_offset` (`None` without a checkpoint), and, when the
/// checkpoint records a verified digest, whether the staged file has it.
pub open spec fn staged_recovery_of(size: i64, disk_len: Option<u64>, durable_offset: Option<i64>, verified: Option<bool>) -> StagedFileRecovery {
    let limit = if size < 0 {
        0
    } else {
        size as int
    };
    let durable = match durable_offset {
        Some(d) => if d < 0 {
            0
        } else {
            d as int
        },
        None => 0,
    };
    match disk_len {
        None => StagedFileRecovery::Corrupt,
        Some(len) => if len > limit {
            StagedFileRecovery::Corrupt
        } else {
            match verified {
                Some(matches) => if len != limit || !matches {
                    StagedFileRecovery::Corrupt
                } else {
                    StagedFileRecovery::Keep
                },
                None => if durable != len {
                    StagedFileRecovery::Rewind {
                        truncate_to: if len > durable {
                            Some(durable as u64)
                        } else {
                            None
                        },
                        durable_offset: if durable < len {
                            durable as u64
                        } else {
                            len
                        },
                    }
                } else {
                    StagedFileRecovery::Keep
                },
            }
        },
    }
}

pub fn staged_file_recovery(size: i64, disk_len: Option<u64>, durable_offset: Option<i64>, verified: Option<bool>) -> (recovery: StagedFileRecovery)
    ensures
        recovery == staged_recovery_of(size, disk_len, durable_offset, verified),
{
    let limit: u64 = if size < 0 { 0 } else { size as u64 };
    let durable: u64 = match durable_offset {
        Some(d) => if d < 0 { 0 } else { d as u64 },
        None => 0,
    };
    let len = match disk_len {
        None => return StagedFileRecovery::Corrupt,
        Some(len) => len,
    };
    if len > limit {
        return StagedFileRecovery::Corrupt;
    }
    match verified {
        Some(matches) => if len != limit || !matches {
            StagedFileRecovery::Corrupt
        } else {
            StagedFileRecovery::Keep
        },
        None => if durable != len {
            StagedFileRecovery::Rewind {
                truncate_to: if len > durable { Some(durable) } else { None },
                durable_offset: if durable < len { durable } else { len },
            }
        } else {
            StagedFileRecovery::Keep
        },
    }
}

/// Seconds an unreferenced staging tree is kept before it is pruned (30 days).
pub const ORPHAN_RETENTION_SECS: i64 = 2592000;

/// Whether an unreferenced staging tree last modified at `modified`
/// (seconds since the epoch; `None` when unknown) is old enough at `now` to
/// be removed.  Trees of a recorded batch are never removed here.
pub open spec fn orphan_removable(now: i64, modified: Option<i64>, referenced: bool) -> bool {
    !referenced && (modified matches Some(m) && {
        let age = now - m;
        let clamped = if age < i64::MIN {
            i64::MIN as int
        } else if age > i64::MAX {
            i64::MAX as int
        } else {
            age
        };
        clamped >= ORPHAN_RETENTION_SECS
    })
}

pub fn staging_is_removable(now: i64, modified: Option<i64>, referenced: bool) -> (removable: bool)
    ensures
        removable == orphan_removable(now, modified, referenced),
{
    if referenced {
        return false;
    }
    match modified {
        None => false,
        Some(m) => {
            let age: i128 = now as i128 - m as i128;
            let clamped: i128 = if age < i64::MIN as i128 {
                i64::MIN as i128
            } else if age > i64::MAX as i128 {
                i64::MAX as i128
            } else {
                age
            };
            clamped >= ORPHAN_RETENTION_SECS as i128
        },
    }
}


/// Whether an incoming batch whose staging tree is gone may be adopted as
/// completed from its final files: it has a target, every item is a file
/// with a final path, and every item's checkpoint (`checkpoints[i]` for
/// item `i`) records a verified digest at the item's full size.
pub open spec fn adoptable(record: crate::records::PersistedBatch, checkpoints: Seq<Option<crate::records::Checkpoint>>) -> bool {
    &&& record.targets@.len() > 0
    &&& forall|i: int| 0 <= i < record.items@.len() ==> (#[trigger] record.items@[i]).kind@ == "file"@
    &&& forall|i: int|
        0 <= i < record.items@.len() ==> {
            let item = #[trigger] record.items@[i];
            &&& item.destination_path_local is Some
            &&& checkpoints[i] matches Some(c) && c.verified_hash is Some && c.durable_offset == item.size
        }
}

/// The final files a batch is adopted from when `adoptable` holds: each
/// item's final path with the digest its checkpoint verified.  The caller
/// adopts the batch only when every path still holds its digest.
pub fn adoption_candidates(record: &crate::records::PersistedBatch, checkpoints: &Vec<Option<crate::records::Checkpoint>>) -> (candidates: Option<Vec<(String, Vec<u8>)>>)
    requires
        checkpoints@.len() == record.items@.len(),
    ensures
        candidates is Some <==> adoptable(*record, checkpoints@),
        candidates matches Some(c) ==> c@.len() == record.items@.len() && forall|i: int|
            0 <= i < c@.len() ==> (#[trigger] c@[i]).0@ == record.items@[i].destination_path_local->0@ && c@[i].1@
                == checkpoints@[i]->0.verified_hash->0@,
{
    if record.targets.len() == 0 {
        return None;
    }
    proof {
        reveal_strlit("file");
    }
    let mut i: usize = 0;
    while i < record.items.len()
        invariant
            i <= record.items@.len(),
            forall|k: int| 0 <= k < i ==> (#[trigger] record.items@[k]).kind@ == "file"@,
        decreases record.items@.len() - i,
    {
        if !str_equal(record.items[i].kind.as_str(), "file") {
            return None;
        }
        i = i + 1;
    }
    let mut out: Vec<(String, Vec<u8>)> = Vec::new();
    let mut j: usize = 0;
    while j < record.items.len()
        invariant
            j <= record.items@.len(),
            checkpoints@.len() == record.items@.len(),
            out@.len() == j,
            forall|k: int|
                0 <= k < j ==> {
                    let item = #[trigger] record.items@[k];
                    &&& item.destination_path_local is Some
                    &&& checkpoints@[k] matches Some(c) && c.verified_hash is Some && c.durable_offset == item.size
                },
            forall|k: int|
                0 <= k < j ==> (#[trigger] out@[k]).0@ == record.items@[k].destination_path_local->0@ && out@[k].1@
                    == checkpoints@[k]->0.verified_hash->0@,
        decreases record.items@.len() - j,
    {
        let item = &record.items[j];
        let destination = match &item.destination_path_local {
            Some(d) => d,
            None => return None,
        };
        let checkpoint = match &checkpoints[j] {
            Some(c) => c,
            None => return None,
        };
        let hash = match &checkpoint.verified_hash {
            Some(h) => h,
            None => return None,
        };
        if checkpoint.durable_offset != item.size {
            return None;
        }
        let copied = crate::bytes::copy_range(hash.as_slice(), 0, hash.len());
        assert(copied@ =~= hash@);
        out.push((destination.clone(), copied));
        j = j + 1;
    }
    Some(out)
}

/// `b` is `batch` finished in `state` at `now`.
pub open spec fn batch_finished_as(b: crate::records::Batch, batch: crate::records::Batch, state: Seq<char>, now: i64) -> bool {
    &&& b.id@ == batch.id@
    &&& b.direction@ == batch.direction@
    &&& b.state@ == state
    &&& b.created_at == batch.created_at
    &&& b.completed_at == Some(now)
    &&& b.total_bytes == batch.total_bytes
    &&& b.total_entries == batch.total_entries
    &&& b.warning_count == batch.warning_count
    &&& b.wait_for_available == batch.wait_for_available
}

/// The batch record once the batch finished in `state` at `now`.
pub fn batch_finished(batch: &crate::records::Batch, state: &str, now: i64) -> (b: crate::records::Batch)
    ensures
        batch_finished_as(b, *batch, state@, now),
{
    crate::records::Batch {
        id: batch.id.clone(),
        direction: batch.direction.clone(),
        state: state.to_owned(),
        created_at: batch.created_at,
        completed_at: Some(now),
        total_bytes: batch.total_bytes,
        total_entries: batch.total_entries,
        warning_count: batch.warning_count,
        wait_for_available: batch.wait_for_available,
    }
}

/// The target record once the batch finished in `state` for it, with the
/// error code `error_code`.
pub fn target_finished(target: &crate::records::BatchTarget, state: &str, error_code: Option<&str>) -> (t: crate::records::BatchTarget)
    ensures
        t.id@ == target.id@,
        t.batch_id@ == target.batch_id@,
        t.peer_device_id@ == target.peer_device_id@,
        t.state@ == state@,
        t.acknowledged_bytes == target.acknowledged_bytes,
        match error_code {
            Some(code) => t.error_code matches Some(e) && e@ == code@,
            None => t.error_code is None,
        },
        t.retry_at == target.retry_at,
        t.retry_count == target.retry_count,
        t.wait_for_available == target.wait_for_available,
{
    crate::records::BatchTarget {
        id: target.id.clone(),
        batch_id: target.batch_id.clone(),
        peer_device_id: target.peer_device_id.clone(),
        state: state.to_owned(),
        acknowledged_bytes: target.acknowledged_bytes,
        error_code: match error_code {
            Some(code) => Some(code.to_owned()),
            None => None,
        },
        retry_at: target.retry_at,
        retry_count: target.retry_count,
        wait_for_available: target.wait_for_available,
    }
}

/// The item record once its batch finished in `state`.
pub fn item_finished(item: &TransferItem, state: &str) -> (i: TransferItem)
    ensures
        i.id@ == item.id@,
        i.batch_id@ == item.batch_id@,
        i.parent_item_id == item.parent_item_id,
        i.kind@ == item.kind@,
        i.display_name@ == item.display_name@,
        i.source_path_local == item.source_path_local,
        i.destination_path_local == item.destination_path_local,
        i.size == item.size,
        i.mtime == item.mtime,
        i.state@ == state@,
        i.warning_json == item.warning_json,
{
    TransferItem {
        id: item.id.clone(),
        batch_id: item.batch_id.clone(),
        parent_item_id: item.parent_item_id.clone(),
        kind: item.kind.clone(),
        display_name: item.display_name.clone(),
        source_path_local: item.source_path_local.clone(),
        destination_path_local: item.destination_path_local.clone(),
        size: item.size,
        mtime: item.mtime,
        state: state.to_owned(),
        warning_json: item.warning_json.clone(),
    }
}

} // verus!
