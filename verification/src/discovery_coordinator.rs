//! What discovery keeps: which trusted peers are online, which untrusted
//! devices are nearby, what this device advertises, and the state and
//! recent errors of the platform service.  Discovery is an unauthenticated
//! hint: a record makes a trusted peer online only when its device ID and
//! certificate pin match the durable record exactly, and it never grants
//! trust by itself.  Looking trusted peers up and storing them is the
//! caller's; the platform service is reached through `DiscoveryAdapter`.
use crate::bytes::{bytes_less, id_key, id_number, lex_less, read_be_u32, u32_of_be};
use crate::discovery::{copy_record, DiscoveryRecord, DiscoveryRecordView};
use crate::engine::{
    is_loopback_or_private, is_unspecified, loopback_or_private, unspecified, v4_private, validate_manual_endpoint, IpAddress,
    SocketAddress,
};
use crate::pairing::{fingerprint_hex, fingerprint_hex_chars};
use crate::protocol::PROTOCOL_VERSION;
use crate::records::TrustedPeer;
use crate::text::{
    chars_of, lower_all, lowercase_chars, str_equal, string_from_chars, text_less, text_lt, trim, trimmed,
};
use vstd::prelude::*;

verus! {

/// The service type this application advertises under.
pub const SERVICE_TYPE: &'static str = "_fileporter._tcp.local.";

/// Seconds after its last sighting that a peer stops being online and a
/// nearby device is forgotten.
pub const PRESENCE_TTL_SECS: i64 = 90;

/// The most untrusted nearby devices that are remembered.
pub const MAX_NEARBY_CANDIDATES: usize = 64;

/// The most recent error codes that are kept.
pub const MAX_RECENT_ERRORS: usize = 16;

/// `receive-v1`: the device accepts batches.
pub open spec fn receive_capability() -> Seq<char> {
    seq!['r', 'e', 'c', 'e', 'i', 'v', 'e', '-', 'v', '1']
}

/// `pairing-v1`: the device takes part in pairing.
pub open spec fn pairing_capability() -> Seq<char> {
    seq!['p', 'a', 'i', 'r', 'i', 'n', 'g', '-', 'v', '1']
}

pub open spec fn known_capability(c: Seq<char>) -> bool {
    c == receive_capability() || c == pairing_capability()
}

/// The capabilities this device advertises.
pub fn advertised_capabilities() -> (caps: Vec<String>)
    ensures
        crate::transfer::views(caps@) == seq![receive_capability(), pairing_capability()],
{
    proof {
        reveal_strlit("receive-v1");
        reveal_strlit("pairing-v1");
        assert("receive-v1"@ =~= receive_capability());
        assert("pairing-v1"@ =~= pairing_capability());
    }
    let mut caps: Vec<String> = Vec::new();
    caps.push("receive-v1".to_owned());
    caps.push("pairing-v1".to_owned());
    assert(crate::transfer::views(caps@) =~= seq![receive_capability(), pairing_capability()]);
    caps
}

/// A certificate pin as it is compared: trimmed, without a leading
/// `blake3:`, in ASCII lower case.
pub open spec fn normalized_pin(pin: Seq<char>) -> Seq<char> {
    lower_all(fingerprint_hex(pin))
}

/// Normalizes a certificate pin for comparison.
pub fn normalize_pin(pin: &str) -> (normal: String)
    ensures
        normal@ == normalized_pin(pin@),
{
    let hex = fingerprint_hex_chars(pin);
    let lowered = lowercase_chars(&hex);
    string_from_chars(&lowered)
}

/// A record worth looking at: this protocol version, a device ID of 1 to
/// 128 bytes, a name that is not blank and of at most 128 bytes, only known
/// capabilities and among them receiving, a pin of 64 characters of
/// hexadecimal length, and a loopback or private endpoint with a port.
pub open spec fn record_valid(r: DiscoveryRecordView) -> bool {
    &&& r.protocol_version == PROTOCOL_VERSION
    &&& r.device_id.len() > 0
    &&& vstd::utf8::encode_utf8(r.device_id).len() <= 128
    &&& trimmed(r.device_name).len() > 0
    &&& vstd::utf8::encode_utf8(r.device_name).len() <= 128
    &&& forall|i: int| 0 <= i < r.capabilities.len() ==> known_capability(#[trigger] r.capabilities[i])
    &&& r.capabilities.contains(receive_capability())
    &&& vstd::utf8::encode_utf8(normalized_pin(r.certificate_fingerprint)).len() == 64
    &&& r.endpoint.port != 0
    &&& loopback_or_private(r.endpoint.ip)
}

fn capabilities_ok(caps: &Vec<String>) -> (ok: bool)
    ensures
        ok == ({
            let vs = crate::transfer::views(caps@);
            (forall|i: int| 0 <= i < vs.len() ==> known_capability(#[trigger] vs[i])) && vs.contains(
                receive_capability(),
            )
        }),
{
    proof {
        reveal_strlit("receive-v1");
        reveal_strlit("pairing-v1");
        assert("receive-v1"@ =~= receive_capability());
        assert("pairing-v1"@ =~= pairing_capability());
    }
    let ghost vs = crate::transfer::views(caps@);
    let mut all_known = true;
    let mut any_receive = false;
    let mut i: usize = 0;
    while i < caps.len()
        invariant
            i <= caps@.len(),
            vs == crate::transfer::views(caps@),
            "receive-v1"@ == receive_capability(),
            "pairing-v1"@ == pairing_capability(),
            all_known == forall|j: int| 0 <= j < i ==> known_capability(#[trigger] vs[j]),
            any_receive == exists|j: int| 0 <= j < i && #[trigger] vs[j] == receive_capability(),
        decreases caps@.len() - i,
    {
        let is_receive = str_equal(caps[i].as_str(), "receive-v1");
        let is_pairing = str_equal(caps[i].as_str(), "pairing-v1");
        proof {
            assert(vs[i as int] == caps@[i as int]@);
        }
        if !(is_receive || is_pairing) {
            all_known = false;
        }
        if is_receive {
            any_receive = true;
        }
        i = i + 1;
    }
    ok_from(all_known, any_receive)
}

fn ok_from(a: bool, b: bool) -> (c: bool)
    ensures
        c == (a && b),
{
    a && b
}

/// Whether a record is worth looking at, as `record_valid` says.
pub fn valid_record(record: &DiscoveryRecord) -> (valid: bool)
    ensures
        valid == record_valid(record@),
{
    if record.protocol_version != PROTOCOL_VERSION {
        return false;
    }
    if record.device_id.as_str().unicode_len() == 0 || record.device_id.as_str().as_bytes().len() > 128 {
        return false;
    }
    let name = trim(record.device_name.as_str());
    if name.as_str().unicode_len() == 0 || record.device_name.as_str().as_bytes().len() > 128 {
        return false;
    }
    if !capabilities_ok(&record.capabilities) {
        return false;
    }
    let pin = normalize_pin(record.certificate_fingerprint.as_str());
    if pin.as_str().as_bytes().len() != 64 {
        return false;
    }
    validate_manual_endpoint(Some(record.endpoint)).is_ok()
}

/// The order of socket addresses: IPv4 before IPv6, then the address
/// octet by octet, then the port.
pub open spec fn endpoint_less(a: SocketAddress, b: SocketAddress) -> bool {
    match (a.ip, b.ip) {
        (IpAddress::V4(x), IpAddress::V4(y)) => lex_less(x@, y@) || (x@ == y@ && a.port < b.port),
        (IpAddress::V6(x), IpAddress::V6(y)) => lex_less(x@, y@) || (x@ == y@ && a.port < b.port),
        (IpAddress::V4(_), IpAddress::V6(_)) => true,
        (IpAddress::V6(_), IpAddress::V4(_)) => false,
    }
}

fn endpoint_lt(a: SocketAddress, b: SocketAddress) -> (less: bool)
    ensures
        less == endpoint_less(a, b),
{
    match (a.ip, b.ip) {
        (IpAddress::V4(x), IpAddress::V4(y)) => bytes_less(&x, &y) || (crate::bytes::bytes_equal(&x, &y) && a.port
            < b.port),
        (IpAddress::V6(x), IpAddress::V6(y)) => bytes_less(&x, &y) || (crate::bytes::bytes_equal(&x, &y) && a.port
            < b.port),
        (IpAddress::V4(_), IpAddress::V6(_)) => true,
        (IpAddress::V6(_), IpAddress::V4(_)) => false,
    }
}

/// The order records are looked at in: by device ID, then by endpoint.
pub open spec fn record_less(a: DiscoveryRecordView, b: DiscoveryRecordView) -> bool {
    text_less(a.device_id, b.device_id) || (a.device_id == b.device_id && endpoint_less(a.endpoint, b.endpoint))
}

fn record_lt(a: &DiscoveryRecord, b: &DiscoveryRecord) -> (less: bool)
    ensures
        less == record_less(a@, b@),
{
    let x = chars_of(a.device_id.as_str());
    let y = chars_of(b.device_id.as_str());
    text_lt(&x, &y) || (crate::text::chars_equal(&x, &y) && endpoint_lt(a.endpoint, b.endpoint))
}

pub open spec fn record_views(s: Seq<DiscoveryRecord>) -> Seq<DiscoveryRecordView> {
    s.map_values(|r: DiscoveryRecord| r@)
}

/// `sorted` with `r` placed after every record that does not come after it.
pub open spec fn insert_record(sorted: Seq<DiscoveryRecordView>, r: DiscoveryRecordView) -> Seq<DiscoveryRecordView>
    decreases sorted.len(),
{
    if sorted.len() == 0 {
        seq![r]
    } else if !record_less(r, sorted.last()) {
        sorted.push(r)
    } else {
        insert_record(sorted.drop_last(), r).push(sorted.last())
    }
}

/// `records` in the order they are looked at; records that tie keep their
/// order.
pub open spec fn observation_order_of(records: Seq<DiscoveryRecordView>) -> Seq<DiscoveryRecordView>
    decreases records.len(),
{
    if records.len() == 0 {
        records
    } else {
        insert_record(observation_order_of(records.drop_last()), records.last())
    }
}

proof fn lemma_insert_record_at(sorted: Seq<DiscoveryRecordView>, r: DiscoveryRecordView, j: int)
    requires
        0 <= j <= sorted.len(),
        forall|k: int| j <= k < sorted.len() ==> record_less(r, #[trigger] sorted[k]),
        j > 0 ==> !record_less(r, sorted[j - 1]),
    ensures
        insert_record(sorted, r) == sorted.insert(j, r),
    decreases sorted.len(),
{
    if sorted.len() == 0 {
        assert(sorted.insert(j, r) =~= seq![r]);
    } else if j == sorted.len() {
        assert(sorted.insert(j, r) =~= sorted.push(r));
    } else {
        assert(record_less(r, sorted[sorted.len() - 1]));
        lemma_insert_record_at(sorted.drop_last(), r, j);
        assert(sorted.insert(j, r) =~= sorted.drop_last().insert(j, r).push(sorted.last()));
    }
}

/// The browsed records in the order they are looked at.
pub fn observation_order(records: &Vec<DiscoveryRecord>) -> (ordered: Vec<DiscoveryRecord>)
    ensures
        record_views(ordered@) == observation_order_of(record_views(records@)),
{
    let ghost all = record_views(records@);
    let mut sorted: Vec<DiscoveryRecord> = Vec::new();
    let mut i: usize = 0;
    assert(all.subrange(0, 0) =~= Seq::<DiscoveryRecordView>::empty());
    while i < records.len()
        invariant
            i <= records@.len(),
            all == record_views(records@),
            record_views(sorted@) == observation_order_of(all.subrange(0, i as int)),
        decreases records@.len() - i,
    {
        let r = copy_record(&records[i]);
        let ghost before = record_views(sorted@);
        let mut j: usize = sorted.len();
        while j > 0 && record_lt(&r, &sorted[j - 1])
            invariant
                j <= sorted@.len(),
                before == record_views(sorted@),
                forall|k: int| j <= k < sorted@.len() ==> record_less(r@, #[trigger] before[k]),
            decreases j,
        {
            j = j - 1;
        }
        proof {
            if j > 0 {
                assert(!record_less(r@, before[j - 1]));
            }
            lemma_insert_record_at(before, r@, j as int);
        }
        sorted.insert(j, r);
        assert(record_views(sorted@) =~= before.insert(j as int, r@));
        let ghost prefix = all.subrange(0, i + 1);
        assert(prefix.drop_last() =~= all.subrange(0, i as int));
        assert(prefix.last() == r@);
        i = i + 1;
    }
    assert(all.subrange(0, i as int) =~= all);
    sorted
}


/// Where an address ranks as an endpoint to dial, lower first: private
/// IPv4 addresses, nearest first to this device's own IPv4 address (by the
/// exclusive or of the two); then IPv6 addresses, nearest first to its own
/// IPv6 address; then the other accepted IPv4 addresses.
pub open spec fn lan_rank(address: IpAddress, local: Option<IpAddress>) -> (int, int) {
    match address {
        IpAddress::V4(o) => if v4_private(o@) {
            (
                0,
                match local {
                    Some(IpAddress::V4(l)) => (u32_of_be(o@) ^ u32_of_be(l@)) as int,
                    _ => u32::MAX as int,
                },
            )
        } else {
            (2, u128::MAX as int)
        },
        IpAddress::V6(o) => (
            1,
            match local {
                Some(IpAddress::V6(l)) => ((id_number(o@) as u128) ^ (id_number(l@) as u128)) as int,
                _ => u128::MAX as int,
            },
        ),
    }
}

pub open spec fn rank_less(a: (int, int), b: (int, int)) -> bool {
    a.0 < b.0 || (a.0 == b.0 && a.1 < b.1)
}

/// Of `addresses`, in the order given, the first loopback or private one
/// of lowest rank.
pub open spec fn preferred_address(addresses: Seq<IpAddress>, local: Option<IpAddress>) -> Option<IpAddress>
    decreases addresses.len(),
{
    if addresses.len() == 0 {
        None
    } else {
        let rest = preferred_address(addresses.drop_last(), local);
        let x = addresses.last();
        if !loopback_or_private(x) {
            rest
        } else {
            match rest {
                None => Some(x),
                Some(r) => if rank_less(lan_rank(x, local), lan_rank(r, local)) {
                    Some(x)
                } else {
                    Some(r)
                },
            }
        }
    }
}

/// The address this device uses on the LAN, from the local address the
/// system routes through: only a private IPv4 address counts.
pub open spec fn primary_lan(route_local: Option<IpAddress>) -> Option<IpAddress> {
    match route_local {
        Some(IpAddress::V4(o)) => if v4_private(o@) {
            route_local
        } else {
            None
        },
        _ => None,
    }
}

fn rank_of(address: IpAddress, local: Option<IpAddress>) -> (rank: (u8, u128))
    ensures
        (rank.0 as int, rank.1 as int) == lan_rank(address, local),
{
    match address {
        IpAddress::V4(o) => if crate::engine::is_loopback_or_private(address) && !(o[0] == 127) {
            let distance: u128 = match local {
                Some(IpAddress::V4(l)) => (read_be_u32(&o, 0) ^ read_be_u32(&l, 0)) as u128,
                _ => u32::MAX as u128,
            };
            proof {
                assert(o@.subrange(0, 4) =~= o@);
                if let Some(IpAddress::V4(l)) = local {
                    assert(l@.subrange(0, 4) =~= l@);
                }
            }
            (0, distance)
        } else {
            (2, u128::MAX)
        },
        IpAddress::V6(o) => {
            let distance: u128 = match local {
                Some(IpAddress::V6(l)) => id_key(&o) ^ id_key(&l),
                _ => u128::MAX,
            };
            (1, distance)
        },
    }
}

/// The endpoint to dial among the addresses a service resolved to, in the
/// order they were listed, given this device's own address `local`: none
/// without a port.
pub fn preferred_lan_endpoint_for_local(addresses: &Vec<IpAddress>, port: u16, local: Option<IpAddress>) -> (endpoint:
    Option<SocketAddress>)
    ensures
        endpoint == if port == 0 {
            None
        } else {
            match preferred_address(addresses@, local) {
                Some(a) => Some(SocketAddress { ip: a, port }),
                None => None,
            }
        },
{
    if port == 0 {
        return None;
    }
    let mut best: Option<(IpAddress, (u8, u128))> = None;
    let mut i: usize = 0;
    while i < addresses.len()
        invariant
            i <= addresses@.len(),
            match best {
                Some((a, r)) => preferred_address(addresses@.subrange(0, i as int), local) == Some(a) && (
                r.0 as int,
                r.1 as int,
            ) == lan_rank(a, local),
                None => preferred_address(addresses@.subrange(0, i as int), local) is None,
            },
        decreases addresses@.len() - i,
    {
        let x = addresses[i];
        let ghost prefix = addresses@.subrange(0, i + 1);
        assert(prefix.drop_last() =~= addresses@.subrange(0, i as int));
        assert(prefix.last() == x);
        if is_loopback_or_private(x) {
            let rank = rank_of(x, local);
            match best {
                None => {
                    best = Some((x, rank));
                },
                Some((_, r)) => {
                    if rank.0 < r.0 || (rank.0 == r.0 && rank.1 < r.1) {
                        best = Some((x, rank));
                    }
                },
            }
        }
        i = i + 1;
    }
    assert(addresses@.subrange(0, i as int) =~= addresses@);
    match best {
        Some((a, _)) => Some(SocketAddress { ip: a, port }),
        None => None,
    }
}

/// The endpoint to dial among the addresses a service resolved to, ranked
/// by nearness to this device's primary LAN address; `route_local` is the
/// local address the system routes through, if it could tell.
pub fn preferred_lan_endpoint(addresses: &Vec<IpAddress>, port: u16, route_local: Option<IpAddress>) -> (endpoint:
    Option<SocketAddress>)
    ensures
        endpoint == if port == 0 {
            None
        } else {
            match preferred_address(addresses@, primary_lan(route_local)) {
                Some(a) => Some(SocketAddress { ip: a, port }),
                None => None,
            }
        },
{
    let primary = match route_local {
        Some(IpAddress::V4(o)) => if is_loopback_or_private(IpAddress::V4(o)) && o[0] != 127 {
            route_local
        } else {
            None
        },
        _ => None,
    };
    preferred_lan_endpoint_for_local(addresses, port, primary)
}

/// The endpoint peers should dial for a listener bound at `bound`: the bound
/// address itself when it is a specific loopback or private one, nothing
/// when it is public; for a bind on all interfaces, the primary LAN address
/// (from `route_local`, as for `preferred_lan_endpoint`) with the bound port.
pub fn resolve_advertised_endpoint(bound: SocketAddress, route_local: Option<IpAddress>) -> (endpoint: Option<
    SocketAddress,
>)
    ensures
        endpoint == if !unspecified(bound.ip) {
            if loopback_or_private(bound.ip) {
                Some(bound)
            } else {
                None
            }
        } else {
            match primary_lan(route_local) {
                Some(a) => Some(SocketAddress { ip: a, port: bound.port }),
                None => None,
            }
        },
{
    if !is_unspecified(bound.ip) {
        return if is_loopback_or_private(bound.ip) {
            Some(bound)
        } else {
            None
        };
    }
    match route_local {
        Some(IpAddress::V4(o)) => if is_loopback_or_private(IpAddress::V4(o)) && o[0] != 127 {
            Some(SocketAddress { ip: IpAddress::V4(o), port: bound.port })
        } else {
            None
        },
        _ => None,
    }
}

/// When a trusted peer was last seen, and whether it counts as online.
#[derive(Debug, Clone, PartialEq, Eq)]
pub struct Presence {
    pub device_id: String,
    pub online: bool,
    pub last_seen_at: Option<i64>,
}

/// An untrusted device that advertised itself, and when it was last seen.
#[derive(Debug, Clone, PartialEq, Eq)]
pub struct NearbyCandidate {
    pub record: DiscoveryRecord,
    pub last_seen_at: i64,
}

/// The state of the platform discovery service.
#[derive(Debug, Clone, Copy, PartialEq, Eq, Structural)]
pub enum MdnsState {
    Disabled,
    Starting,
    Advertising,
    Browsing,
    Error,
}

/// The text of each `MdnsState`.
pub open spec fn mdns_state_text(value: MdnsState) -> &'static str {
    match value {
        MdnsState::Disabled => "disabled",
        MdnsState::Starting => "starting",
        MdnsState::Advertising => "advertising",
        MdnsState::Browsing => "browsing",
        MdnsState::Error => "error",
    }
}

impl MdnsState {
    /// The state's name as the interface shows it.
    pub fn as_str(self) -> (name: &'static str)
        ensures
            name == mdns_state_text(self),
    {
        match self {
            MdnsState::Disabled => "disabled",
            MdnsState::Starting => "starting",
            MdnsState::Advertising => "advertising",
            MdnsState::Browsing => "browsing",
            MdnsState::Error => "error",
        }
    }
}

/// The platform discovery service: it publishes this device's record,
/// withdraws it, and lists the records it currently sees.  Nothing is
/// promised of what it answers.
pub trait DiscoveryAdapter {
    fn publish(&mut self, record: &DiscoveryRecord) -> Result<(), String>;

    fn withdraw(&mut self) -> Result<(), String>;

    fn browse(&mut self) -> Result<Vec<DiscoveryRecord>, String>;
}

/// What looking at one record decided.  `Persist` carries the trusted peer,
/// stamped as seen now, and the endpoint whose text the caller stores with
/// it before calling `record_trusted_presence`.
#[derive(Debug, Clone, PartialEq, Eq)]
pub enum Observation {
    Rejected,
    Nearby,
    Persist(TrustedPeer, SocketAddress),
}

pub open spec fn candidate_views(s: Seq<NearbyCandidate>) -> Seq<(DiscoveryRecordView, i64)> {
    s.map_values(|c: NearbyCandidate| (c.record@, c.last_seen_at))
}

pub open spec fn presence_views(s: Seq<Presence>) -> Seq<(Seq<char>, bool, Option<i64>)> {
    s.map_values(|p: Presence| (p.device_id@, p.online, p.last_seen_at))
}

/// The coordinator as plain values.
pub struct DiscoveryModel<A> {
    pub adapter: A,
    pub advertised: Option<DiscoveryRecordView>,
    pub presence: Seq<(Seq<char>, bool, Option<i64>)>,
    pub nearby: Seq<(DiscoveryRecordView, i64)>,
    pub state: MdnsState,
    pub errors: Seq<Seq<char>>,
}

/// The nearby devices: at most 64, each a valid record, no device twice.
pub open spec fn nearby_ok(n: Seq<(DiscoveryRecordView, i64)>) -> bool {
    &&& n.len() <= MAX_NEARBY_CANDIDATES
    &&& forall|i: int| 0 <= i < n.len() ==> record_valid(#[trigger] n[i].0)
    &&& forall|i: int, j: int|
        0 <= i < n.len() && 0 <= j < n.len() && i != j ==> (#[trigger] n[i]).0.device_id != (#[trigger] n[j]).0.device_id
}

/// The presence entries: no device twice.
pub open spec fn presence_ok(p: Seq<(Seq<char>, bool, Option<i64>)>) -> bool {
    forall|i: int, j: int| 0 <= i < p.len() && 0 <= j < p.len() && i != j ==> (#[trigger] p[i]).0 != (#[trigger] p[j]).0
}

/// The recent errors: at most 16, no code twice in a row.
pub open spec fn errors_ok(e: Seq<Seq<char>>) -> bool {
    &&& e.len() <= MAX_RECENT_ERRORS
    &&& forall|i: int, j: int| 0 <= i && j == i + 1 && j < e.len() ==> #[trigger] e[i] != #[trigger] e[j]
}

pub open spec fn model_ok<A>(m: DiscoveryModel<A>) -> bool {
    nearby_ok(m.nearby) && presence_ok(m.presence) && errors_ok(m.errors)
}

/// Where the nearby device `id` is kept, if it is.
pub open spec fn nearby_index(n: Seq<(DiscoveryRecordView, i64)>, id: Seq<char>) -> Option<int> {
    if exists|i: int| 0 <= i < n.len() && (#[trigger] n[i]).0.device_id == id {
        Some(choose|i: int| 0 <= i < n.len() && (#[trigger] n[i]).0.device_id == id)
    } else {
        None
    }
}

/// Where the presence of `id` is kept, if it is.
pub open spec fn presence_index(p: Seq<(Seq<char>, bool, Option<i64>)>, id: Seq<char>) -> Option<int> {
    if exists|i: int| 0 <= i < p.len() && (#[trigger] p[i]).0 == id {
        Some(choose|i: int| 0 <= i < p.len() && (#[trigger] p[i]).0 == id)
    } else {
        None
    }
}

/// The nearby devices after an untrusted record is seen at `now`: `None`
/// when it is refused, because a device with its ID was seen with another
/// pin, or because there is no room for another device.
pub open spec fn nearby_with(n: Seq<(DiscoveryRecordView, i64)>, r: DiscoveryRecordView, now: i64) -> Option<
    Seq<(DiscoveryRecordView, i64)>,
> {
    match nearby_index(n, r.device_id) {
        Some(i) => if normalized_pin(n[i].0.certificate_fingerprint) != normalized_pin(r.certificate_fingerprint) {
            None
        } else {
            Some(n.update(i, (r, now)))
        },
        None => if n.len() >= MAX_NEARBY_CANDIDATES {
            None
        } else {
            Some(n.push((r, now)))
        },
    }
}

/// The nearby devices without `id`.
pub open spec fn nearby_without(n: Seq<(DiscoveryRecordView, i64)>, id: Seq<char>) -> Seq<(DiscoveryRecordView, i64)> {
    match nearby_index(n, id) {
        Some(i) => n.remove(i),
        None => n,
    }
}

/// The presence entries after `id` was seen online at `now`.
pub open spec fn presence_with(p: Seq<(Seq<char>, bool, Option<i64>)>, id: Seq<char>, now: i64) -> Seq<
    (Seq<char>, bool, Option<i64>),
> {
    match presence_index(p, id) {
        Some(i) => p.update(i, (id, true, Some(now))),
        None => p.push((id, true, Some(now))),
    }
}

pub open spec fn text_option(o: Option<String>) -> Option<Seq<char>> {
    match o {
        Some(s) => Some(s@),
        None => None,
    }
}

/// `p` is `peer` stamped as seen at `now`.
pub open spec fn seen_peer(p: TrustedPeer, peer: TrustedPeer, now: i64) -> bool {
    &&& p.device_id@ == peer.device_id@
    &&& p.public_key@ == peer.public_key@
    &&& p.certificate_fingerprint@ == peer.certificate_fingerprint@
    &&& p.remote_name@ == peer.remote_name@
    &&& text_option(p.local_alias) == text_option(peer.local_alias)
    &&& p.paired_at == peer.paired_at
    &&& p.last_seen_at == Some(now)
    &&& p.auto_send == peer.auto_send
    &&& p.revoked_at == peer.revoked_at
    &&& text_option(p.endpoint) == text_option(peer.endpoint)
}

/// A trusted peer's presence after expiry at `now`: offline once it was
/// last seen 90 seconds or more ago.
pub open spec fn presence_expired(x: (Seq<char>, bool, Option<i64>), now: i64) -> (Seq<char>, bool, Option<i64>) {
    match x.2 {
        Some(seen) => if now - seen >= PRESENCE_TTL_SECS {
            (x.0, false, x.2)
        } else {
            x
        },
        None => x,
    }
}

/// Every trusted peer's presence after expiry at `now`.
pub open spec fn presence_after_expiry(p: Seq<(Seq<char>, bool, Option<i64>)>, now: i64) -> Seq<(Seq<char>, bool, Option<i64>)> {
    p.map_values(|x: (Seq<char>, bool, Option<i64>)| presence_expired(x, now))
}

/// The nearby devices seen less than 90 seconds before `now`, in order.
pub open spec fn fresh_candidates(n: Seq<(DiscoveryRecordView, i64)>, now: i64) -> Seq<(DiscoveryRecordView, i64)>
    decreases n.len(),
{
    if n.len() == 0 {
        n
    } else if now - n.last().1 < PRESENCE_TTL_SECS {
        fresh_candidates(n.drop_last(), now).push(n.last())
    } else {
        fresh_candidates(n.drop_last(), now)
    }
}

/// The recent errors after `code` is reported: unchanged when it repeats
/// the latest, else appended, the oldest dropped beyond 16.
pub open spec fn errors_after(e: Seq<Seq<char>>, code: Seq<char>) -> Seq<Seq<char>> {
    if e.len() > 0 && e.last() == code {
        e
    } else if e.len() + 1 > MAX_RECENT_ERRORS {
        e.push(code).drop_first()
    } else {
        e.push(code)
    }
}

pub open spec fn record_option(o: Option<DiscoveryRecord>) -> Option<DiscoveryRecordView> {
    match o {
        Some(r) => Some(r@),
        None => None,
    }
}

/// The service state and recent errors once this device's record is
/// brought up to date: the state starts as `Starting` when there is a
/// record to advertise and `Disabled` when not; when the record changed, a
/// failed withdrawal of the old one or a failed publication of the new one
/// sets the error state and records its code.
pub open spec fn advertising_outcome(
    has_local: bool,
    changed: bool,
    had: bool,
    withdraw_failed: bool,
    publish_failed: bool,
    errors: Seq<Seq<char>>,
) -> (MdnsState, Seq<Seq<char>>) {
    let start = if has_local { MdnsState::Starting } else { MdnsState::Disabled };
    if !changed {
        (start, errors)
    } else {
        let first = if had && withdraw_failed {
            (MdnsState::Error, errors_after(errors, "mdns_withdraw_failed"@))
        } else {
            (start, errors)
        };
        if has_local && publish_failed {
            (MdnsState::Error, errors_after(first.1, "mdns_publish_failed"@))
        } else {
            first
        }
    }
}

/// The service state and recent errors after a browse: `browsed` is what it
/// listed, `None` when it failed, which sets the error state and records
/// `mdns_browse_failed`; a success moves to `target` unless an earlier step
/// failed.
pub open spec fn browse_outcome(
    state: MdnsState,
    errors: Seq<Seq<char>>,
    browsed: Option<Seq<DiscoveryRecordView>>,
    target: MdnsState,
) -> (MdnsState, Seq<Seq<char>>) {
    match browsed {
        Some(_) => (if state == MdnsState::Error { state } else { target }, errors),
        None => (MdnsState::Error, errors_after(errors, "mdns_browse_failed"@)),
    }
}

/// The records handed back after a browse: those listed, in the order they
/// are looked at, or none when the browse failed.
pub open spec fn browsed_records(browsed: Option<Seq<DiscoveryRecordView>>) -> Seq<DiscoveryRecordView> {
    match browsed {
        Some(b) => observation_order_of(b),
        None => Seq::empty(),
    }
}

/// A reconciliation from `before` to the state `state` and errors `errors`,
/// handing back `records`, with the given answers of the service.
pub open spec fn reconcile_outcome<A>(
    before: DiscoveryModel<A>,
    local: Option<DiscoveryRecordView>,
    state: MdnsState,
    errors: Seq<Seq<char>>,
    records: Seq<DiscoveryRecordView>,
    withdraw_failed: bool,
    publish_failed: bool,
    browsed: Option<Seq<DiscoveryRecordView>>,
) -> bool {
    let changed = before.advertised != local;
    let first = advertising_outcome(
        local is Some,
        changed,
        before.advertised is Some,
        withdraw_failed,
        publish_failed,
        before.errors,
    );
    let target = if local is Some { MdnsState::Advertising } else { MdnsState::Browsing };
    &&& withdraw_failed ==> changed && before.advertised is Some
    &&& publish_failed ==> changed && local is Some
    &&& browse_outcome(first.0, first.1, browsed, target) == (state, errors)
    &&& records == browsed_records(browsed)
}

fn strings_equal(a: &Vec<String>, b: &Vec<String>) -> (equal: bool)
    ensures
        equal == (crate::transfer::views(a@) == crate::transfer::views(b@)),
{
    let ghost x = crate::transfer::views(a@);
    let ghost y = crate::transfer::views(b@);
    if a.len() != b.len() {
        assert(x.len() != y.len());
        return false;
    }
    let mut i: usize = 0;
    while i < a.len()
        invariant
            i <= a@.len(),
            a@.len() == b@.len(),
            x == crate::transfer::views(a@),
            y == crate::transfer::views(b@),
            forall|k: int| 0 <= k < i ==> x[k] == y[k],
        decreases a@.len() - i,
    {
        if !str_equal(a[i].as_str(), b[i].as_str()) {
            assert(x[i as int] != y[i as int]);
            return false;
        }
        i = i + 1;
    }
    assert(x =~= y);
    true
}

fn endpoints_equal(a: SocketAddress, b: SocketAddress) -> (equal: bool)
    ensures
        equal == (a == b),
{
    let same = crate::listener_lifecycle::ip_equal(a.ip, b.ip) && a.port == b.port;
    proof {
        broadcast use vstd::array::group_array_axioms;
        match (a.ip, b.ip) {
            (IpAddress::V4(x), IpAddress::V4(y)) => {
                if x@ == y@ {
                    assert(x =~= y);
                }
            },
            (IpAddress::V6(x), IpAddress::V6(y)) => {
                if x@ == y@ {
                    assert(x =~= y);
                }
            },
            _ => {},
        }
    }
    same
}

/// Whether two records are the same.
pub fn records_equal(a: &DiscoveryRecord, b: &DiscoveryRecord) -> (equal: bool)
    ensures
        equal == (a@ == b@),
{
    str_equal(a.device_id.as_str(), b.device_id.as_str()) && str_equal(a.device_name.as_str(), b.device_name.as_str())
        && endpoints_equal(a.endpoint, b.endpoint) && str_equal(
        a.certificate_fingerprint.as_str(),
        b.certificate_fingerprint.as_str(),
    ) && a.protocol_version == b.protocol_version && strings_equal(&a.capabilities, &b.capabilities)
}

fn same_advertisement(a: &Option<DiscoveryRecord>, b: &Option<DiscoveryRecord>) -> (same: bool)
    ensures
        same == (record_option(*a) == record_option(*b)),
{
    match (a, b) {
        (Some(x), Some(y)) => records_equal(x, y),
        (None, None) => true,
        _ => false,
    }
}

/// `sorted` with `c` placed after every candidate whose device ID does not
/// come after its own.
pub open spec fn insert_candidate(sorted: Seq<(DiscoveryRecordView, i64)>, c: (DiscoveryRecordView, i64)) -> Seq<
    (DiscoveryRecordView, i64),
>
    decreases sorted.len(),
{
    if sorted.len() == 0 {
        seq![c]
    } else if !text_less(c.0.device_id, sorted.last().0.device_id) {
        sorted.push(c)
    } else {
        insert_candidate(sorted.drop_last(), c).push(sorted.last())
    }
}

/// The nearby devices ordered by device ID.
pub open spec fn by_device_id(n: Seq<(DiscoveryRecordView, i64)>) -> Seq<(DiscoveryRecordView, i64)>
    decreases n.len(),
{
    if n.len() == 0 {
        n
    } else {
        insert_candidate(by_device_id(n.drop_last()), n.last())
    }
}

proof fn lemma_insert_candidate_at(sorted: Seq<(DiscoveryRecordView, i64)>, c: (DiscoveryRecordView, i64), j: int)
    requires
        0 <= j <= sorted.len(),
        forall|k: int| j <= k < sorted.len() ==> text_less(c.0.device_id, (#[trigger] sorted[k]).0.device_id),
        j > 0 ==> !text_less(c.0.device_id, sorted[j - 1].0.device_id),
    ensures
        insert_candidate(sorted, c) == sorted.insert(j, c),
    decreases sorted.len(),
{
    if sorted.len() == 0 {
        assert(sorted.insert(j, c) =~= seq![c]);
    } else if j == sorted.len() {
        assert(sorted.insert(j, c) =~= sorted.push(c));
    } else {
        assert(text_less(c.0.device_id, sorted[sorted.len() - 1].0.device_id));
        lemma_insert_candidate_at(sorted.drop_last(), c, j);
        assert(sorted.insert(j, c) =~= sorted.drop_last().insert(j, c).push(sorted.last()));
    }
}

/// Keeps discovery state between polls of the platform service.
pub struct DiscoveryCoordinator<A: DiscoveryAdapter> {
    adapter: A,
    advertised: Option<DiscoveryRecord>,
    presence: Vec<Presence>,
    nearby: Vec<NearbyCandidate>,
    state: MdnsState,
    errors: Vec<String>,
}

impl<A: DiscoveryAdapter> View for DiscoveryCoordinator<A> {
    type V = DiscoveryModel<A>;

    closed spec fn view(&self) -> DiscoveryModel<A> {
        DiscoveryModel {
            adapter: self.adapter,
            advertised: record_option(self.advertised),
            presence: presence_views(self.presence@),
            nearby: candidate_views(self.nearby@),
            state: self.state,
            errors: crate::transfer::views(self.errors@),
        }
    }
}

fn find_nearby(v: &Vec<NearbyCandidate>, id: &str) -> (found: Option<usize>)
    requires
        nearby_ok(candidate_views(v@)),
    ensures
        match found {
            Some(i) => nearby_index(candidate_views(v@), id@) == Some(i as int) && i < v@.len(),
            None => nearby_index(candidate_views(v@), id@) is None,
        },
{
    let ghost n = candidate_views(v@);
    let mut i: usize = 0;
    while i < v.len()
        invariant
            i <= v@.len(),
            n == candidate_views(v@),
            nearby_ok(n),
            forall|k: int| 0 <= k < i ==> (#[trigger] n[k]).0.device_id != id@,
        decreases v@.len() - i,
    {
        if str_equal(v[i].record.device_id.as_str(), id) {
            proof {
                assert(n[i as int] == (v@[i as int].record@, v@[i as int].last_seen_at));
                assert(n[i as int].0.device_id == id@);
                let c = choose|k: int| 0 <= k < n.len() && (#[trigger] n[k]).0.device_id == id@;
                assert(c == i) by {
                    if c != i {
                        assert(n[c].0.device_id != n[i as int].0.device_id);
                    }
                }
            }
            return Some(i);
        }
        i = i + 1;
    }
    None
}

fn find_presence(v: &Vec<Presence>, id: &str) -> (found: Option<usize>)
    requires
        presence_ok(presence_views(v@)),
    ensures
        match found {
            Some(i) => presence_index(presence_views(v@), id@) == Some(i as int) && i < v@.len(),
            None => presence_index(presence_views(v@), id@) is None,
        },
{
    let ghost p = presence_views(v@);
    let mut i: usize = 0;
    while i < v.len()
        invariant
            i <= v@.len(),
            p == presence_views(v@),
            presence_ok(p),
            forall|k: int| 0 <= k < i ==> (#[trigger] p[k]).0 != id@,
        decreases v@.len() - i,
    {
        if str_equal(v[i].device_id.as_str(), id) {
            proof {
                assert(p[i as int] == (v@[i as int].device_id@, v@[i as int].online, v@[i as int].last_seen_at));
                assert(p[i as int].0 == id@);
                let c = choose|k: int| 0 <= k < p.len() && (#[trigger] p[k]).0 == id@;
                assert(c == i) by {
                    if c != i {
                        assert(p[c].0 != p[i as int].0);
                    }
                }
            }
            return Some(i);
        }
        i = i + 1;
    }
    None
}

fn copy_candidate(c: &NearbyCandidate) -> (d: NearbyCandidate)
    ensures
        d.record@ == c.record@,
        d.last_seen_at == c.last_seen_at,
{
    NearbyCandidate { record: copy_record(&c.record), last_seen_at: c.last_seen_at }
}

fn copy_text_option(o: &Option<String>) -> (c: Option<String>)
    ensures
        text_option(c) == text_option(*o),
{
    match o {
        Some(s) => Some(s.clone()),
        None => None,
    }
}

fn stamped(peer: &TrustedPeer, now: i64) -> (p: TrustedPeer)
    ensures
        seen_peer(p, *peer, now),
{
    let key = crate::bytes::copy_range(peer.public_key.as_slice(), 0, peer.public_key.len());
    assert(key@ =~= peer.public_key@);
    TrustedPeer {
        device_id: peer.device_id.clone(),
        public_key: key,
        certificate_fingerprint: peer.certificate_fingerprint.clone(),
        remote_name: peer.remote_name.clone(),
        local_alias: copy_text_option(&peer.local_alias),
        paired_at: peer.paired_at,
        last_seen_at: Some(now),
        auto_send: peer.auto_send,
        revoked_at: peer.revoked_at,
        endpoint: copy_text_option(&peer.endpoint),
    }
}

proof fn lemma_nearby_update(n: Seq<(DiscoveryRecordView, i64)>, i: int, c: (DiscoveryRecordView, i64))
    requires
        nearby_ok(n),
        0 <= i < n.len(),
        record_valid(c.0),
        c.0.device_id == n[i].0.device_id,
    ensures
        nearby_ok(n.update(i, c)),
{
    let m = n.update(i, c);
    assert forall|a: int, b: int| 0 <= a < m.len() && 0 <= b < m.len() && a != b implies (#[trigger] m[a]).0.device_id
        != (#[trigger] m[b]).0.device_id by {
        assert(n[a].0.device_id != n[b].0.device_id);
    }
}

proof fn lemma_nearby_push(n: Seq<(DiscoveryRecordView, i64)>, c: (DiscoveryRecordView, i64))
    requires
        nearby_ok(n),
        n.len() < MAX_NEARBY_CANDIDATES,
        record_valid(c.0),
        forall|k: int| 0 <= k < n.len() ==> (#[trigger] n[k]).0.device_id != c.0.device_id,
    ensures
        nearby_ok(n.push(c)),
{
    let m = n.push(c);
    assert forall|a: int, b: int| 0 <= a < m.len() && 0 <= b < m.len() && a != b implies (#[trigger] m[a]).0.device_id
        != (#[trigger] m[b]).0.device_id by {
        if a < n.len() && b < n.len() {
            assert(n[a].0.device_id != n[b].0.device_id);
        } else if a < n.len() {
            assert(n[a].0.device_id != c.0.device_id);
        } else {
            assert(n[b].0.device_id != c.0.device_id);
        }
    }
    assert forall|a: int| 0 <= a < m.len() implies record_valid(#[trigger] m[a].0) by {
        if a < n.len() {
            assert(record_valid(n[a].0));
        }
    }
}

proof fn lemma_nearby_remove(n: Seq<(DiscoveryRecordView, i64)>, i: int)
    requires
        nearby_ok(n),
        0 <= i < n.len(),
    ensures
        nearby_ok(n.remove(i)),
{
    let m = n.remove(i);
    assert forall|a: int, b: int| 0 <= a < m.len() && 0 <= b < m.len() && a != b implies (#[trigger] m[a]).0.device_id
        != (#[trigger] m[b]).0.device_id by {
        let x = if a < i { a } else { a + 1 };
        let y = if b < i { b } else { b + 1 };
        assert(m[a] == n[x]);
        assert(m[b] == n[y]);
        assert(n[x].0.device_id != n[y].0.device_id);
    }
    assert forall|a: int| 0 <= a < m.len() implies record_valid(#[trigger] m[a].0) by {
        let x = if a < i { a } else { a + 1 };
        assert(m[a] == n[x]);
        assert(record_valid(n[x].0));
    }
}

proof fn lemma_nearby_without_ok(n: Seq<(DiscoveryRecordView, i64)>, id: Seq<char>)
    requires
        nearby_ok(n),
    ensures
        nearby_ok(nearby_without(n, id)),
{
    if let Some(i) = nearby_index(n, id) {
        lemma_nearby_remove(n, i);
    }
}

proof fn lemma_presence_with_ok(p: Seq<(Seq<char>, bool, Option<i64>)>, id: Seq<char>, now: i64)
    requires
        presence_ok(p),
    ensures
        presence_ok(presence_with(p, id, now)),
{
    let m = presence_with(p, id, now);
    match presence_index(p, id) {
        Some(i) => {
            assert forall|a: int, b: int| 0 <= a < m.len() && 0 <= b < m.len() && a != b implies (#[trigger] m[a]).0
                != (#[trigger] m[b]).0 by {
                assert(p[a].0 != p[b].0);
            }
        },
        None => {
            assert forall|a: int, b: int| 0 <= a < m.len() && 0 <= b < m.len() && a != b implies (#[trigger] m[a]).0
                != (#[trigger] m[b]).0 by {
                if a < p.len() && b < p.len() {
                    assert(p[a].0 != p[b].0);
                } else if a < p.len() {
                    assert(p[a].0 != id);
                } else {
                    assert(p[b].0 != id);
                }
            }
        },
    }
}

proof fn lemma_fresh_members(n: Seq<(DiscoveryRecordView, i64)>, now: i64)
    ensures
        fresh_candidates(n, now).len() <= n.len(),
        forall|k: int|
            0 <= k < fresh_candidates(n, now).len() ==> exists|j: int|
                0 <= j < n.len() && #[trigger] fresh_candidates(n, now)[k] == n[j],
    decreases n.len(),
{
    if n.len() > 0 {
        let rest = fresh_candidates(n.drop_last(), now);
        lemma_fresh_members(n.drop_last(), now);
        let f = fresh_candidates(n, now);
        assert forall|k: int| 0 <= k < f.len() implies exists|j: int| 0 <= j < n.len() && #[trigger] f[k] == n[j] by {
            if k < rest.len() {
                let j = choose|j: int| 0 <= j < n.drop_last().len() && rest[k] == n.drop_last()[j];
                assert(f[k] == n[j]);
            } else {
                assert(f[k] == n[n.len() - 1]);
            }
        }
    }
}

/// Expiry leaves nothing stale: every nearby device kept was seen less than
/// 90 seconds before `now`, and every trusted peer last seen 90 seconds or
/// more before it is offline.
pub proof fn lemma_expiry_leaves_nothing_stale(
    n: Seq<(DiscoveryRecordView, i64)>,
    p: Seq<(Seq<char>, bool, Option<i64>)>,
    now: i64,
)
    ensures
        forall|i: int|
            0 <= i < fresh_candidates(n, now).len() ==> now - (#[trigger] fresh_candidates(n, now)[i]).1
                < PRESENCE_TTL_SECS,
        forall|i: int|
            0 <= i < p.len() && (p[i].2 matches Some(seen) && now - seen >= PRESENCE_TTL_SECS) ==> !(#[trigger] presence_after_expiry(p, now)[i]).1,
    decreases n.len(),
{
    if n.len() > 0 {
        lemma_expiry_leaves_nothing_stale(n.drop_last(), p, now);
        let rest = fresh_candidates(n.drop_last(), now);
        let f = fresh_candidates(n, now);
        assert forall|i: int| 0 <= i < f.len() implies now - (#[trigger] f[i]).1 < PRESENCE_TTL_SECS by {
            if i < rest.len() {
                assert(f[i] == rest[i]);
            }
        }
    }
}

proof fn lemma_fresh_ok(n: Seq<(DiscoveryRecordView, i64)>, now: i64)
    requires
        nearby_ok(n),
    ensures
        nearby_ok(fresh_candidates(n, now)),
    decreases n.len(),
{
    if n.len() > 0 {
        let d = n.drop_last();
        assert(nearby_ok(d)) by {
            assert forall|a: int, b: int| 0 <= a < d.len() && 0 <= b < d.len() && a != b implies (#[trigger] d[a]).0.device_id
                != (#[trigger] d[b]).0.device_id by {
                assert(n[a].0.device_id != n[b].0.device_id);
            }
            assert forall|a: int| 0 <= a < d.len() implies record_valid(#[trigger] d[a].0) by {
                assert(record_valid(n[a].0));
            }
        }
        lemma_fresh_ok(d, now);
        lemma_fresh_members(d, now);
        let rest = fresh_candidates(d, now);
        if now - n.last().1 < PRESENCE_TTL_SECS {
            assert forall|k: int| 0 <= k < rest.len() implies (#[trigger] rest[k]).0.device_id != n.last().0.device_id by {
                let j = choose|j: int| 0 <= j < d.len() && rest[k] == d[j];
                assert(n[j].0.device_id != n[n.len() - 1].0.device_id);
            }
            assert(record_valid(n[n.len() - 1].0));
            lemma_nearby_push(rest, n.last());
        }
    }
}

impl<A: DiscoveryAdapter> DiscoveryCoordinator<A> {
    /// A coordinator that advertises nothing and has seen nothing.
    pub fn new(adapter: A) -> (c: Self)
        ensures
            c@.adapter == adapter,
            c@.advertised is None,
            c@.presence.len() == 0,
            c@.nearby.len() == 0,
            c@.state == MdnsState::Disabled,
            c@.errors.len() == 0,
            model_ok(c@),
    {
        let c = DiscoveryCoordinator {
            adapter,
            advertised: None,
            presence: Vec::new(),
            nearby: Vec::new(),
            state: MdnsState::Disabled,
            errors: Vec::new(),
        };
        assert(c@.presence =~= Seq::<(Seq<char>, bool, Option<i64>)>::empty());
        assert(c@.nearby =~= Seq::<(DiscoveryRecordView, i64)>::empty());
        assert(c@.errors =~= Seq::<Seq<char>>::empty());
        c
    }

    /// The service's state.
    pub fn mdns_state(&self) -> (state: MdnsState)
        ensures
            state == self@.state,
    {
        self.state
    }

    /// The recent error codes, oldest first.
    pub fn recent_error_codes(&self) -> (codes: Vec<String>)
        ensures
            crate::transfer::views(codes@) == self@.errors,
    {
        crate::transfer::clone_strings(&self.errors)
    }

    /// The nearby device `id`, if it is remembered.
    pub fn candidate(&self, id: &str) -> (found: Option<NearbyCandidate>)
        requires
            model_ok(self@),
        ensures
            match nearby_index(self@.nearby, id@) {
                Some(i) => found matches Some(c) && (c.record@, c.last_seen_at) == self@.nearby[i],
                None => found is None,
            },
    {
        match find_nearby(&self.nearby, id) {
            Some(i) => Some(copy_candidate(&self.nearby[i])),
            None => None,
        }
    }

    /// Whether a trusted peer is online, as far as discovery knows: its
    /// presence when it was seen, else offline with its stored sighting.
    pub fn snapshot(&self, peer: &TrustedPeer) -> (p: Presence)
        requires
            model_ok(self@),
        ensures
            (p.device_id@, p.online, p.last_seen_at) == match presence_index(self@.presence, peer.device_id@) {
                Some(i) => self@.presence[i],
                None => (peer.device_id@, false, peer.last_seen_at),
            },
    {
        match find_presence(&self.presence, peer.device_id.as_str()) {
            Some(i) => Presence {
                device_id: self.presence[i].device_id.clone(),
                online: self.presence[i].online,
                last_seen_at: self.presence[i].last_seen_at,
            },
            None => Presence { device_id: peer.device_id.clone(), online: false, last_seen_at: peer.last_seen_at },
        }
    }
}


impl<A: DiscoveryAdapter> DiscoveryCoordinator<A> {
    /// Looks at one browsed record seen at `now`.  `trusted` is the stored
    /// trusted peer with the record's device ID, if there is one.  An
    /// untrusted record is remembered as nearby unless its ID was seen with
    /// another pin or there is no room; a revoked peer is forgotten as
    /// nearby; a trusted peer whose pin matches is to be stored as seen.
    /// Discovery never grants trust: only a peer already trusted, not
    /// revoked, and announcing its stored pin is stored as seen.
    pub fn observe(&mut self, record: DiscoveryRecord, trusted: Option<TrustedPeer>, now: i64) -> (o: Observation)
        requires
            model_ok(old(self)@),
            trusted matches Some(p) ==> p.device_id@ == record.device_id@,
        ensures
            model_ok(final(self)@),
            final(self)@.adapter == old(self)@.adapter,
            final(self)@.advertised == old(self)@.advertised,
            final(self)@.presence == old(self)@.presence,
            final(self)@.state == old(self)@.state,
            final(self)@.errors == old(self)@.errors,
            !record_valid(record@) ==> o == Observation::Rejected && final(self)@.nearby == old(self)@.nearby,
            o is Persist ==> (trusted matches Some(peer) && peer.revoked_at is None && normalized_pin(
                peer.certificate_fingerprint@,
            ) == normalized_pin(record@.certificate_fingerprint)),
            record_valid(record@) ==> match trusted {
                None => match nearby_with(old(self)@.nearby, record@, now) {
                    Some(n) => o == Observation::Nearby && final(self)@.nearby == n,
                    None => o == Observation::Rejected && final(self)@.nearby == old(self)@.nearby,
                },
                Some(peer) => if peer.revoked_at is Some {
                    o == Observation::Rejected && final(self)@.nearby == nearby_without(
                        old(self)@.nearby,
                        record@.device_id,
                    )
                } else if normalized_pin(peer.certificate_fingerprint@) != normalized_pin(
                    record@.certificate_fingerprint,
                ) {
                    o == Observation::Rejected && final(self)@.nearby == old(self)@.nearby
                } else {
                    &&& o matches Observation::Persist(p, e)
                    &&& seen_peer(p, peer, now)
                    &&& e == record.endpoint
                    &&& final(self)@.nearby == old(self)@.nearby
                },
            },
    {
        if !valid_record(&record) {
            return Observation::Rejected;
        }
        let ghost n = old(self)@.nearby;
        match trusted {
            None => {
                match find_nearby(&self.nearby, record.device_id.as_str()) {
                    Some(i) => {
                        let existing = normalize_pin(self.nearby[i].record.certificate_fingerprint.as_str());
                        let incoming = normalize_pin(record.certificate_fingerprint.as_str());
                        proof {
                            assert(n[i as int] == (self.nearby@[i as int].record@, self.nearby@[i as int].last_seen_at));
                        }
                        if !str_equal(existing.as_str(), incoming.as_str()) {
                            return Observation::Rejected;
                        }
                        let ghost c = (record@, now);
                        self.nearby.set(i, NearbyCandidate { record, last_seen_at: now });
                        proof {
                            assert(candidate_views(self.nearby@) =~= n.update(i as int, c));
                            lemma_nearby_update(n, i as int, c);
                        }
                        Observation::Nearby
                    },
                    None => {
                        if self.nearby.len() >= MAX_NEARBY_CANDIDATES {
                            return Observation::Rejected;
                        }
                        let ghost c = (record@, now);
                        proof {
                            assert forall|k: int| 0 <= k < n.len() implies (#[trigger] n[k]).0.device_id != c.0.device_id by {
                                if n[k].0.device_id == c.0.device_id {
                                    assert(exists|i: int| 0 <= i < n.len() && (#[trigger] n[i]).0.device_id == record@.device_id);
                                }
                            }
                        }
                        self.nearby.push(NearbyCandidate { record, last_seen_at: now });
                        proof {
                            assert(candidate_views(self.nearby@) =~= n.push(c));
                            lemma_nearby_push(n, c);
                        }
                        Observation::Nearby
                    },
                }
            },
            Some(peer) => {
                if peer.revoked_at.is_some() {
                    match find_nearby(&self.nearby, record.device_id.as_str()) {
                        Some(i) => {
                            self.nearby.remove(i);
                            proof {
                                assert(candidate_views(self.nearby@) =~= n.remove(i as int));
                                lemma_nearby_remove(n, i as int);
                            }
                        },
                        None => {},
                    }
                    return Observation::Rejected;
                }
                let stored = normalize_pin(peer.certificate_fingerprint.as_str());
                let incoming = normalize_pin(record.certificate_fingerprint.as_str());
                if !str_equal(stored.as_str(), incoming.as_str()) {
                    return Observation::Rejected;
                }
                Observation::Persist(stamped(&peer, now), record.endpoint)
            },
        }
    }

    /// Records that the trusted peer `device_id` was seen online at `now`,
    /// once the caller stored it: it is online and no longer nearby.
    pub fn record_trusted_presence(&mut self, device_id: &str, now: i64)
        requires
            model_ok(old(self)@),
        ensures
            model_ok(final(self)@),
            final(self)@.adapter == old(self)@.adapter,
            final(self)@.advertised == old(self)@.advertised,
            final(self)@.state == old(self)@.state,
            final(self)@.errors == old(self)@.errors,
            final(self)@.nearby == nearby_without(old(self)@.nearby, device_id@),
            final(self)@.presence == presence_with(old(self)@.presence, device_id@, now),
    {
        let ghost n = old(self)@.nearby;
        let ghost p = old(self)@.presence;
        match find_nearby(&self.nearby, device_id) {
            Some(i) => {
                self.nearby.remove(i);
                assert(candidate_views(self.nearby@) =~= n.remove(i as int));
            },
            None => {},
        }
        proof {
            lemma_nearby_without_ok(n, device_id@);
            lemma_presence_with_ok(p, device_id@, now);
        }
        let entry = Presence { device_id: device_id.to_owned(), online: true, last_seen_at: Some(now) };
        match find_presence(&self.presence, device_id) {
            Some(i) => {
                self.presence.set(i, entry);
                assert(presence_views(self.presence@) =~= p.update(i as int, (device_id@, true, Some(now))));
            },
            None => {
                self.presence.push(entry);
                assert(presence_views(self.presence@) =~= p.push((device_id@, true, Some(now))));
            },
        }
    }

    /// Reports an error code of the platform service.
    fn record_error(&mut self, code: &str)
        requires
            model_ok(old(self)@),
        ensures
            model_ok(final(self)@),
            final(self)@.adapter == old(self)@.adapter,
            final(self)@.advertised == old(self)@.advertised,
            final(self)@.presence == old(self)@.presence,
            final(self)@.nearby == old(self)@.nearby,
            final(self)@.state == old(self)@.state,
            final(self)@.errors == errors_after(old(self)@.errors, code@),
    {
        let ghost e = old(self)@.errors;
        let n = self.errors.len();
        if n > 0 && str_equal(self.errors[n - 1].as_str(), code) {
            return;
        }
        self.errors.push(code.to_owned());
        assert(crate::transfer::views(self.errors@) =~= e.push(code@));
        if self.errors.len() > MAX_RECENT_ERRORS {
            self.errors.remove(0);
            assert(crate::transfer::views(self.errors@) =~= e.push(code@).drop_first());
        }
        proof {
            let f = errors_after(e, code@);
            let pushed = e.push(code@);
            assert forall|i: int, j: int| 0 <= i && j == i + 1 && j < pushed.len() implies #[trigger] pushed[i]
                != #[trigger] pushed[j] by {
                if j < e.len() {
                    assert(e[i] != e[j]);
                }
            }
            assert forall|i: int, j: int| 0 <= i && j == i + 1 && j < f.len() implies #[trigger] f[i] != #[trigger] f[j] by {
                if e.len() + 1 > MAX_RECENT_ERRORS {
                    assert(f[i] == pushed[i + 1]);
                    assert(f[j] == pushed[j + 1]);
                    assert(pushed[i + 1] != pushed[j + 1]);
                } else {
                    assert(pushed[i] != pushed[j]);
                }
            }
        }
    }

    /// Takes trusted peers last seen 90 seconds or more before `now`
    /// offline, and forgets nearby devices not seen for as long.
    pub fn expire(&mut self, now: i64)
        requires
            model_ok(old(self)@),
        ensures
            model_ok(final(self)@),
            final(self)@.adapter == old(self)@.adapter,
            final(self)@.advertised == old(self)@.advertised,
            final(self)@.state == old(self)@.state,
            final(self)@.errors == old(self)@.errors,
            final(self)@.presence == presence_after_expiry(old(self)@.presence, now),
            final(self)@.nearby == fresh_candidates(old(self)@.nearby, now),
    {
        let ghost p = old(self)@.presence;
        let ghost n = old(self)@.nearby;
        let mut kept: Vec<Presence> = Vec::new();
        let mut i: usize = 0;
        while i < self.presence.len()
            invariant
                i <= self.presence@.len(),
                p == presence_views(self.presence@),
                presence_views(kept@) == p.subrange(0, i as int).map_values(
                    |x: (Seq<char>, bool, Option<i64>)| presence_expired(x, now),
                ),
            decreases self.presence@.len() - i,
        {
            let e = &self.presence[i];
            let offline = match e.last_seen_at {
                Some(seen) => (now as i128) - (seen as i128) >= PRESENCE_TTL_SECS as i128,
                None => false,
            };
            let entry = Presence {
                device_id: e.device_id.clone(),
                online: if offline { false } else { e.online },
                last_seen_at: e.last_seen_at,
            };
            let ghost before = presence_views(kept@);
            kept.push(entry);
            proof {
                assert(p[i as int] == (e.device_id@, e.online, e.last_seen_at));
                assert(presence_views(kept@) =~= before.push(presence_expired(p[i as int], now)));
                assert(p.subrange(0, i + 1).map_values(|x: (Seq<char>, bool, Option<i64>)| presence_expired(x, now))
                    =~= p.subrange(0, i as int).map_values(|x: (Seq<char>, bool, Option<i64>)| presence_expired(x, now)).push(
                    presence_expired(p[i as int], now),
                ));
            }
            i = i + 1;
        }
        proof {
            assert(p.subrange(0, i as int) =~= p);
        }
        let mut fresh: Vec<NearbyCandidate> = Vec::new();
        let mut j: usize = 0;
        assert(n.subrange(0, 0) =~= Seq::<(DiscoveryRecordView, i64)>::empty());
        while j < self.nearby.len()
            invariant
                j <= self.nearby@.len(),
                n == candidate_views(self.nearby@),
                candidate_views(fresh@) == fresh_candidates(n.subrange(0, j as int), now),
            decreases self.nearby@.len() - j,
        {
            let c = &self.nearby[j];
            let ghost prefix = n.subrange(0, j + 1);
            assert(prefix.drop_last() =~= n.subrange(0, j as int));
            assert(prefix.last() == (c.record@, c.last_seen_at));
            if (now as i128) - (c.last_seen_at as i128) < PRESENCE_TTL_SECS as i128 {
                let ghost before = candidate_views(fresh@);
                fresh.push(copy_candidate(c));
                assert(candidate_views(fresh@) =~= before.push(prefix.last()));
            }
            j = j + 1;
        }
        proof {
            assert(n.subrange(0, j as int) =~= n);
            lemma_fresh_ok(n, now);
            let q = p.map_values(|x: (Seq<char>, bool, Option<i64>)| presence_expired(x, now));
            assert forall|a: int, b: int| 0 <= a < q.len() && 0 <= b < q.len() && a != b implies (#[trigger] q[a]).0
                != (#[trigger] q[b]).0 by {
                assert(p[a].0 != p[b].0);
            }
        }
        self.presence = kept;
        self.nearby = fresh;
    }
}


impl<A: DiscoveryAdapter> DiscoveryCoordinator<A> {
    /// The nearby devices, ordered by device ID.
    pub fn nearby(&self) -> (candidates: Vec<NearbyCandidate>)
        ensures
            candidate_views(candidates@) == by_device_id(self@.nearby),
    {
        let ghost all = candidate_views(self.nearby@);
        let mut sorted: Vec<NearbyCandidate> = Vec::new();
        let mut i: usize = 0;
        assert(all.subrange(0, 0) =~= Seq::<(DiscoveryRecordView, i64)>::empty());
        while i < self.nearby.len()
            invariant
                i <= self.nearby@.len(),
                all == candidate_views(self.nearby@),
                candidate_views(sorted@) == by_device_id(all.subrange(0, i as int)),
            decreases self.nearby@.len() - i,
        {
            let c = copy_candidate(&self.nearby[i]);
            let ghost cv = (c.record@, c.last_seen_at);
            let id = chars_of(c.record.device_id.as_str());
            let ghost before = candidate_views(sorted@);
            let mut j: usize = sorted.len();
            while j > 0 && text_lt(&id, &chars_of(sorted[j - 1].record.device_id.as_str()))
                invariant
                    j <= sorted@.len(),
                    before == candidate_views(sorted@),
                    id@ == cv.0.device_id,
                    forall|k: int| j <= k < sorted@.len() ==> text_less(cv.0.device_id, (#[trigger] before[k]).0.device_id),
                decreases j,
            {
                j = j - 1;
            }
            proof {
                if j > 0 {
                    assert(!text_less(cv.0.device_id, before[j - 1].0.device_id));
                }
                lemma_insert_candidate_at(before, cv, j as int);
            }
            sorted.insert(j, c);
            assert(candidate_views(sorted@) =~= before.insert(j as int, cv));
            let ghost prefix = all.subrange(0, i + 1);
            assert(prefix.drop_last() =~= all.subrange(0, i as int));
            assert(prefix.last() == cv);
            i = i + 1;
        }
        assert(all.subrange(0, i as int) =~= all);
        sorted
    }

    /// Brings the advertised record up to date with `local` (withdrawing
    /// the old one and publishing the new one when they differ), browses,
    /// and hands back the records seen, in the order they are to be looked
    /// at.  What the service answers is not known in advance: the contract
    /// holds for every answer.
    pub fn reconcile(&mut self, local: Option<DiscoveryRecord>) -> (records: Vec<DiscoveryRecord>)
        requires
            model_ok(old(self)@),
        ensures
            model_ok(final(self)@),
            final(self)@.advertised == record_option(local),
            final(self)@.presence == old(self)@.presence,
            final(self)@.nearby == old(self)@.nearby,
            exists|withdraw_failed: bool, publish_failed: bool, browsed: Option<Seq<DiscoveryRecordView>>|
                #[trigger] reconcile_outcome(
                    old(self)@,
                    record_option(local),
                    final(self)@.state,
                    final(self)@.errors,
                    record_views(records@),
                    withdraw_failed,
                    publish_failed,
                    browsed,
                ),
    {
        let ghost before = old(self)@;
        let ghost wanted = record_option(local);
        let has_local = local.is_some();
        self.state = if has_local { MdnsState::Starting } else { MdnsState::Disabled };
        let changed = !same_advertisement(&self.advertised, &local);
        let had = self.advertised.is_some();
        let ghost mut withdraw_failed = false;
        let ghost mut publish_failed = false;
        if changed {
            if had {
                let outcome = self.adapter.withdraw();
                if outcome.is_err() {
                    self.state = MdnsState::Error;
                    self.record_error("mdns_withdraw_failed");
                    proof {
                        withdraw_failed = true;
                    }
                }
            }
            match &local {
                Some(record) => {
                    let outcome = self.adapter.publish(record);
                    if outcome.is_err() {
                        self.state = MdnsState::Error;
                        self.record_error("mdns_publish_failed");
                        proof {
                            publish_failed = true;
                        }
                    }
                },
                None => {},
            }
            self.advertised = local;
        }
        let ghost first = (self@.state, self@.errors);
        assert(first == advertising_outcome(has_local, changed, had, withdraw_failed, publish_failed, before.errors));
        let target = if has_local { MdnsState::Advertising } else { MdnsState::Browsing };
        let ghost browsed: Option<Seq<DiscoveryRecordView>>;
        let records = match self.adapter.browse() {
            Ok(listed) => {
                if self.state != MdnsState::Error {
                    self.state = target;
                }
                proof {
                    browsed = Some(record_views(listed@));
                }
                observation_order(&listed)
            },
            Err(_) => {
                self.state = MdnsState::Error;
                self.record_error("mdns_browse_failed");
                proof {
                    browsed = None;
                }
                let none: Vec<DiscoveryRecord> = Vec::new();
                assert(record_views(none@) =~= Seq::<DiscoveryRecordView>::empty());
                none
            },
        };
        assert(reconcile_outcome(
            before,
            wanted,
            self@.state,
            self@.errors,
            record_views(records@),
            withdraw_failed,
            publish_failed,
            browsed,
        ));
        records
    }

    /// Browses without touching the advertised record, and hands back the
    /// records seen, in the order they are to be looked at.
    pub fn refresh(&mut self) -> (records: Vec<DiscoveryRecord>)
        requires
            model_ok(old(self)@),
        ensures
            model_ok(final(self)@),
            final(self)@.advertised == old(self)@.advertised,
            final(self)@.presence == old(self)@.presence,
            final(self)@.nearby == old(self)@.nearby,
            exists|browsed: Option<Seq<DiscoveryRecordView>>|
                #[trigger] browsed_records(browsed) == record_views(records@) && browse_outcome(
                    old(self)@.state,
                    old(self)@.errors,
                    browsed,
                    MdnsState::Browsing,
                ) == (final(self)@.state, final(self)@.errors),
    {
        let ghost browsed: Option<Seq<DiscoveryRecordView>>;
        let records = match self.adapter.browse() {
            Ok(listed) => {
                if self.state != MdnsState::Error {
                    self.state = MdnsState::Browsing;
                }
                proof {
                    browsed = Some(record_views(listed@));
                }
                observation_order(&listed)
            },
            Err(_) => {
                self.state = MdnsState::Error;
                self.record_error("mdns_browse_failed");
                proof {
                    browsed = None;
                }
                let none: Vec<DiscoveryRecord> = Vec::new();
                assert(record_views(none@) =~= Seq::<DiscoveryRecordView>::empty());
                none
            },
        };
        assert(browsed_records(browsed) == record_views(records@));
        records
    }
}

} // verus!
