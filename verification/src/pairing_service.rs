//! Admission and confirmation decisions of the pairing service: how many
//! pairing exchanges may wait and run, how many may come from one address,
//! whether an outgoing pairing may start, whether the identity an exchange
//! proved is the one discovery announced, and how the authenticated
//! confirmation channel reacts to each event.  The sockets, the tasks and
//! the stored pairings are the caller's.
use crate::engine::{loopback_or_private, normalized_source, normalized_source_of, IpAddress, SocketAddress};
use crate::listener_lifecycle::ip_equal;
use crate::network::TrustedPeerPin;
use crate::pairing::fingerprint_prefix;
use crate::protocol::ControlMessage;
use crate::text::{chars_equal, chars_of, hex_encode, hex_lower, lower_all, lowercase_chars};
use vstd::prelude::*;

verus! {

/// The most pairing exchanges that may be registered at once.
pub const MAX_PAIRING_SESSIONS: usize = 8;

/// The most pairing exchanges that may come from one address at once.
pub const MAX_PAIRINGS_PER_SOURCE: usize = 2;

/// The most incoming pairing exchanges that may wait or run at once.
pub const PAIRING_QUEUE: usize = 16;

/// How many pairing exchanges are under way, in all and per address.
pub struct PairingAdmission {
    queued: usize,
    sources: Vec<(IpAddress, usize)>,
}

/// The admission state as plain values: the exchanges under way, and how
/// many come from each address that has any.
pub struct AdmissionView {
    pub queued: nat,
    pub sources: Seq<(IpAddress, usize)>,
}

/// At most 16 exchanges under way; each address listed once, with one or
/// two of them.
pub open spec fn admission_ok(v: AdmissionView) -> bool {
    &&& v.queued <= PAIRING_QUEUE
    &&& forall|i: int| 0 <= i < v.sources.len() ==> 1 <= (#[trigger] v.sources[i]).1 <= MAX_PAIRINGS_PER_SOURCE
    &&& forall|i: int, j: int|
        0 <= i < v.sources.len() && 0 <= j < v.sources.len() && i != j ==> (#[trigger] v.sources[i]).0 != (
        #[trigger] v.sources[j]).0
}

/// How many exchanges come from `source`.
pub open spec fn source_count(sources: Seq<(IpAddress, usize)>, source: IpAddress) -> nat {
    if exists|i: int| 0 <= i < sources.len() && (#[trigger] sources[i]).0 == source {
        sources[choose|i: int| 0 <= i < sources.len() && (#[trigger] sources[i]).0 == source].1 as nat
    } else {
        0
    }
}

impl View for PairingAdmission {
    type V = AdmissionView;

    closed spec fn view(&self) -> AdmissionView {
        AdmissionView { queued: self.queued as nat, sources: self.sources@ }
    }
}

/// The counts per address are the same before and after, but for `source`,
/// whose count is `count`.
pub open spec fn counts_except(before: Seq<(IpAddress, usize)>, after: Seq<(IpAddress, usize)>, source: IpAddress, count: nat) -> bool {
    &&& source_count(after, source) == count
    &&& forall|x: IpAddress| x != source ==> source_count(after, x) == source_count(before, x)
}

fn find_source(sources: &Vec<(IpAddress, usize)>, source: IpAddress) -> (found: Option<usize>)
    requires
        forall|i: int, j: int|
            0 <= i < sources@.len() && 0 <= j < sources@.len() && i != j ==> (#[trigger] sources@[i]).0 != (
            #[trigger] sources@[j]).0,
    ensures
        match found {
            Some(i) => i < sources@.len() && sources@[i as int].0 == source && source_count(sources@, source)
                == sources@[i as int].1,
            None => forall|k: int| 0 <= k < sources@.len() ==> (#[trigger] sources@[k]).0 != source,
        },
{
    let mut i: usize = 0;
    while i < sources.len()
        invariant
            i <= sources@.len(),
            forall|k: int| 0 <= k < i ==> (#[trigger] sources@[k]).0 != source,
            forall|a: int, b: int|
                0 <= a < sources@.len() && 0 <= b < sources@.len() && a != b ==> (#[trigger] sources@[a]).0 != (
                #[trigger] sources@[b]).0,
        decreases sources@.len() - i,
    {
        if ip_equal(sources[i].0, source) {
            proof {
                let c = choose|k: int| 0 <= k < sources@.len() && (#[trigger] sources@[k]).0 == source;
                assert(c == i) by {
                    if c != i {
                        assert(sources@[c].0 != sources@[i as int].0);
                    }
                }
            }
            return Some(i);
        }
        i = i + 1;
    }
    None
}

proof fn lemma_count_absent(sources: Seq<(IpAddress, usize)>, source: IpAddress)
    requires
        forall|k: int| 0 <= k < sources.len() ==> (#[trigger] sources[k]).0 != source,
    ensures
        source_count(sources, source) == 0,
{
}

proof fn lemma_count_at(sources: Seq<(IpAddress, usize)>, i: int)
    requires
        0 <= i < sources.len(),
        forall|a: int, b: int|
            0 <= a < sources.len() && 0 <= b < sources.len() && a != b ==> (#[trigger] sources[a]).0 != (
            #[trigger] sources[b]).0,
    ensures
        source_count(sources, sources[i].0) == sources[i].1,
{
    let c = choose|k: int| 0 <= k < sources.len() && (#[trigger] sources[k]).0 == sources[i].0;
    assert(sources[i].0 == sources[i].0);
    assert(c == i) by {
        if c != i {
            assert(sources[c].0 != sources[i].0);
        }
    }
}

/// The counts of other addresses are those of the entries at the same
/// places: replacing the entry at `i` by one for the same address changes
/// no other count.
proof fn lemma_update_counts(sources: Seq<(IpAddress, usize)>, i: int, count: usize)
    requires
        0 <= i < sources.len(),
        forall|a: int, b: int|
            0 <= a < sources.len() && 0 <= b < sources.len() && a != b ==> (#[trigger] sources[a]).0 != (
            #[trigger] sources[b]).0,
    ensures
        counts_except(sources, sources.update(i, (sources[i].0, count)), sources[i].0, count as nat),
{
    let after = sources.update(i, (sources[i].0, count));
    let source = sources[i].0;
    assert forall|a: int, b: int|
        0 <= a < after.len() && 0 <= b < after.len() && a != b implies (#[trigger] after[a]).0 != (
        #[trigger] after[b]).0 by {
        assert(sources[a].0 != sources[b].0);
    }
    lemma_count_at(after, i);
    assert forall|x: IpAddress| x != source implies source_count(after, x) == source_count(sources, x) by {
        if exists|k: int| 0 <= k < sources.len() && (#[trigger] sources[k]).0 == x {
            let k = choose|k: int| 0 <= k < sources.len() && (#[trigger] sources[k]).0 == x;
            lemma_count_at(sources, k);
            assert(after[k].0 == x);
            lemma_count_at(after, k);
        } else {
            assert forall|k: int| 0 <= k < after.len() implies (#[trigger] after[k]).0 != x by {
                if k != i {
                    assert(after[k] == sources[k]);
                }
            }
        }
    }
}

proof fn lemma_push_counts(sources: Seq<(IpAddress, usize)>, source: IpAddress)
    requires
        forall|k: int| 0 <= k < sources.len() ==> (#[trigger] sources[k]).0 != source,
        forall|a: int, b: int|
            0 <= a < sources.len() && 0 <= b < sources.len() && a != b ==> (#[trigger] sources[a]).0 != (
            #[trigger] sources[b]).0,
    ensures
        counts_except(sources, sources.push((source, 1usize)), source, 1),
        forall|a: int, b: int|
            0 <= a < sources.len() + 1 && 0 <= b < sources.len() + 1 && a != b ==> (#[trigger] sources.push(
                (source, 1usize),
            )[a]).0 != (#[trigger] sources.push((source, 1usize))[b]).0,
{
    let after = sources.push((source, 1usize));
    assert forall|a: int, b: int|
        0 <= a < after.len() && 0 <= b < after.len() && a != b implies (#[trigger] after[a]).0 != (
        #[trigger] after[b]).0 by {
        if a < sources.len() && b < sources.len() {
            assert(sources[a].0 != sources[b].0);
        }
    }
    lemma_count_at(after, sources.len() as int);
    assert forall|x: IpAddress| x != source implies source_count(after, x) == source_count(sources, x) by {
        if exists|k: int| 0 <= k < sources.len() && (#[trigger] sources[k]).0 == x {
            let k = choose|k: int| 0 <= k < sources.len() && (#[trigger] sources[k]).0 == x;
            lemma_count_at(sources, k);
            lemma_count_at(after, k);
        } else {
            assert forall|k: int| 0 <= k < after.len() implies (#[trigger] after[k]).0 != x by {
                if k < sources.len() {
                    assert(after[k] == sources[k]);
                }
            }
        }
    }
}

proof fn lemma_remove_counts(sources: Seq<(IpAddress, usize)>, i: int)
    requires
        0 <= i < sources.len(),
        forall|a: int, b: int|
            0 <= a < sources.len() && 0 <= b < sources.len() && a != b ==> (#[trigger] sources[a]).0 != (
            #[trigger] sources[b]).0,
    ensures
        counts_except(sources, sources.remove(i), sources[i].0, 0),
        forall|a: int, b: int|
            0 <= a < sources.len() - 1 && 0 <= b < sources.len() - 1 && a != b ==> (#[trigger] sources.remove(i)[a]).0
                != (#[trigger] sources.remove(i)[b]).0,
{
    let after = sources.remove(i);
    let source = sources[i].0;
    assert forall|a: int, b: int|
        0 <= a < after.len() && 0 <= b < after.len() && a != b implies (#[trigger] after[a]).0 != (
        #[trigger] after[b]).0 by {
        let x = if a < i { a } else { a + 1 };
        let y = if b < i { b } else { b + 1 };
        assert(after[a] == sources[x]);
        assert(after[b] == sources[y]);
        assert(sources[x].0 != sources[y].0);
    }
    assert forall|k: int| 0 <= k < after.len() implies (#[trigger] after[k]).0 != source by {
        let x = if k < i { k } else { k + 1 };
        assert(after[k] == sources[x]);
        assert(sources[x].0 != sources[i].0);
    }
    assert forall|x: IpAddress| x != source implies source_count(after, x) == source_count(sources, x) by {
        if exists|k: int| 0 <= k < sources.len() && (#[trigger] sources[k]).0 == x {
            let k = choose|k: int| 0 <= k < sources.len() && (#[trigger] sources[k]).0 == x;
            lemma_count_at(sources, k);
            let j = if k < i { k } else { k - 1 };
            assert(after[j] == sources[k]);
            lemma_count_at(after, j);
        } else {
            assert forall|k: int| 0 <= k < after.len() implies (#[trigger] after[k]).0 != x by {
                let y = if k < i { k } else { k + 1 };
                assert(after[k] == sources[y]);
            }
        }
    }
}

impl PairingAdmission {
    /// Nothing under way.
    pub fn new() -> (admission: Self)
        ensures
            admission@.queued == 0,
            admission@.sources.len() == 0,
            admission_ok(admission@),
    {
        PairingAdmission { queued: 0, sources: Vec::new() }
    }

    /// How many exchanges are under way.
    pub fn queued(&self) -> (queued: usize)
        ensures
            queued == self@.queued,
    {
        self.queued
    }

    /// How many exchanges come from `source`, counted under its normalized
    /// address.
    pub fn from_source(&self, source: IpAddress) -> (count: usize)
        requires
            admission_ok(self@),
        ensures
            count == source_count(self@.sources, normalized_source_of(source)),
    {
        let source = normalized_source(source);
        match find_source(&self.sources, source) {
            Some(i) => self.sources[i].1,
            None => 0,
        }
    }

    /// Admits an incoming pairing connection from `source` while `active`
    /// pairings are registered: refused when 16 exchanges are under way, 8
    /// pairings are registered, or 2 exchanges already come from its
    /// (normalized) address; else it counts, in all and for its address.
    pub fn admit_incoming(&mut self, source: IpAddress, active: usize) -> (admitted: bool)
        requires
            admission_ok(old(self)@),
        ensures
            admission_ok(final(self)@),
            admitted == (old(self)@.queued < PAIRING_QUEUE && active < MAX_PAIRING_SESSIONS && source_count(
                old(self)@.sources,
                normalized_source_of(source),
            ) < MAX_PAIRINGS_PER_SOURCE),
            admitted ==> final(self)@.queued == old(self)@.queued + 1 && counts_except(
                old(self)@.sources,
                final(self)@.sources,
                normalized_source_of(source),
                source_count(old(self)@.sources, normalized_source_of(source)) + 1,
            ),
            !admitted ==> final(self)@ == old(self)@,
    {
        let source = normalized_source(source);
        let ghost before = self.sources@;
        assert(before == old(self)@.sources);
        if self.queued >= PAIRING_QUEUE || active >= MAX_PAIRING_SESSIONS {
            match find_source(&self.sources, source) {
                Some(_) => {},
                None => proof {
                    lemma_count_absent(before, source);
                },
            }
            return false;
        }
        match find_source(&self.sources, source) {
            Some(i) => {
                let count = self.sources[i].1;
                if count >= MAX_PAIRINGS_PER_SOURCE {
                    return false;
                }
                self.sources.set(i, (source, count + 1));
                proof {
                    lemma_update_counts(before, i as int, (count + 1) as usize);
                    assert(self.sources@ == before.update(i as int, (before[i as int].0, (count + 1) as usize)));
                }
            },
            None => {
                proof {
                    lemma_count_absent(before, source);
                    lemma_push_counts(before, source);
                }
                self.sources.push((source, 1));
            },
        }
        self.queued = self.queued + 1;
        true
    }

    /// Ends an incoming exchange admitted from `source`.
    pub fn release_incoming(&mut self, source: IpAddress)
        requires
            admission_ok(old(self)@),
            old(self)@.queued > 0,
            source_count(old(self)@.sources, normalized_source_of(source)) > 0,
        ensures
            admission_ok(final(self)@),
            final(self)@.queued == old(self)@.queued - 1,
            counts_except(
                old(self)@.sources,
                final(self)@.sources,
                normalized_source_of(source),
                (source_count(old(self)@.sources, normalized_source_of(source)) - 1) as nat,
            ),
    {
        let source = normalized_source(source);
        let ghost before = self.sources@;
        assert(before == old(self)@.sources);
        match find_source(&self.sources, source) {
            Some(i) => {
                let count = self.sources[i].1;
                if count <= 1 {
                    self.sources.remove(i);
                    proof {
                        lemma_remove_counts(before, i as int);
                    }
                } else {
                    self.sources.set(i, (source, count - 1));
                    proof {
                        lemma_update_counts(before, i as int, (count - 1) as usize);
                        assert(self.sources@ == before.update(i as int, (before[i as int].0, (count - 1) as usize)));
                    }
                }
            },
            None => {
                proof {
                    lemma_count_absent(before, source);
                }
            },
        }
        self.queued = self.queued - 1;
    }

    /// Admits a pairing over an already authenticated connection while
    /// `active` pairings are registered: refused when 16 exchanges are
    /// under way or 8 pairings are registered.
    pub fn admit_authenticated(&mut self, active: usize) -> (admitted: bool)
        requires
            admission_ok(old(self)@),
        ensures
            admission_ok(final(self)@),
            admitted == (old(self)@.queued < PAIRING_QUEUE && active < MAX_PAIRING_SESSIONS),
            final(self)@.sources == old(self)@.sources,
            final(self)@.queued == if admitted { old(self)@.queued + 1 } else { old(self)@.queued },
    {
        if self.queued >= PAIRING_QUEUE || active >= MAX_PAIRING_SESSIONS {
            return false;
        }
        assert(self@.sources == self.sources@);
        self.queued = self.queued + 1;
        assert(self@.sources == old(self)@.sources);
        true
    }

    /// Ends an exchange admitted over an authenticated connection.
    pub fn release_authenticated(&mut self)
        requires
            admission_ok(old(self)@),
            old(self)@.queued > 0,
        ensures
            admission_ok(final(self)@),
            final(self)@.sources == old(self)@.sources,
            final(self)@.queued == old(self)@.queued - 1,
    {
        assert(self@.sources == self.sources@);
        self.queued = self.queued - 1;
        assert(self@.sources == old(self)@.sources);
    }
}

/// Admitting an incoming exchange and then releasing it leaves every count
/// as it was.
pub proof fn lemma_admit_then_release(
    before: AdmissionView,
    admitted: AdmissionView,
    after: AdmissionView,
    source: IpAddress,
)
    requires
        admitted.queued == before.queued + 1,
        counts_except(before.sources, admitted.sources, source, source_count(before.sources, source) + 1),
        after.queued == admitted.queued - 1,
        counts_except(admitted.sources, after.sources, source, (source_count(admitted.sources, source) - 1) as nat),
    ensures
        after.queued == before.queued,
        forall|x: IpAddress| source_count(after.sources, x) == source_count(before.sources, x),
{
}

/// Whether an outgoing pairing to `endpoint` may start while `active`
/// pairings are registered: the endpoint has a port and a loopback or
/// private address, and fewer than 8 pairings are registered.
pub fn outgoing_pairing_allowed(endpoint: SocketAddress, active: usize) -> (allowed: bool)
    ensures
        allowed == (endpoint.port != 0 && loopback_or_private(endpoint.ip) && active < MAX_PAIRING_SESSIONS),
{
    endpoint.port != 0 && crate::engine::is_loopback_or_private(endpoint.ip) && active < MAX_PAIRING_SESSIONS
}

/// Whether the peer an exchange proved is the device discovery announced:
/// the same device ID, and a fingerprint that, as `blake3:` and lower-case
/// hexadecimal, equals the announced one but for ASCII case.
pub fn discovered_identity_matches(peer: &TrustedPeerPin, expected_device_id: &str, expected_fingerprint: &str) -> (matched: bool)
    ensures
        matched == (peer.device_id@ == expected_device_id@ && lower_all(expected_fingerprint@) == lower_all(
            fingerprint_prefix() + hex_lower(peer.certificate_fingerprint@),
        )),
{
    let mut actual = vec!['b', 'l', 'a', 'k', 'e', '3', ':'];
    assert(actual@ =~= fingerprint_prefix());
    let hex = hex_encode(&peer.certificate_fingerprint);
    let mut i: usize = 0;
    while i < hex.len()
        invariant
            i <= hex@.len(),
            actual@ == fingerprint_prefix() + hex@.subrange(0, i as int),
        decreases hex@.len() - i,
    {
        actual.push(hex[i]);
        i = i + 1;
        assert(actual@ =~= fingerprint_prefix() + hex@.subrange(0, i as int));
    }
    assert(hex@.subrange(0, i as int) =~= hex@);
    let expected = chars_of(expected_fingerprint);
    crate::text::str_equal(peer.device_id.as_str(), expected_device_id) && chars_equal(
        &lowercase_chars(&expected),
        &lowercase_chars(&actual),
    )
}

/// What the authenticated confirmation channel of a registered pairing
/// knows: its session, whether this side's confirmation went out, and
/// whether the peer's was recorded.
#[derive(Debug, Clone, Copy, PartialEq, Eq)]
pub struct ConfirmationChannel {
    pub session_id: [u8; 16],
    pub local_confirmation_sent: bool,
    pub remote_confirmed: bool,
}

/// What happened on the channel.
#[derive(Debug, Clone, PartialEq, Eq)]
pub enum ChannelEvent {
    /// The service is shutting down.
    Cancelled,
    /// Nothing more will be sent from this side.
    OutboundClosed,
    /// A message went out; `confirms` when it was this side's confirmation.
    Sent { confirms: bool },
    /// A message could not be sent.
    SendFailed,
    /// A message arrived from the peer.
    Received(ControlMessage),
    /// Nothing arrived in time, or the stream failed.
    ReceiveFailed,
    /// The peer's confirmation was recorded.
    RemoteConfirmationRecorded,
    /// The peer's confirmation could not be recorded.
    RemoteConfirmationRefused,
}

/// What the caller does next.
#[derive(Debug, Clone, Copy, PartialEq, Eq, Structural)]
pub enum ChannelAction {
    /// Keep listening.
    Continue,
    /// Record the peer's confirmation, then report how that went.
    RecordRemoteConfirmation,
    /// Reject the pairing and close the channel.
    RejectAndClose,
    /// Close the channel.
    Close,
}

impl ConfirmationChannel {
    /// A channel for `session_id` on which nothing was confirmed yet.
    pub fn new(session_id: [u8; 16]) -> (channel: Self)
        ensures
            channel.session_id == session_id,
            !channel.local_confirmation_sent,
            !channel.remote_confirmed,
    {
        ConfirmationChannel { session_id, local_confirmation_sent: false, remote_confirmed: false }
    }

    /// Reacts to one event.  Only a confirmation or rejection for this
    /// session is taken from the peer; anything else it sends, a failure or
    /// a timeout rejects the pairing.  The channel closes quietly once both
    /// confirmations are in.
    pub fn step(&mut self, event: &ChannelEvent) -> (action: ChannelAction)
        ensures
            final(self).session_id == old(self).session_id,
            match *event {
                ChannelEvent::Cancelled => action == ChannelAction::RejectAndClose && *final(self) == *old(self),
                ChannelEvent::OutboundClosed => action == ChannelAction::Close && *final(self) == *old(self),
                ChannelEvent::SendFailed => action == ChannelAction::Close && *final(self) == *old(self),
                ChannelEvent::Sent { confirms } => {
                    &&& final(self).remote_confirmed == old(self).remote_confirmed
                    &&& final(self).local_confirmation_sent == (old(self).local_confirmation_sent || confirms)
                    &&& action == if confirms && old(self).remote_confirmed {
                        ChannelAction::Close
                    } else {
                        ChannelAction::Continue
                    }
                },
                ChannelEvent::Received(m) => *final(self) == *old(self) && action == match m {
                    ControlMessage::PairConfirmed(c) => if c.session_id@ == old(self).session_id@ {
                        ChannelAction::RecordRemoteConfirmation
                    } else {
                        ChannelAction::RejectAndClose
                    },
                    _ => ChannelAction::RejectAndClose,
                },
                ChannelEvent::ReceiveFailed => action == ChannelAction::RejectAndClose && *final(self) == *old(self),
                ChannelEvent::RemoteConfirmationRecorded => {
                    &&& final(self).remote_confirmed
                    &&& final(self).local_confirmation_sent == old(self).local_confirmation_sent
                    &&& action == if old(self).local_confirmation_sent {
                        ChannelAction::Close
                    } else {
                        ChannelAction::Continue
                    }
                },
                ChannelEvent::RemoteConfirmationRefused => action == ChannelAction::Close && *final(self) == *old(
                    self,
                ),
            },
    {
        match event {
            ChannelEvent::Cancelled => ChannelAction::RejectAndClose,
            ChannelEvent::OutboundClosed => ChannelAction::Close,
            ChannelEvent::SendFailed => ChannelAction::Close,
            ChannelEvent::Sent { confirms } => {
                if *confirms {
                    self.local_confirmation_sent = true;
                    if self.remote_confirmed {
                        return ChannelAction::Close;
                    }
                }
                ChannelAction::Continue
            },
            ChannelEvent::Received(m) => match m {
                ControlMessage::PairConfirmed(c) => if crate::bytes::bytes_equal(&c.session_id, &self.session_id) {
                    ChannelAction::RecordRemoteConfirmation
                } else {
                    ChannelAction::RejectAndClose
                },
                _ => ChannelAction::RejectAndClose,
            },
            ChannelEvent::ReceiveFailed => ChannelAction::RejectAndClose,
            ChannelEvent::RemoteConfirmationRecorded => {
                self.remote_confirmed = true;
                if self.local_confirmation_sent {
                    ChannelAction::Close
                } else {
                    ChannelAction::Continue
                }
            },
            ChannelEvent::RemoteConfirmationRefused => ChannelAction::Close,
        }
    }
}

/// The channel closes without a rejection after a confirmation only when
/// both sides' confirmations are in.
pub proof fn lemma_quiet_close_needs_both(before: ConfirmationChannel, after: ConfirmationChannel, event: ChannelEvent, action: ChannelAction)
    requires
        after.session_id == before.session_id,
        event matches ChannelEvent::Sent { confirms } ==> {
            &&& after.remote_confirmed == before.remote_confirmed
            &&& after.local_confirmation_sent == (before.local_confirmation_sent || confirms)
            &&& action == if confirms && before.remote_confirmed {
                ChannelAction::Close
            } else {
                ChannelAction::Continue
            }
        },
        event is RemoteConfirmationRecorded ==> {
            &&& after.remote_confirmed
            &&& after.local_confirmation_sent == before.local_confirmation_sent
            &&& action == if before.local_confirmation_sent {
                ChannelAction::Close
            } else {
                ChannelAction::Continue
            }
        },
        event is Sent || event is RemoteConfirmationRecorded,
        action == ChannelAction::Close,
    ensures
        after.local_confirmation_sent && after.remote_confirmed,
{
}

} // verus!
