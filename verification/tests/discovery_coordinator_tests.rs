use fileporter::discovery::DiscoveryRecord;
use fileporter::discovery_coordinator::{
    normalize_pin, preferred_lan_endpoint, preferred_lan_endpoint_for_local, resolve_advertised_endpoint,
    valid_record, DiscoveryAdapter, DiscoveryCoordinator, MdnsState, Observation, PRESENCE_TTL_SECS,
};
use fileporter::engine::{IpAddress, SocketAddress};
use fileporter::records::TrustedPeer;
use std::collections::{HashMap, VecDeque};
use std::sync::{Arc, Mutex};

#[derive(Default)]
struct Mock {
    published: Vec<DiscoveryRecord>,
    withdraws: usize,
    records: VecDeque<Vec<DiscoveryRecord>>,
    fail_browse: bool,
}

#[derive(Clone, Default)]
struct Shared(Arc<Mutex<Mock>>);

impl DiscoveryAdapter for Shared {
    fn publish(&mut self, record: &DiscoveryRecord) -> Result<(), String> {
        self.0.lock().unwrap().published.push(record.clone());
        Ok(())
    }
    fn withdraw(&mut self) -> Result<(), String> {
        self.0.lock().unwrap().withdraws += 1;
        Ok(())
    }
    fn browse(&mut self) -> Result<Vec<DiscoveryRecord>, String> {
        let mut state = self.0.lock().unwrap();
        if state.fail_browse {
            return Err("down".into());
        }
        Ok(state.records.pop_front().unwrap_or_default())
    }
}

fn v4(a: u8, b: u8, c: u8, d: u8, port: u16) -> SocketAddress {
    SocketAddress { ip: IpAddress::V4([a, b, c, d]), port }
}

fn text(endpoint: SocketAddress) -> String {
    match endpoint.ip {
        IpAddress::V4(o) => format!("{}.{}.{}.{}:{}", o[0], o[1], o[2], o[3], endpoint.port),
        IpAddress::V6(_) => unreachable!(),
    }
}

fn record(id: &str, pin: &str, endpoint: SocketAddress) -> DiscoveryRecord {
    DiscoveryRecord {
        device_id: id.into(),
        device_name: "Laptop".into(),
        endpoint,
        certificate_fingerprint: pin.into(),
        protocol_version: 1,
        capabilities: vec!["receive-v1".into()],
    }
}

fn peer(id: &str, pin: &str) -> TrustedPeer {
    TrustedPeer {
        device_id: id.into(),
        public_key: vec![1],
        certificate_fingerprint: pin.into(),
        remote_name: "Laptop".into(),
        local_alias: None,
        paired_at: 1,
        last_seen_at: None,
        auto_send: false,
        revoked_at: None,
        endpoint: None,
    }
}

/// Looks at browsed records the way the application does, with `repo`
/// standing for the stored trusted peers.
fn observe_all(
    discovery: &mut DiscoveryCoordinator<Shared>,
    records: Vec<DiscoveryRecord>,
    repo: &mut HashMap<String, TrustedPeer>,
    now: i64,
) -> Vec<String> {
    let mut observed = Vec::new();
    for record in records {
        let id = record.device_id.clone();
        let trusted = repo.get(&id).cloned();
        match discovery.observe(record, trusted, now) {
            Observation::Rejected => {}
            Observation::Nearby => observed.push(id),
            Observation::Persist(mut stored, endpoint) => {
                stored.endpoint = Some(text(endpoint));
                repo.insert(id.clone(), stored);
                discovery.record_trusted_presence(&id, now);
                observed.push(id);
            }
        }
    }
    discovery.expire(now);
    observed
}

#[test]
fn advertise_update_expiry_spoof_and_restart_are_deterministic() {
    let mut repo = HashMap::new();
    repo.insert("trusted".to_string(), peer("trusted", &"a1".repeat(32)));
    let mock = Shared::default();
    let mut discovery = DiscoveryCoordinator::new(mock.clone());
    let local = record("local", &"b2".repeat(32), v4(127, 0, 0, 1, 4242));
    let seen = discovery.reconcile(Some(local.clone()));
    observe_all(&mut discovery, seen, &mut repo, 10);
    let seen = discovery.reconcile(Some(record("local", &"b2".repeat(32), v4(127, 0, 0, 1, 4243))));
    observe_all(&mut discovery, seen, &mut repo, 11);
    mock.0.lock().unwrap().records.push_back(vec![
        record("spoof", &"a1".repeat(32), v4(127, 0, 0, 1, 4242)),
        record("trusted", &"ff".repeat(32), v4(127, 0, 0, 1, 4242)),
        record("trusted", &"a1".repeat(32), v4(8, 8, 8, 8, 4242)),
        record("trusted", &"a1".repeat(32), v4(127, 0, 0, 1, 4343)),
    ]);
    let seen = discovery.reconcile(Some(record("local", &"b2".repeat(32), v4(127, 0, 0, 1, 4243))));
    let observed = observe_all(&mut discovery, seen, &mut repo, 20);
    assert_eq!(observed, ["spoof", "trusted"]);
    assert_eq!(discovery.nearby().len(), 1);
    assert_eq!(repo["trusted"].endpoint.as_deref(), Some("127.0.0.1:4343"));
    assert!(discovery.snapshot(&repo["trusted"]).online);
    discovery.expire(20 + PRESENCE_TTL_SECS);
    assert!(!discovery.snapshot(&repo["trusted"]).online);
    let seen = discovery.reconcile(None);
    observe_all(&mut discovery, seen, &mut repo, 111);
    let state = mock.0.lock().unwrap();
    assert_eq!(state.published.len(), 2);
    assert_eq!(state.withdraws, 2);
}

#[test]
fn revoked_identity_is_neither_nearby_nor_online_and_cannot_be_promoted() {
    let mut repo = HashMap::new();
    let mut revoked = peer("forgotten", &"a1".repeat(32));
    revoked.revoked_at = Some(9);
    repo.insert("forgotten".to_string(), revoked.clone());
    let mock = Shared::default();
    mock.0.lock().unwrap().records.push_back(vec![record("forgotten", &"a1".repeat(32), v4(127, 0, 0, 1, 4242))]);
    let mut discovery = DiscoveryCoordinator::new(mock);
    let seen = discovery.refresh();
    assert!(observe_all(&mut discovery, seen, &mut repo, 10).is_empty());
    assert!(discovery.nearby().is_empty());
    assert!(discovery.candidate("forgotten").is_none());
    assert!(!discovery.snapshot(&revoked).online);
    assert!(repo["forgotten"].endpoint.is_none());
}

#[test]
fn resolved_service_prefers_a_reachable_private_ipv4_address() {
    let mut link_local = [0u8; 16];
    link_local[0] = 0xfe;
    link_local[1] = 0x80;
    link_local[14] = 0x12;
    link_local[15] = 0x34;
    let mut unique_local = [0u8; 16];
    unique_local[0] = 0xfd;
    unique_local[14] = 0x12;
    unique_local[15] = 0x34;
    let addresses = vec![
        IpAddress::V6(link_local),
        IpAddress::V6(unique_local),
        IpAddress::V4([8, 8, 8, 8]),
        IpAddress::V4([192, 168, 1, 24]),
    ];
    assert_eq!(
        preferred_lan_endpoint_for_local(&addresses, 4242, Some(IpAddress::V4([192, 168, 1, 200]))),
        Some(v4(192, 168, 1, 24, 4242))
    );
    assert_eq!(preferred_lan_endpoint_for_local(&addresses, 0, None), None);
    assert_eq!(resolve_advertised_endpoint(v4(127, 0, 0, 1, 4242), None), Some(v4(127, 0, 0, 1, 4242)));
}

#[test]
fn nearest_private_address_wins_and_ipv6_comes_after_ipv4() {
    let mut unique_local = [0u8; 16];
    unique_local[0] = 0xfd;
    unique_local[15] = 1;
    let addresses = vec![
        IpAddress::V6(unique_local),
        IpAddress::V4([10, 0, 0, 9]),
        IpAddress::V4([192, 168, 7, 3]),
        IpAddress::V4([127, 0, 0, 1]),
    ];
    assert_eq!(
        preferred_lan_endpoint_for_local(&addresses, 80, Some(IpAddress::V4([10, 0, 0, 1]))),
        Some(v4(10, 0, 0, 9, 80))
    );
    assert_eq!(
        preferred_lan_endpoint_for_local(&addresses, 80, Some(IpAddress::V4([192, 168, 7, 200]))),
        Some(v4(192, 168, 7, 3, 80))
    );
    let only_v6_and_loopback = vec![IpAddress::V4([127, 0, 0, 1]), IpAddress::V6(unique_local)];
    assert_eq!(
        preferred_lan_endpoint_for_local(&only_v6_and_loopback, 80, None),
        Some(SocketAddress { ip: IpAddress::V6(unique_local), port: 80 })
    );
    assert_eq!(preferred_lan_endpoint(&vec![IpAddress::V4([8, 8, 8, 8])], 80, None), None);
    assert_eq!(
        preferred_lan_endpoint(&addresses, 80, Some(IpAddress::V4([8, 8, 8, 8]))),
        Some(v4(10, 0, 0, 9, 80))
    );
}

#[test]
fn all_interface_binds_advertise_the_primary_lan_address() {
    let any = v4(0, 0, 0, 0, 4242);
    assert_eq!(resolve_advertised_endpoint(any, Some(IpAddress::V4([192, 168, 1, 5]))), Some(v4(192, 168, 1, 5, 4242)));
    assert_eq!(resolve_advertised_endpoint(any, Some(IpAddress::V4([8, 8, 8, 8]))), None);
    assert_eq!(resolve_advertised_endpoint(any, None), None);
    assert_eq!(resolve_advertised_endpoint(v4(8, 8, 8, 8, 1), Some(IpAddress::V4([192, 168, 1, 5]))), None);
}

#[test]
fn records_are_validated_before_they_count() {
    let pin = "a1".repeat(32);
    let good = record("laptop", &pin, v4(192, 168, 1, 2, 4242));
    assert!(valid_record(&good));
    let mut other = good.clone();
    other.protocol_version = 2;
    assert!(!valid_record(&other));
    let mut other = good.clone();
    other.device_name = "   ".into();
    assert!(!valid_record(&other));
    let mut other = good.clone();
    other.capabilities = vec!["pairing-v1".into()];
    assert!(!valid_record(&other));
    let mut other = good.clone();
    other.capabilities = vec!["receive-v1".into(), "teleport-v1".into()];
    assert!(!valid_record(&other));
    let mut other = good.clone();
    other.certificate_fingerprint = format!(" blake3:{} ", "A1".repeat(32));
    assert!(valid_record(&other));
    assert_eq!(normalize_pin(&other.certificate_fingerprint), pin);
    let mut other = good.clone();
    other.certificate_fingerprint = "a1".repeat(31);
    assert!(!valid_record(&other));
    let mut other = good.clone();
    other.endpoint = v4(8, 8, 8, 8, 4242);
    assert!(!valid_record(&other));
    let mut other = good.clone();
    other.endpoint = v4(192, 168, 1, 2, 0);
    assert!(!valid_record(&other));
    let mut other = good;
    other.device_id = "x".repeat(129);
    assert!(!valid_record(&other));
}

#[test]
fn nearby_devices_keep_their_first_pin_are_capped_and_sorted() {
    let mut discovery = DiscoveryCoordinator::new(Shared::default());
    let pin = "a1".repeat(32);
    assert_eq!(discovery.observe(record("b", &pin, v4(127, 0, 0, 1, 1)), None, 5), Observation::Nearby);
    assert_eq!(discovery.observe(record("a", &pin, v4(127, 0, 0, 1, 1)), None, 5), Observation::Nearby);
    assert_eq!(
        discovery.observe(record("b", &"ff".repeat(32), v4(127, 0, 0, 1, 2)), None, 6),
        Observation::Rejected
    );
    assert_eq!(discovery.observe(record("b", &pin.to_uppercase(), v4(127, 0, 0, 1, 3)), None, 7), Observation::Nearby);
    let nearby = discovery.nearby();
    assert_eq!(nearby.iter().map(|c| c.record.device_id.as_str()).collect::<Vec<_>>(), ["a", "b"]);
    assert_eq!(nearby[1].last_seen_at, 7);
    assert_eq!(nearby[1].record.endpoint, v4(127, 0, 0, 1, 3));
    for i in 0..100 {
        discovery.observe(record(&format!("d{i:03}"), &pin, v4(127, 0, 0, 1, 1)), None, 8);
    }
    assert_eq!(discovery.nearby().len(), 64);
    assert_eq!(discovery.observe(record("zzz", &pin, v4(127, 0, 0, 1, 1)), None, 9), Observation::Rejected);
    discovery.expire(7 + PRESENCE_TTL_SECS);
    assert_eq!(discovery.nearby().len(), 62);
    discovery.expire(8 + PRESENCE_TTL_SECS);
    assert!(discovery.nearby().is_empty());
}

#[test]
fn a_trusted_match_is_online_only_once_stored() {
    let pin = "a1".repeat(32);
    let mut discovery = DiscoveryCoordinator::new(Shared::default());
    assert_eq!(discovery.observe(record("p", &pin, v4(127, 0, 0, 1, 1)), None, 1), Observation::Nearby);
    let stored = peer("p", &format!("blake3:{pin}"));
    let outcome = discovery.observe(record("p", &pin, v4(127, 0, 0, 1, 9)), Some(stored.clone()), 3);
    let Observation::Persist(seen, endpoint) = outcome else { panic!("expected a trusted match") };
    assert_eq!(seen.last_seen_at, Some(3));
    assert_eq!(seen.device_id, "p");
    assert_eq!(endpoint, v4(127, 0, 0, 1, 9));
    assert!(!discovery.snapshot(&stored).online);
    assert_eq!(discovery.nearby().len(), 1);
    discovery.record_trusted_presence("p", 3);
    assert!(discovery.nearby().is_empty());
    let presence = discovery.snapshot(&stored);
    assert!(presence.online);
    assert_eq!(presence.last_seen_at, Some(3));
    let other_pin = discovery.observe(record("p", &"ff".repeat(32), v4(127, 0, 0, 1, 9)), Some(stored), 4);
    assert_eq!(other_pin, Observation::Rejected);
}

#[test]
fn service_errors_are_recorded_once_in_a_row() {
    let mock = Shared::default();
    mock.0.lock().unwrap().fail_browse = true;
    let mut discovery = DiscoveryCoordinator::new(mock.clone());
    assert_eq!(discovery.mdns_state(), MdnsState::Disabled);
    assert!(discovery.refresh().is_empty());
    assert!(discovery.refresh().is_empty());
    assert_eq!(discovery.mdns_state(), MdnsState::Error);
    assert_eq!(discovery.recent_error_codes(), ["mdns_browse_failed"]);
    mock.0.lock().unwrap().fail_browse = false;
    discovery.reconcile(None);
    assert_eq!(discovery.mdns_state(), MdnsState::Browsing);
    discovery.reconcile(Some(record("me", &"a1".repeat(32), v4(127, 0, 0, 1, 4242))));
    assert_eq!(discovery.mdns_state(), MdnsState::Advertising);
    assert_eq!(MdnsState::Advertising.as_str(), "advertising");
}
