use fileporter::engine::{
    check_incoming_manifest, is_loopback_or_private, item_components, normalized_source, safe_file_name,
    staged_file_recovery, staging_is_removable, trusted_pin_from_record, validate_listen_address,
    validate_manual_endpoint, IpAddress, ListenerError, ManifestRefusal, SocketAddress, StagedFileRecovery,
};
use fileporter::protocol::{EntryKind, ManifestEntry, ManifestPage, OfferStart, TopLevelItem};
use fileporter::records::{TransferItem, TrustedPeer};

fn v4(a: u8, b: u8, c: u8, d: u8, port: u16) -> Option<SocketAddress> {
    Some(SocketAddress { ip: IpAddress::V4([a, b, c, d]), port })
}

fn v6(octets: [u8; 16], port: u16) -> Option<SocketAddress> {
    Some(SocketAddress { ip: IpAddress::V6(octets), port })
}

fn loopback6() -> [u8; 16] {
    let mut o = [0u8; 16];
    o[15] = 1;
    o
}

#[test]
fn address_policy_only_allows_loopback_and_private_ranges() {
    assert!(validate_manual_endpoint(v4(127, 0, 0, 1, 4242)).is_ok());
    assert!(validate_manual_endpoint(v4(10, 0, 0, 5, 4242)).is_ok());
    assert!(validate_manual_endpoint(v4(192, 168, 1, 10, 4242)).is_ok());
    assert!(validate_manual_endpoint(v6(loopback6(), 4242)).is_ok());
    let mut fd00 = [0u8; 16];
    fd00[0] = 0xfd;
    fd00[15] = 1;
    assert!(validate_manual_endpoint(v6(fd00, 4242)).is_ok());
    assert!(validate_manual_endpoint(v4(8, 8, 8, 8, 4242)).is_err());
    assert!(validate_manual_endpoint(v4(0, 0, 0, 0, 4242)).is_err());
    assert!(validate_manual_endpoint(v4(127, 0, 0, 1, 0)).is_err());
    assert!(validate_listen_address(v4(127, 0, 0, 1, 0)).is_ok());
    assert!(validate_listen_address(v4(0, 0, 0, 0, 0)).is_ok());
    assert!(validate_listen_address(v6([0u8; 16], 0)).is_ok());
}

#[test]
fn private_ranges_have_exact_edges() {
    assert!(is_loopback_or_private(IpAddress::V4([172, 16, 0, 1])));
    assert!(is_loopback_or_private(IpAddress::V4([172, 31, 255, 255])));
    assert!(!is_loopback_or_private(IpAddress::V4([172, 32, 0, 1])));
    assert!(!is_loopback_or_private(IpAddress::V4([192, 169, 0, 1])));
    let mut fc = [0u8; 16];
    fc[0] = 0xfc;
    assert!(is_loopback_or_private(IpAddress::V6(fc)));
    let mut fe = [0u8; 16];
    fe[0] = 0xfe;
    assert!(!is_loopback_or_private(IpAddress::V6(fe)));
    assert_eq!(validate_manual_endpoint(None), Err(ListenerError::InvalidAddress));
}

#[test]
fn mapped_ipv6_sources_count_as_ipv4() {
    let mut mapped = [0u8; 16];
    mapped[10] = 0xff;
    mapped[11] = 0xff;
    mapped[12..].copy_from_slice(&[192, 168, 1, 2]);
    assert_eq!(normalized_source(IpAddress::V6(mapped)), IpAddress::V4([192, 168, 1, 2]));
    assert_eq!(normalized_source(IpAddress::V6(loopback6())), IpAddress::V6(loopback6()));
}

#[test]
fn safe_file_names_are_plain() {
    assert!(safe_file_name("report.pdf"));
    assert!(!safe_file_name(""));
    assert!(!safe_file_name("."));
    assert!(!safe_file_name(".."));
    assert!(!safe_file_name("a/b"));
    assert!(!safe_file_name("a\\b"));
    assert!(safe_file_name("..."));
}

fn uuid(n: u128) -> [u8; 16] {
    n.to_be_bytes()
}

fn entry(id: u128, parent: Option<u128>, kind: EntryKind, components: &[&str], size: u64) -> ManifestEntry {
    ManifestEntry {
        entry_id: uuid(id),
        parent_entry_id: parent.map(uuid),
        kind,
        components: components.iter().map(|c| c.to_string()).collect(),
        size,
        mtime: None,
    }
}

fn offer(items: Vec<TopLevelItem>, total_bytes: u64, total_entries: u64) -> OfferStart {
    OfferStart { batch_id: uuid(1), items, total_bytes, total_entries, created_at: "now".into() }
}

fn page(entries: Vec<ManifestEntry>) -> ManifestPage {
    ManifestPage { batch_id: uuid(1), page: 0, entries, final_page: true }
}

fn tree() -> (OfferStart, ManifestPage) {
    let entries = vec![
        entry(10, None, EntryKind::Directory, &["docs"], 0),
        entry(11, Some(10), EntryKind::File, &["docs", "a.txt"], 5),
        entry(12, Some(10), EntryKind::Directory, &["docs", "empty"], 0),
        entry(13, None, EntryKind::File, &["b.txt"], 7),
    ];
    let items = vec![
        TopLevelItem { entry_id: uuid(10), name: "docs".into(), kind: EntryKind::Directory, size: 0 },
        TopLevelItem { entry_id: uuid(13), name: "b.txt".into(), kind: EntryKind::File, size: 7 },
    ];
    (offer(items, 12, 4), page(entries))
}

#[test]
fn a_consistent_tree_is_accepted_with_its_byte_total() {
    let (o, p) = tree();
    assert_eq!(check_incoming_manifest(&o, &p), Ok(12));
}

#[test]
fn traversal_manifests_are_refused_before_any_write() {
    let (o, mut p) = tree();
    p.entries[1].components = vec!["docs".into(), "..".into()];
    assert_eq!(check_incoming_manifest(&o, &p), Err(ManifestRefusal::UnsafePath));
}

#[test]
fn manifest_order_identity_and_hierarchy_are_enforced() {
    let (o, mut p) = tree();
    p.entries[2].entry_id = uuid(11);
    assert_eq!(check_incoming_manifest(&o, &p), Err(ManifestRefusal::DuplicateEntry));
    let (o, mut p) = tree();
    p.entries[1].parent_entry_id = Some(uuid(99));
    assert_eq!(check_incoming_manifest(&o, &p), Err(ManifestRefusal::ParentOrder));
    let (o, mut p) = tree();
    p.entries[1].components = vec!["elsewhere".into(), "a.txt".into()];
    assert_eq!(check_incoming_manifest(&o, &p), Err(ManifestRefusal::InvalidHierarchy));
    let (o, mut p) = tree();
    p.entries[3].components = vec!["x".into(), "b.txt".into()];
    assert_eq!(check_incoming_manifest(&o, &p), Err(ManifestRefusal::TopLevelPath));
    let (o, mut p) = tree();
    p.entries[2].size = 3;
    assert_eq!(check_incoming_manifest(&o, &p), Err(ManifestRefusal::InvalidDirectory));
}

#[test]
fn offers_that_disagree_with_their_manifest_are_refused() {
    let (mut o, p) = tree();
    o.total_bytes = 13;
    assert_eq!(check_incoming_manifest(&o, &p), Err(ManifestRefusal::OfferMismatch));
    let (mut o, p) = tree();
    o.items[1].name = "c.txt".into();
    assert_eq!(check_incoming_manifest(&o, &p), Err(ManifestRefusal::OfferMismatch));
    let (mut o, p) = tree();
    o.total_entries = 3;
    assert_eq!(check_incoming_manifest(&o, &p), Err(ManifestRefusal::InvalidManifest));
    let (o, mut p) = tree();
    p.final_page = false;
    assert_eq!(check_incoming_manifest(&o, &p), Err(ManifestRefusal::InvalidManifest));
}

#[test]
fn byte_totals_that_overflow_are_refused() {
    let entries = vec![
        entry(1, None, EntryKind::File, &["a"], u64::MAX),
        entry(2, None, EntryKind::File, &["b"], 1),
    ];
    let items = vec![
        TopLevelItem { entry_id: uuid(1), name: "a".into(), kind: EntryKind::File, size: u64::MAX },
        TopLevelItem { entry_id: uuid(2), name: "b".into(), kind: EntryKind::File, size: 1 },
    ];
    assert_eq!(check_incoming_manifest(&offer(items, 1, 2), &page(entries)), Err(ManifestRefusal::BatchTooLarge));
}

fn item(id: &str, parent: Option<&str>, name: &str) -> TransferItem {
    TransferItem {
        id: id.into(),
        batch_id: "b".into(),
        parent_item_id: parent.map(|p| p.into()),
        kind: "file".into(),
        display_name: name.into(),
        source_path_local: None,
        destination_path_local: None,
        size: 0,
        mtime: None,
        state: "receiving".into(),
        warning_json: None,
    }
}

#[test]
fn stored_items_rebuild_their_relative_paths() {
    let all = vec![item("1", None, "top"), item("2", Some("1"), "mid"), item("3", Some("2"), "leaf.txt")];
    assert_eq!(
        item_components(&all[2], &all),
        Some(vec!["top".to_string(), "mid".to_string(), "leaf.txt".to_string()])
    );
    assert_eq!(item_components(&all[0], &all), Some(vec!["top".to_string()]));
    let orphan = item("4", Some("missing"), "x");
    assert_eq!(item_components(&orphan, &all), None);
    let unsafe_item = item("5", Some("1"), "..");
    assert_eq!(item_components(&unsafe_item, &all), None);
}

#[test]
fn stored_pins_accept_labelled_and_bare_fingerprints() {
    let peer = TrustedPeer {
        device_id: "dev".into(),
        public_key: vec![7; 32],
        certificate_fingerprint: format!("blake3:{}", "0f".repeat(32)),
        remote_name: "Desk".into(),
        local_alias: None,
        paired_at: 0,
        last_seen_at: None,
        auto_send: true,
        revoked_at: None,
        endpoint: None,
    };
    let pin = trusted_pin_from_record(&peer).unwrap();
    assert_eq!(pin.public_key, [7; 32]);
    assert_eq!(pin.certificate_fingerprint, [0x0f; 32]);
    let mut bare = peer.clone();
    bare.certificate_fingerprint = "AB".repeat(32);
    assert_eq!(trusted_pin_from_record(&bare).unwrap().certificate_fingerprint, [0xab; 32]);
    let mut short_key = peer.clone();
    short_key.public_key = vec![1; 31];
    assert!(trusted_pin_from_record(&short_key).is_err());
    let mut short_pin = peer;
    short_pin.certificate_fingerprint = "sha256:00".into();
    assert!(trusted_pin_from_record(&short_pin).is_err());
}

#[test]
fn startup_recovery_trusts_the_disk_over_the_checkpoint() {
    assert_eq!(staged_file_recovery(10, None, Some(4), None), StagedFileRecovery::Corrupt);
    assert_eq!(staged_file_recovery(10, Some(11), None, None), StagedFileRecovery::Corrupt);
    assert_eq!(staged_file_recovery(10, Some(10), Some(10), Some(true)), StagedFileRecovery::Keep);
    assert_eq!(staged_file_recovery(10, Some(9), Some(10), Some(true)), StagedFileRecovery::Corrupt);
    assert_eq!(staged_file_recovery(10, Some(10), Some(10), Some(false)), StagedFileRecovery::Corrupt);
    assert_eq!(
        staged_file_recovery(10, Some(8), Some(5), None),
        StagedFileRecovery::Rewind { truncate_to: Some(5), durable_offset: 5 }
    );
    assert_eq!(
        staged_file_recovery(10, Some(3), Some(5), None),
        StagedFileRecovery::Rewind { truncate_to: None, durable_offset: 3 }
    );
    assert_eq!(staged_file_recovery(10, Some(5), Some(5), None), StagedFileRecovery::Keep);
    assert_eq!(staged_file_recovery(10, Some(0), None, None), StagedFileRecovery::Keep);
}

#[test]
fn only_old_unreferenced_staging_is_pruned() {
    let day = 86_400;
    assert!(staging_is_removable(31 * day, Some(0), false));
    assert!(!staging_is_removable(29 * day, Some(0), false));
    assert!(!staging_is_removable(31 * day, Some(0), true));
    assert!(!staging_is_removable(31 * day, None, false));
    assert!(staging_is_removable(i64::MAX, Some(i64::MIN), false));
}
