use fileporter::source_manifest::{
    entry_id, finish_source_manifest, normalize_roots, path_lt, record_source_entry, SourceManifest,
    SourceObservation,
};
use fileporter::transfer::{EntryKind, SourceFingerprint, TransferError, MAX_TOTAL_LOGICAL_BYTES};

fn path(parts: &[&str]) -> Vec<String> {
    parts.iter().map(|p| p.to_string()).collect()
}

fn empty_manifest() -> SourceManifest {
    SourceManifest { entries: Vec::new(), warnings: Vec::new(), total_logical_bytes: 0, total_entries: 0 }
}

fn dir(modified: u128) -> SourceObservation {
    SourceObservation::Directory { len: 4096, modified_unix_nanos: modified }
}

fn file(len: u64) -> SourceObservation {
    SourceObservation::File { len, modified_unix_nanos: 7 }
}

fn record(m: &mut SourceManifest, parts: &[&str], observed: SourceObservation) -> Result<bool, TransferError> {
    record_source_entry(m, path(parts), observed, format!("/tmp/{}", parts.join("/")))
}

fn expected_id(parts: &[&str], size: u64, nanos: u128) -> String {
    let mut hasher = blake3::Hasher::new();
    for p in parts {
        hasher.update(p.as_bytes());
        hasher.update(&[0]);
    }
    hasher.update(&size.to_be_bytes());
    hasher.update(&nanos.to_be_bytes());
    hasher.finalize().to_hex()[..16].to_string()
}

#[test]
fn manifest_preserves_empty_unicode_hidden_and_nested() {
    let mut m = empty_manifest();
    assert_eq!(record(&mut m, &["root"], dir(1)), Ok(true));
    assert_eq!(record(&mut m, &["root", ".hidden"], file(1)), Ok(false));
    assert_eq!(record(&mut m, &["root", "empty"], dir(2)), Ok(true));
    assert_eq!(record(&mut m, &["root", "nested"], dir(3)), Ok(true));
    assert_eq!(record(&mut m, &["root", "nested", "héllo.txt"], file(1)), Ok(false));
    let m = finish_source_manifest(&m).unwrap();
    assert!(m.entries.iter().any(|e| e.components.ends_with(&["empty".to_string()])));
    assert!(m.entries.iter().any(|e| e.components.ends_with(&["héllo.txt".to_string()])));
    assert!(m.entries.iter().any(|e| e.components.ends_with(&[".hidden".to_string()])));
    assert_eq!(m.total_entries, 5);
    assert_eq!(m.total_logical_bytes, 2);
}

#[test]
fn nested_duplicate_root_is_removed() {
    let roots = normalize_roots(&vec![path(&["tmp", "d", "root"]), path(&["tmp", "d", "root", "child"])]);
    assert_eq!(roots, vec![path(&["tmp", "d", "root"])]);
    let mut m = empty_manifest();
    assert_eq!(record(&mut m, &["root"], dir(1)), Ok(true));
    assert_eq!(record(&mut m, &["root", "child"], dir(2)), Ok(true));
    let m = finish_source_manifest(&m).unwrap();
    assert_eq!(m.entries.iter().filter(|e| e.components.len() == 1).count(), 1);
}

#[test]
fn independently_selected_same_named_roots_do_not_merge() {
    let roots = normalize_roots(&vec![path(&["tmp", "d", "left", "report"]), path(&["tmp", "d", "right", "report"])]);
    assert_eq!(roots.len(), 2);
    let mut m = empty_manifest();
    for _ in &roots {
        assert_eq!(record(&mut m, &["report"], dir(1)), Ok(true));
    }
    assert_eq!(finish_source_manifest(&m), Err(TransferError::InvalidSource));
}

#[test]
fn symlink_is_recorded_as_unsupported_without_following() {
    let mut m = empty_manifest();
    assert_eq!(record(&mut m, &["root"], dir(1)), Ok(true));
    assert_eq!(record(&mut m, &["root", "link"], SourceObservation::Symlink), Ok(false));
    let manifest = finish_source_manifest(&m).unwrap();
    assert!(manifest.warnings.iter().any(|w| w.components.ends_with(&["link".to_string()])));
    assert!(manifest.warnings.iter().all(|w| w.code == "unsupported_entry"));
    assert!(!manifest.entries.iter().any(|e| e.components.ends_with(&["link".to_string()])));
}

#[test]
fn entry_id_is_the_digest_prefix_of_path_and_fingerprint() {
    let fingerprint = SourceFingerprint { size: 12, modified_unix_nanos: 1_700_000_000_123_456_789 };
    let id = entry_id(&path(&["root", "a.txt"]), &fingerprint);
    assert_eq!(id, expected_id(&["root", "a.txt"], 12, 1_700_000_000_123_456_789));
    assert_eq!(id.len(), 16);
    let changed = SourceFingerprint { size: 13, modified_unix_nanos: 1_700_000_000_123_456_789 };
    assert_ne!(entry_id(&path(&["root", "a.txt"]), &changed), id);
}

#[test]
fn recorded_entries_carry_their_fingerprint_and_id() {
    let mut m = empty_manifest();
    assert_eq!(record(&mut m, &["f"], SourceObservation::File { len: 5, modified_unix_nanos: 9 }), Ok(false));
    assert_eq!(record(&mut m, &["d"], SourceObservation::Directory { len: 64, modified_unix_nanos: 3 }), Ok(true));
    let f = &m.entries[0];
    assert_eq!(f.kind, EntryKind::File);
    assert_eq!(f.size, 5);
    assert_eq!(f.fingerprint, SourceFingerprint { size: 5, modified_unix_nanos: 9 });
    assert_eq!(f.id, expected_id(&["f"], 5, 9));
    assert_eq!(f.source_path_local, "/tmp/f");
    let d = &m.entries[1];
    assert_eq!(d.kind, EntryKind::Directory);
    assert_eq!(d.size, 0);
    assert_eq!(d.fingerprint, SourceFingerprint { size: 64, modified_unix_nanos: 3 });
    assert_eq!(d.id, expected_id(&["d"], 64, 3));
    assert_eq!(m.total_entries, 2);
    assert_eq!(m.total_logical_bytes, 5);
}

#[test]
fn unusable_observations_are_refused_and_leave_the_manifest() {
    let mut m = empty_manifest();
    assert_eq!(record(&mut m, &[".."], file(1)), Err(TransferError::InvalidPath));
    assert_eq!(record(&mut m, &["gone"], SourceObservation::Missing), Err(TransferError::SourceMissing));
    assert_eq!(record(&mut m, &["fifo"], SourceObservation::Other), Ok(false));
    assert_eq!(m.entries.len(), 0);
    assert_eq!(m.warnings.len(), 1);
    assert_eq!(m.warnings[0].components, path(&["fifo"]));
}

#[test]
fn byte_total_stays_within_the_limit() {
    let mut m = empty_manifest();
    assert_eq!(record(&mut m, &["big"], file(MAX_TOTAL_LOGICAL_BYTES)), Ok(false));
    assert_eq!(record(&mut m, &["one"], file(1)), Err(TransferError::ManifestLimit));
    assert_eq!(m.total_logical_bytes, MAX_TOTAL_LOGICAL_BYTES);
    assert_eq!(m.entries.len(), 1);
    assert_eq!(record(&mut m, &["empty"], file(0)), Ok(false));
}

#[test]
fn finished_manifest_is_in_path_order_and_stable() {
    let mut m = empty_manifest();
    assert_eq!(record(&mut m, &["b"], file(1)), Ok(false));
    assert_eq!(record(&mut m, &["a", "z"], file(2)), Ok(false));
    assert_eq!(record(&mut m, &["a"], dir(1)), Ok(true));
    assert_eq!(record(&mut m, &["a b"], file(3)), Ok(false));
    let done = finish_source_manifest(&m).unwrap();
    let order: Vec<Vec<String>> = done.entries.iter().map(|e| e.components.clone()).collect();
    assert_eq!(order, vec![path(&["a"]), path(&["a", "z"]), path(&["a b"]), path(&["b"])]);
    assert_eq!(done.total_entries, 4);
    assert_eq!(done.total_logical_bytes, 6);
}

#[test]
fn paths_order_component_by_component() {
    assert!(path_lt(&path(&["a"]), &path(&["a", "b"])));
    assert!(path_lt(&path(&["a", "b"]), &path(&["a b"])));
    assert!(!path_lt(&path(&["b"]), &path(&["a", "z"])));
    assert!(!path_lt(&path(&["a"]), &path(&["a"])));
    assert!(path_lt(&path(&["Z"]), &path(&["a"])));
}

#[test]
fn roots_are_deduplicated_and_sorted() {
    let roots = normalize_roots(&vec![
        path(&["home", "u", "b"]),
        path(&["home", "u", "a"]),
        path(&["home", "u", "b"]),
        path(&["home", "u", "a", "x"]),
        path(&["home", "u", "ab"]),
    ]);
    assert_eq!(roots, vec![path(&["home", "u", "a"]), path(&["home", "u", "ab"]), path(&["home", "u", "b"])]);
    assert_eq!(normalize_roots(&Vec::new()), Vec::<Vec<String>>::new());
}
