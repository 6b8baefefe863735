//! The manifest a sender builds from the roots a user selected: which roots
//! are scanned (repeated roots and roots inside other roots drop out), what
//! each scanned path adds, how an entry is identified, and the final order,
//! in which no two entries may share a path.  Walking the file system is
//! the caller's.
use crate::bytes::{be_u64, push_be_u64, push_bytes};
use crate::crypto::{blake3_digest, blake3_hash};
use crate::text::{
    chars_of, hex_encode, hex_lower, lemma_text_less_irreflexive, lemma_text_less_total,
    lemma_text_less_transitive, str_equal, string_from_chars, text_less, text_lt,
};
use crate::transfer::{
    clone_strings, receiver_path_ok, validate_receiver_components, views, EntryKind, ManifestWarning,
    SourceFingerprint, TransferError, MAX_ENTRIES, MAX_TOTAL_LOGICAL_BYTES,
};
use vstd::prelude::*;

verus! {

/// One scanned source entry: its ID, kind, receiver-relative path, size
/// and modification time, where it is on this device, and the fingerprint
/// it was scanned with.
#[derive(Debug, Clone, PartialEq, Eq)]
pub struct ManifestEntry {
    pub id: String,
    pub kind: EntryKind,
    pub components: Vec<String>,
    pub size: u64,
    pub modified_unix_nanos: u128,
    pub source_path_local: String,
    pub fingerprint: SourceFingerprint,
}

/// What a scan of the selected roots found.
#[derive(Debug, Clone, PartialEq, Eq)]
pub struct SourceManifest {
    pub entries: Vec<ManifestEntry>,
    pub warnings: Vec<ManifestWarning>,
    pub total_logical_bytes: u64,
    pub total_entries: usize,
}

/// An entry as plain values.
pub struct EntryView {
    pub id: Seq<char>,
    pub kind: EntryKind,
    pub components: Seq<Seq<char>>,
    pub size: u64,
    pub modified_unix_nanos: u128,
    pub source_path_local: Seq<char>,
    pub fingerprint: SourceFingerprint,
}

impl View for ManifestEntry {
    type V = EntryView;

    open spec fn view(&self) -> EntryView {
        EntryView {
            id: self.id@,
            kind: self.kind,
            components: views(self.components@),
            size: self.size,
            modified_unix_nanos: self.modified_unix_nanos,
            source_path_local: self.source_path_local@,
            fingerprint: self.fingerprint,
        }
    }
}

pub open spec fn entry_views(entries: Seq<ManifestEntry>) -> Seq<EntryView> {
    entries.map_values(|e: ManifestEntry| e@)
}

pub open spec fn warning_views(warnings: Seq<ManifestWarning>) -> Seq<(Seq<char>, Seq<Seq<char>>)> {
    warnings.map_values(|w: ManifestWarning| (w.code@, views(w.components@)))
}

/// A manifest being built counts each of its entries once.
pub open spec fn manifest_ok(m: SourceManifest) -> bool {
    &&& m.total_entries == m.entries@.len()
    &&& m.entries@.len() <= MAX_ENTRIES
}

/// Each component's UTF-8 bytes followed by a zero byte.
pub open spec fn components_bytes(cs: Seq<Seq<char>>) -> Seq<u8>
    decreases cs.len(),
{
    if cs.len() == 0 {
        Seq::empty()
    } else {
        components_bytes(cs.drop_last()) + vstd::utf8::encode_utf8(cs.last()) + seq![0u8]
    }
}

/// The big-endian bytes of a `u128`.
pub open spec fn be_u128(x: u128) -> Seq<u8> {
    be_u64((x / 0x1_0000_0000_0000_0000) as u64) + be_u64((x % 0x1_0000_0000_0000_0000) as u64)
}

/// An entry's ID: the first 16 hexadecimal characters of the BLAKE3
/// digest of its path and fingerprint.
pub open spec fn source_entry_id(cs: Seq<Seq<char>>, fingerprint: SourceFingerprint) -> Seq<char> {
    hex_lower(
        blake3_digest(
            components_bytes(cs) + be_u64(fingerprint.size) + be_u128(fingerprint.modified_unix_nanos),
        ).subrange(0, 8),
    )
}

/// The ID of the entry at `components` scanned with `fingerprint`.
#[verifier::rlimit(40)]
pub fn entry_id(components: &Vec<String>, fingerprint: &SourceFingerprint) -> (id: String)
    ensures
        id@ == source_entry_id(views(components@), *fingerprint),
{
    let ghost cs = views(components@);
    let mut input: Vec<u8> = Vec::new();
    let mut i: usize = 0;
    while i < components.len()
        invariant
            i <= components@.len(),
            cs == views(components@),
            input@ == components_bytes(cs.subrange(0, i as int)),
        decreases components@.len() - i,
    {
        let ghost before = input@;
        push_bytes(&mut input, components[i].as_str().as_bytes());
        input.push(0u8);
        let ghost prefix = cs.subrange(0, i + 1);
        assert(prefix.drop_last() =~= cs.subrange(0, i as int));
        assert(prefix.last() == components@[i as int]@);
        assert(input@ =~= before + vstd::utf8::encode_utf8(components@[i as int]@) + seq![0u8]);
        i = i + 1;
    }
    assert(cs.subrange(0, i as int) =~= cs);
    push_be_u64(&mut input, fingerprint.size);
    let nanos = fingerprint.modified_unix_nanos;
    let high = (nanos >> 64u128) as u64;
    let low = (nanos & 0xffff_ffff_ffff_ffffu128) as u64;
    assert(((nanos >> 64u128) as u64) == (nanos / 0x1_0000_0000_0000_0000) as u64) by (bit_vector);
    assert(((nanos & 0xffff_ffff_ffff_ffffu128) as u64) == (nanos % 0x1_0000_0000_0000_0000) as u64) by (bit_vector);
    let ghost before_time = input@;
    push_be_u64(&mut input, high);
    push_be_u64(&mut input, low);
    assert(input@ =~= before_time + be_u128(nanos));
    let digest = blake3_hash(input.as_slice());
    let first = crate::bytes::copy_range(&digest, 0, 8);
    let hex = hex_encode(&first);
    string_from_chars(&hex)
}

/// What the file system says of a scanned path.
#[derive(Debug, Clone, Copy, PartialEq, Eq)]
pub enum SourceObservation {
    /// It cannot be examined.
    Missing,
    /// It is a symbolic link, which is never followed.
    Symlink,
    /// A regular file of `len` bytes.
    File { len: u64, modified_unix_nanos: u128 },
    /// A directory whose metadata length is `len`.
    Directory { len: u64, modified_unix_nanos: u128 },
    /// Anything else.
    Other,
}

/// The warning recorded for a path that is not sent.
pub open spec fn unsupported_warning(cs: Seq<Seq<char>>) -> (Seq<char>, Seq<Seq<char>>) {
    ("unsupported_entry"@, cs)
}

/// The entry recorded for a path.
pub open spec fn entry_for(cs: Seq<Seq<char>>, kind: EntryKind, len: u64, modified: u128, path: Seq<char>) -> EntryView {
    let fingerprint = SourceFingerprint { size: len, modified_unix_nanos: modified };
    EntryView {
        id: source_entry_id(cs, fingerprint),
        kind,
        components: cs,
        size: if kind == EntryKind::File { len } else { 0 },
        modified_unix_nanos: modified,
        source_path_local: path,
        fingerprint,
    }
}

/// A manifest as plain values: its entries, its warnings and its byte total.
pub open spec fn manifest_views(m: SourceManifest) -> (Seq<EntryView>, Seq<(Seq<char>, Seq<Seq<char>>)>, u64) {
    (entry_views(m.entries@), warning_views(m.warnings@), m.total_logical_bytes)
}

/// What recording the path `cs`, observed as `observed` at `path`, gives:
/// whether its children are scanned, and the manifest after it.
#[verifier::opaque]
pub open spec fn record_outcome(
    before: (Seq<EntryView>, Seq<(Seq<char>, Seq<Seq<char>>)>, u64),
    cs: Seq<Seq<char>>,
    observed: SourceObservation,
    path: Seq<char>,
) -> (Result<bool, TransferError>, (Seq<EntryView>, Seq<(Seq<char>, Seq<Seq<char>>)>, u64)) {
    if !receiver_path_ok(cs) {
        (Err(TransferError::InvalidPath), before)
    } else if before.0.len() >= MAX_ENTRIES {
        (Err(TransferError::ManifestLimit), before)
    } else {
        match observed {
            SourceObservation::Missing => (Err(TransferError::SourceMissing), before),
            SourceObservation::Symlink | SourceObservation::Other => (
                Ok(false),
                (before.0, before.1.push(unsupported_warning(cs)), before.2),
            ),
            SourceObservation::File { len, modified_unix_nanos } => if before.2 + len > MAX_TOTAL_LOGICAL_BYTES {
                (Err(TransferError::ManifestLimit), before)
            } else {
                (
                    Ok(false),
                    (
                        before.0.push(entry_for(cs, EntryKind::File, len, modified_unix_nanos, path)),
                        before.1,
                        (before.2 + len) as u64,
                    ),
                )
            },
            SourceObservation::Directory { len, modified_unix_nanos } => (
                Ok(true),
                (before.0.push(entry_for(cs, EntryKind::Directory, len, modified_unix_nanos, path)), before.1, before.2),
            ),
        }
    }
}

fn push_warning(manifest: &mut SourceManifest, components: Vec<String>)
    requires
        manifest_ok(*old(manifest)),
    ensures
        manifest_ok(*final(manifest)),
        manifest_views(*final(manifest)) == ({
            let b = manifest_views(*old(manifest));
            (b.0, b.1.push(unsupported_warning(views(components@))), b.2)
        }),
{
    proof {
        reveal_strlit("unsupported_entry");
    }
    let ghost before = warning_views(manifest.warnings@);
    let ghost cs = views(components@);
    manifest.warnings.push(ManifestWarning { code: "unsupported_entry".to_owned(), components });
    assert(warning_views(manifest.warnings@) =~= before.push(unsupported_warning(cs)));
}

fn push_entry(manifest: &mut SourceManifest, entry: ManifestEntry, added: u64)
    requires
        manifest_ok(*old(manifest)),
        old(manifest).entries@.len() < MAX_ENTRIES,
        old(manifest).total_logical_bytes + added <= u64::MAX,
    ensures
        manifest_ok(*final(manifest)),
        manifest_views(*final(manifest)) == ({
            let b = manifest_views(*old(manifest));
            (b.0.push(entry@), b.1, (b.2 + added) as u64)
        }),
{
    let ghost before = entry_views(manifest.entries@);
    let ghost v = entry@;
    manifest.total_logical_bytes = manifest.total_logical_bytes + added;
    manifest.entries.push(entry);
    manifest.total_entries = manifest.total_entries + 1;
    assert(entry_views(manifest.entries@) =~= before.push(v));
}

fn record_file(
    manifest: &mut SourceManifest,
    components: Vec<String>,
    len: u64,
    modified_unix_nanos: u128,
    source_path: String,
) -> (result: Result<bool, TransferError>)
    requires
        manifest_ok(*old(manifest)),
        old(manifest).entries@.len() < MAX_ENTRIES,
        old(manifest).total_logical_bytes <= MAX_TOTAL_LOGICAL_BYTES,
    ensures
        manifest_ok(*final(manifest)),
        ({
            let b = manifest_views(*old(manifest));
            let cs = views(components@);
            if b.2 + len > MAX_TOTAL_LOGICAL_BYTES {
                result == Err::<bool, TransferError>(TransferError::ManifestLimit) && manifest_views(*final(manifest))
                    == b
            } else {
                result == Ok::<bool, TransferError>(false) && manifest_views(*final(manifest)) == (
                    b.0.push(entry_for(cs, EntryKind::File, len, modified_unix_nanos, source_path@)),
                    b.1,
                    (b.2 + len) as u64,
                )
            }
        }),
{
    if len > MAX_TOTAL_LOGICAL_BYTES - manifest.total_logical_bytes {
        return Err(TransferError::ManifestLimit);
    }
    let ghost cs = views(components@);
    let ghost path = source_path@;
    let fingerprint = SourceFingerprint { size: len, modified_unix_nanos };
    let id = entry_id(&components, &fingerprint);
    let entry = ManifestEntry {
        id,
        kind: EntryKind::File,
        components,
        size: len,
        modified_unix_nanos,
        source_path_local: source_path,
        fingerprint,
    };
    assert(entry@ == entry_for(cs, EntryKind::File, len, modified_unix_nanos, path));
    push_entry(manifest, entry, len);
    Ok(false)
}

fn record_directory(
    manifest: &mut SourceManifest,
    components: Vec<String>,
    len: u64,
    modified_unix_nanos: u128,
    source_path: String,
)
    requires
        manifest_ok(*old(manifest)),
        old(manifest).entries@.len() < MAX_ENTRIES,
    ensures
        manifest_ok(*final(manifest)),
        ({
            let b = manifest_views(*old(manifest));
            manifest_views(*final(manifest)) == (
                b.0.push(entry_for(views(components@), EntryKind::Directory, len, modified_unix_nanos, source_path@)),
                b.1,
                b.2,
            )
        }),
{
    let ghost cs = views(components@);
    let ghost path = source_path@;
    let fingerprint = SourceFingerprint { size: len, modified_unix_nanos };
    let id = entry_id(&components, &fingerprint);
    let entry = ManifestEntry {
        id,
        kind: EntryKind::Directory,
        components,
        size: 0,
        modified_unix_nanos,
        source_path_local: source_path,
        fingerprint,
    };
    assert(entry@ == entry_for(cs, EntryKind::Directory, len, modified_unix_nanos, path));
    push_entry(manifest, entry, 0);
}

/// Records one scanned path, at `components`, as the file system observed
/// it, as `record_outcome` says; the result tells whether its children are
/// to be scanned, which only a directory's are.
pub fn record_source_entry(
    manifest: &mut SourceManifest,
    components: Vec<String>,
    observed: SourceObservation,
    source_path: String,
) -> (result: Result<bool, TransferError>)
    requires
        manifest_ok(*old(manifest)),
        old(manifest).total_logical_bytes <= MAX_TOTAL_LOGICAL_BYTES,
    ensures
        manifest_ok(*final(manifest)),
        final(manifest).total_logical_bytes <= MAX_TOTAL_LOGICAL_BYTES,
        (result, manifest_views(*final(manifest))) == record_outcome(
            manifest_views(*old(manifest)),
            views(components@),
            observed,
            source_path@,
        ),
{
    proof {
        reveal(record_outcome);
    }
    let ok = validate_receiver_components(components.as_slice()).is_ok();
    if !ok {
        return Err(TransferError::InvalidPath);
    }
    if manifest.entries.len() >= MAX_ENTRIES {
        return Err(TransferError::ManifestLimit);
    }
    match observed {
        SourceObservation::Missing => Err(TransferError::SourceMissing),
        SourceObservation::Symlink => {
            push_warning(manifest, components);
            Ok(false)
        },
        SourceObservation::Other => {
            push_warning(manifest, components);
            Ok(false)
        },
        SourceObservation::File { len, modified_unix_nanos } => record_file(
            manifest,
            components,
            len,
            modified_unix_nanos,
            source_path,
        ),
        SourceObservation::Directory { len, modified_unix_nanos } => {
            record_directory(manifest, components, len, modified_unix_nanos, source_path);
            Ok(true)
        },
    }
}

/// Lexicographic order of paths, component by component, each component in
/// code-point order: the order of `Vec<String>` and of `Path`.  A path
/// comes before its extensions.
pub open spec fn path_less(a: Seq<Seq<char>>, b: Seq<Seq<char>>) -> bool {
    ||| exists|i: int| 0 <= i < a.len() && i < b.len() && a.subrange(0, i) == b.subrange(0, i) && text_less(a[i], b[i])
    ||| a.len() < b.len() && a == b.subrange(0, a.len() as int)
}

proof fn lemma_path_less_irreflexive(a: Seq<Seq<char>>)
    ensures
        !path_less(a, a),
{
    if path_less(a, a) {
        let w = choose|w: int| 0 <= w < a.len() && w < a.len() && a.subrange(0, w) == a.subrange(0, w) && text_less(a[w], a[w]);
        lemma_text_less_irreflexive(a[w]);
    }
}

proof fn lemma_path_less_transitive(a: Seq<Seq<char>>, b: Seq<Seq<char>>, c: Seq<Seq<char>>)
    requires
        path_less(a, b),
        path_less(b, c),
    ensures
        path_less(a, c),
{
    let p = a.len() < b.len() && a == b.subrange(0, a.len() as int);
    let q = b.len() < c.len() && b == c.subrange(0, b.len() as int);
    let i: int = if p {
        a.len() as int
    } else {
        choose|i: int| 0 <= i < a.len() && i < b.len() && a.subrange(0, i) == b.subrange(0, i) && text_less(a[i], b[i])
    };
    let j: int = if q {
        b.len() as int
    } else {
        choose|j: int| 0 <= j < b.len() && j < c.len() && b.subrange(0, j) == c.subrange(0, j) && text_less(b[j], c[j])
    };
    if p {
        assert(a.subrange(0, i) =~= a);
    }
    if q {
        assert(b.subrange(0, j) =~= b);
    }
    if i < j {
        assert(b.subrange(0, i) =~= b.subrange(0, j).subrange(0, i));
        assert(c.subrange(0, i) =~= c.subrange(0, j).subrange(0, i));
        if p {
            assert(a =~= c.subrange(0, a.len() as int));
        } else {
            assert(b[i] == b.subrange(0, j)[i]);
            assert(c[i] == c.subrange(0, j)[i]);
            assert(0 <= i < a.len() && i < c.len() && a.subrange(0, i) == c.subrange(0, i) && text_less(a[i], c[i]));
        }
    } else if i == j {
        if p {
            assert(a =~= c.subrange(0, a.len() as int));
        } else {
            lemma_text_less_transitive(a[i], b[i], c[i]);
            assert(0 <= i < a.len() && i < c.len() && a.subrange(0, i) == c.subrange(0, i) && text_less(a[i], c[i]));
        }
    } else {
        assert(a.subrange(0, j) =~= a.subrange(0, i).subrange(0, j));
        assert(b.subrange(0, j) =~= b.subrange(0, i).subrange(0, j));
        assert(a[j] == a.subrange(0, i)[j]);
        assert(b[j] == b.subrange(0, i)[j]);
        assert(0 <= j < a.len() && j < c.len() && a.subrange(0, j) == c.subrange(0, j) && text_less(a[j], c[j]));
    }
}

proof fn lemma_path_less_from(a: Seq<Seq<char>>, b: Seq<Seq<char>>, i: int)
    requires
        a != b,
        0 <= i <= a.len(),
        i <= b.len(),
        a.subrange(0, i) == b.subrange(0, i),
    ensures
        path_less(a, b) || path_less(b, a),
    decreases a.len() - i,
{
    if i == a.len() || i == b.len() {
        if a.len() < b.len() {
            assert(a =~= b.subrange(0, a.len() as int)) by {
                assert(a =~= a.subrange(0, i));
            }
        } else if b.len() < a.len() {
            assert(b =~= a.subrange(0, b.len() as int)) by {
                assert(b =~= b.subrange(0, i));
            }
        } else {
            assert(a =~= b) by {
                assert(a =~= a.subrange(0, i));
                assert(b =~= b.subrange(0, i));
            }
        }
    } else if a[i] == b[i] {
        assert(a.subrange(0, i + 1) =~= b.subrange(0, i + 1)) by {
            assert forall|k: int| 0 <= k < i + 1 implies a[k] == b[k] by {
                if k < i {
                    assert(a[k] == a.subrange(0, i)[k]);
                    assert(b[k] == b.subrange(0, i)[k]);
                }
            }
        }
        lemma_path_less_from(a, b, i + 1);
    } else {
        lemma_text_less_total(a[i], b[i]);
        if text_less(a[i], b[i]) {
            assert(0 <= i < a.len() && i < b.len() && a.subrange(0, i) == b.subrange(0, i) && text_less(a[i], b[i]));
        } else {
            assert(0 <= i < b.len() && i < a.len() && b.subrange(0, i) == a.subrange(0, i) && text_less(b[i], a[i]));
        }
    }
}

proof fn lemma_path_less_total(a: Seq<Seq<char>>, b: Seq<Seq<char>>)
    requires
        a != b,
    ensures
        path_less(a, b) || path_less(b, a),
{
    assert(a.subrange(0, 0) =~= b.subrange(0, 0));
    lemma_path_less_from(a, b, 0);
}

fn texts_equal(a: &String, b: &String) -> (equal: bool)
    ensures
        equal == (a@ == b@),
{
    str_equal(a.as_str(), b.as_str())
}

/// Whether `a` comes strictly before `b` as paths.
pub fn path_lt(a: &Vec<String>, b: &Vec<String>) -> (less: bool)
    ensures
        less == path_less(views(a@), views(b@)),
{
    let ghost x = views(a@);
    let ghost y = views(b@);
    let mut i: usize = 0;
    while i < a.len() && i < b.len()
        invariant
            i <= a@.len(),
            i <= b@.len(),
            x == views(a@),
            y == views(b@),
            x.subrange(0, i as int) == y.subrange(0, i as int),
        decreases a@.len() - i,
    {
        if !texts_equal(&a[i], &b[i]) {
            let less = text_lt(&chars_of(a[i].as_str()), &chars_of(b[i].as_str()));
            proof {
                assert(x[i as int] == a@[i as int]@ && y[i as int] == b@[i as int]@);
                if !less {
                    assert forall|j: int|
                        0 <= j < x.len() && j < y.len() && x.subrange(0, j) == y.subrange(0, j) implies !text_less(
                        x[j],
                        y[j],
                    ) by {
                        if j < i {
                            assert(x[j] == x.subrange(0, i as int)[j]);
                            assert(y[j] == y.subrange(0, i as int)[j]);
                            lemma_text_less_irreflexive(x[j]);
                        } else if j > i {
                            assert(x[i as int] == x.subrange(0, j)[i as int]);
                            assert(y[i as int] == y.subrange(0, j)[i as int]);
                        }
                    }
                    if x.len() < y.len() && x == y.subrange(0, x.len() as int) {
                        assert(x[i as int] == y.subrange(0, x.len() as int)[i as int]);
                    }
                }
            }
            return less;
        }
        proof {
            assert(x[i as int] == a@[i as int]@ && y[i as int] == b@[i as int]@);
        }
        i = i + 1;
        assert(x.subrange(0, i as int) =~= y.subrange(0, i as int)) by {
            assert forall|j: int| 0 <= j < i implies x[j] == y[j] by {
                if j < i - 1 {
                    assert(x[j] == x.subrange(0, i - 1)[j]);
                    assert(y[j] == y.subrange(0, i - 1)[j]);
                }
            }
        }
    }
    let less = a.len() < b.len();
    proof {
        assert forall|j: int|
            0 <= j < x.len() && j < y.len() && x.subrange(0, j) == y.subrange(0, j) implies !text_less(x[j], y[j]) by {
            assert(x[j] == x.subrange(0, i as int)[j]);
            assert(y[j] == y.subrange(0, i as int)[j]);
            lemma_text_less_irreflexive(x[j]);
        }
        if less {
            assert(x =~= x.subrange(0, i as int));
            assert(y.subrange(0, x.len() as int) =~= y.subrange(0, i as int));
        }
    }
    less
}

fn paths_equal(a: &Vec<String>, b: &Vec<String>) -> (equal: bool)
    ensures
        equal == (views(a@) == views(b@)),
{
    let ghost x = views(a@);
    let ghost y = views(b@);
    if a.len() != b.len() {
        assert(x.len() != y.len());
        return false;
    }
    let mut i: usize = 0;
    while i < a.len()
        invariant
            i <= a@.len(),
            a@.len() == b@.len(),
            x == views(a@),
            y == views(b@),
            forall|k: int| 0 <= k < i ==> x[k] == y[k],
        decreases a@.len() - i,
    {
        if !texts_equal(&a[i], &b[i]) {
            assert(x[i as int] != y[i as int]);
            return false;
        }
        i = i + 1;
    }
    assert(x =~= y);
    true
}

/// `sorted` with `e` placed after every entry whose path does not come
/// after its own.
pub open spec fn insert_by_path(sorted: Seq<EntryView>, e: EntryView) -> Seq<EntryView>
    decreases sorted.len(),
{
    if sorted.len() == 0 {
        seq![e]
    } else if !path_less(e.components, sorted.last().components) {
        sorted.push(e)
    } else {
        insert_by_path(sorted.drop_last(), e).push(sorted.last())
    }
}

/// The entries ordered by path; entries with the same path keep their
/// order.
pub open spec fn sorted_by_path(entries: Seq<EntryView>) -> Seq<EntryView>
    decreases entries.len(),
{
    if entries.len() == 0 {
        entries
    } else {
        insert_by_path(sorted_by_path(entries.drop_last()), entries.last())
    }
}

/// Whether two neighbouring entries share a path.
pub open spec fn has_repeated_path(entries: Seq<EntryView>) -> bool {
    exists|k: int| 0 <= k && k + 1 < entries.len() && #[trigger] entries[k].components == entries[k + 1].components
}

proof fn lemma_insert_by_path_at(sorted: Seq<EntryView>, e: EntryView, j: int)
    requires
        0 <= j <= sorted.len(),
        forall|k: int| j <= k < sorted.len() ==> path_less(e.components, (#[trigger] sorted[k]).components),
        j > 0 ==> !path_less(e.components, sorted[j - 1].components),
    ensures
        insert_by_path(sorted, e) == sorted.insert(j, e),
    decreases sorted.len(),
{
    if sorted.len() == 0 {
        assert(sorted.insert(j, e) =~= seq![e]);
    } else if j == sorted.len() {
        assert(sorted.insert(j, e) =~= sorted.push(e));
    } else {
        assert(path_less(e.components, sorted[sorted.len() - 1].components));
        lemma_insert_by_path_at(sorted.drop_last(), e, j);
        assert(sorted.insert(j, e) =~= sorted.drop_last().insert(j, e).push(sorted.last()));
    }
}

/// No entry's path comes before that of an entry ahead of it.
pub open spec fn ordered_by_path(s: Seq<EntryView>) -> bool {
    forall|i: int, j: int| 0 <= i < j < s.len() ==> !path_less(#[trigger] s[j].components, #[trigger] s[i].components)
}

proof fn lemma_insert_by_path_keeps_order(sorted: Seq<EntryView>, e: EntryView)
    requires
        ordered_by_path(sorted),
    ensures
        ordered_by_path(insert_by_path(sorted, e)),
        insert_by_path(sorted, e).to_multiset() == sorted.to_multiset().insert(e),
    decreases sorted.len(),
{
    broadcast use vstd::seq_lib::group_to_multiset_ensures;

    if sorted.len() == 0 {
        assert(seq![e] =~= sorted.push(e));
    } else if !path_less(e.components, sorted.last().components) {
        let r = sorted.push(e);
        let n = sorted.len() as int;
        assert forall|i: int, j: int| 0 <= i < j < r.len() implies !path_less(
            #[trigger] r[j].components,
            #[trigger] r[i].components,
        ) by {
            if j == n && i < n - 1 {
                assert(r[i] == sorted[i]);
                assert(!path_less(sorted[n - 1].components, sorted[i].components));
                if path_less(e.components, sorted[i].components) {
                    if e.components == sorted[n - 1].components {
                    } else {
                        lemma_path_less_total(e.components, sorted[n - 1].components);
                        lemma_path_less_transitive(sorted[n - 1].components, e.components, sorted[i].components);
                    }
                }
            } else if j < n {
                assert(r[i] == sorted[i] && r[j] == sorted[j]);
            }
        }
    } else {
        let last = sorted.last();
        let rest = sorted.drop_last();
        assert(ordered_by_path(rest)) by {
            assert forall|i: int, j: int| 0 <= i < j < rest.len() implies !path_less(
                #[trigger] rest[j].components,
                #[trigger] rest[i].components,
            ) by {
                assert(rest[i] == sorted[i] && rest[j] == sorted[j]);
            }
        }
        lemma_insert_by_path_keeps_order(rest, e);
        let inner = insert_by_path(rest, e);
        let r = inner.push(last);
        assert(sorted =~= rest.push(last));
        assert(r.to_multiset() =~= sorted.to_multiset().insert(e));
        assert forall|i: int, j: int| 0 <= i < j < r.len() implies !path_less(
            #[trigger] r[j].components,
            #[trigger] r[i].components,
        ) by {
            if j == inner.len() {
                let x = inner[i];
                assert(r[i] == x);
                assert(inner.to_multiset().count(x) > 0);
                if x == e {
                    if path_less(last.components, e.components) {
                        lemma_path_less_transitive(e.components, last.components, e.components);
                        lemma_path_less_irreflexive(e.components);
                    }
                } else {
                    assert(rest.to_multiset().count(x) > 0);
                    assert(rest.contains(x));
                    let k = choose|k: int| 0 <= k < rest.len() && rest[k] == x;
                    assert(sorted[k] == x);
                    assert(sorted[sorted.len() - 1] == last);
                }
            } else {
                assert(r[i] == inner[i] && r[j] == inner[j]);
            }
        }
    }
}

/// Sorting by path puts the entries in path order and keeps each of them.
proof fn lemma_sorted_by_path(entries: Seq<EntryView>)
    ensures
        ordered_by_path(sorted_by_path(entries)),
        sorted_by_path(entries).to_multiset() == entries.to_multiset(),
    decreases entries.len(),
{
    broadcast use vstd::seq_lib::group_to_multiset_ensures;

    if entries.len() == 0 {
    } else {
        lemma_sorted_by_path(entries.drop_last());
        lemma_insert_by_path_keeps_order(sorted_by_path(entries.drop_last()), entries.last());
        assert(entries =~= entries.drop_last().push(entries.last()));
    }
}

/// In path order, paths that differ from their neighbours differ from all.
proof fn lemma_ordered_paths_distinct(s: Seq<EntryView>)
    requires
        ordered_by_path(s),
        !has_repeated_path(s),
    ensures
        forall|i: int, j: int| 0 <= i < j < s.len() ==> (#[trigger] s[i]).components != (#[trigger] s[j]).components,
{
    assert forall|i: int, j: int| 0 <= i < j < s.len() implies (#[trigger] s[i]).components != (
    #[trigger] s[j]).components by {
        let a = s[i].components;
        let b = s[i + 1].components;
        assert(a != b);
        if a == s[j].components {
            assert(!path_less(b, a));
            if i + 1 < j {
                assert(!path_less(s[j].components, s[i + 1].components));
            }
            lemma_path_less_total(a, b);
        }
    }
}

/// Whether two of the entries share a path.
pub open spec fn shares_a_path(entries: Seq<EntryView>) -> bool {
    exists|i: int, j: int|
        0 <= i < j < entries.len() && (#[trigger] entries[i]).components == (#[trigger] entries[j]).components
}

proof fn lemma_two_positions(s: Seq<EntryView>, t: Seq<EntryView>, i: int, j: int) -> (pq: (int, int))
    requires
        s.to_multiset() == t.to_multiset(),
        0 <= i < s.len(),
        0 <= j < s.len(),
        i != j,
    ensures
        0 <= pq.0 < t.len(),
        0 <= pq.1 < t.len(),
        pq.0 != pq.1,
        t[pq.0] == s[i],
        t[pq.1] == s[j],
{
    broadcast use vstd::seq_lib::group_to_multiset_ensures;

    let a = s[i];
    let b = s[j];
    assert(s.contains(a));
    assert(t.to_multiset().count(a) > 0);
    let p = choose|p: int| 0 <= p < t.len() && t[p] == a;
    let rs = s.remove(i);
    let rt = t.remove(p);
    assert(rs.to_multiset() == rt.to_multiset());
    let j1 = if j < i { j } else { j - 1 };
    assert(rs[j1] == b);
    assert(rs.contains(b));
    assert(rt.to_multiset().count(b) > 0);
    let q1 = choose|q: int| 0 <= q < rt.len() && rt[q] == b;
    let q = if q1 < p { q1 } else { q1 + 1 };
    assert(t[q] == rt[q1]);
    (p, q)
}

/// Sorting by path brings entries that share a path next to each other.
proof fn lemma_repeated_iff_shared(entries: Seq<EntryView>)
    ensures
        has_repeated_path(sorted_by_path(entries)) == shares_a_path(entries),
{
    let s = sorted_by_path(entries);
    lemma_sorted_by_path(entries);
    if has_repeated_path(s) {
        let k = choose|k: int| 0 <= k && k + 1 < s.len() && #[trigger] s[k].components == s[k + 1].components;
        let (p, q) = lemma_two_positions(s, entries, k, k + 1);
        if p < q {
            assert(entries[p].components == entries[q].components);
        } else {
            assert(entries[q].components == entries[p].components);
        }
    }
    if shares_a_path(entries) {
        let (i, j) = choose|i: int, j: int|
            0 <= i < j < entries.len() && (#[trigger] entries[i]).components == (#[trigger] entries[j]).components;
        let (p0, q0) = lemma_two_positions(entries, s, i, j);
        let p = if p0 < q0 { p0 } else { q0 };
        let q = if p0 < q0 { q0 } else { p0 };
        let x = s[p].components;
        let y = s[p + 1].components;
        assert(s[q].components == x);
        if p + 1 < q {
            assert(!path_less(y, x));
            assert(!path_less(s[q].components, s[p + 1].components));
            if y != x {
                lemma_path_less_total(x, y);
            }
        }
        assert(s[p].components == s[p + 1].components);
    }
}

fn copy_entry(e: &ManifestEntry) -> (c: ManifestEntry)
    ensures
        c@ == e@,
{
    ManifestEntry {
        id: e.id.clone(),
        kind: e.kind,
        components: clone_strings(&e.components),
        size: e.size,
        modified_unix_nanos: e.modified_unix_nanos,
        source_path_local: e.source_path_local.clone(),
        fingerprint: e.fingerprint,
    }
}

fn sort_entries_by_path(entries: &Vec<ManifestEntry>) -> (sorted: Vec<ManifestEntry>)
    ensures
        entry_views(sorted@) == sorted_by_path(entry_views(entries@)),
{
    let ghost all = entry_views(entries@);
    let mut sorted: Vec<ManifestEntry> = Vec::new();
    let mut i: usize = 0;
    assert(all.subrange(0, 0) =~= Seq::<EntryView>::empty());
    while i < entries.len()
        invariant
            i <= entries@.len(),
            all == entry_views(entries@),
            entry_views(sorted@) == sorted_by_path(all.subrange(0, i as int)),
        decreases entries@.len() - i,
    {
        let e = copy_entry(&entries[i]);
        let ghost before = entry_views(sorted@);
        let mut j: usize = sorted.len();
        while j > 0 && path_lt(&e.components, &sorted[j - 1].components)
            invariant
                j <= sorted@.len(),
                before == entry_views(sorted@),
                forall|k: int| j <= k < sorted@.len() ==> path_less(e@.components, (#[trigger] before[k]).components),
            decreases j,
        {
            j = j - 1;
        }
        proof {
            if j > 0 {
                assert(!path_less(e@.components, before[j - 1].components));
            }
            lemma_insert_by_path_at(before, e@, j as int);
        }
        let ghost v = e@;
        sorted.insert(j, e);
        assert(entry_views(sorted@) =~= before.insert(j as int, v));
        let ghost prefix = all.subrange(0, i + 1);
        assert(prefix.drop_last() =~= all.subrange(0, i as int));
        assert(prefix.last() == v);
        i = i + 1;
    }
    assert(all.subrange(0, i as int) =~= all);
    sorted
}

fn repeats_a_path(entries: &Vec<ManifestEntry>) -> (repeated: bool)
    ensures
        repeated == has_repeated_path(entry_views(entries@)),
{
    let ghost ordered = entry_views(entries@);
    let mut k: usize = 0;
    while k < entries.len() && k + 1 < entries.len()
        invariant
            ordered == entry_views(entries@),
            forall|m: int| 0 <= m < k && m + 1 < ordered.len() ==> (#[trigger] ordered[m]).components != ordered[m + 1].components,
        decreases entries@.len() - k,
    {
        if paths_equal(&entries[k].components, &entries[k + 1].components) {
            assert(ordered[k as int].components == ordered[k + 1].components);
            return true;
        }
        k = k + 1;
    }
    false
}

/// Puts a scanned manifest in its final order: entries by path, as
/// `sorted_by_path` says.  Two selected roots with the same name would give
/// two entries one path, which no receiver could tell apart: such a
/// manifest is refused.
pub fn finish_source_manifest(manifest: &SourceManifest) -> (result: Result<SourceManifest, TransferError>)
    ensures
        ({
            let sorted = sorted_by_path(entry_views(manifest.entries@));
            match result {
                Ok(m) => {
                    &&& !has_repeated_path(sorted)
                    &&& entry_views(m.entries@) == sorted
                    &&& warning_views(m.warnings@) == warning_views(manifest.warnings@)
                    &&& m.total_logical_bytes == manifest.total_logical_bytes
                    &&& m.total_entries == manifest.total_entries
                    &&& ordered_by_path(entry_views(m.entries@))
                    &&& entry_views(m.entries@).to_multiset() == entry_views(manifest.entries@).to_multiset()
                    &&& forall|i: int, j: int|
                        0 <= i < j < m.entries@.len() ==> views((#[trigger] m.entries@[i]).components@) != views(
                        (#[trigger] m.entries@[j]).components@)
                },
                Err(e) => has_repeated_path(sorted) && e == TransferError::InvalidSource,
            }
        }),
        result is Err <==> shares_a_path(entry_views(manifest.entries@)),
{
    let sorted = sort_entries_by_path(&manifest.entries);
    proof {
        lemma_repeated_iff_shared(entry_views(manifest.entries@));
    }
    if repeats_a_path(&sorted) {
        return Err(TransferError::InvalidSource);
    }
    proof {
        let v = entry_views(sorted@);
        lemma_sorted_by_path(entry_views(manifest.entries@));
        lemma_ordered_paths_distinct(v);
        assert forall|i: int, j: int| 0 <= i < j < sorted@.len() implies views((#[trigger] sorted@[i]).components@)
            != views((#[trigger] sorted@[j]).components@) by {
            assert(v[i].components != v[j].components);
            assert(v[i].components == views(sorted@[i].components@));
            assert(v[j].components == views(sorted@[j].components@));
        }
    }
    let warnings = copy_warnings(&manifest.warnings);
    Ok(SourceManifest {
        entries: sorted,
        warnings,
        total_logical_bytes: manifest.total_logical_bytes,
        total_entries: manifest.total_entries,
    })
}

fn copy_warnings(w: &Vec<ManifestWarning>) -> (c: Vec<ManifestWarning>)
    ensures
        warning_views(c@) == warning_views(w@),
{
    let mut c: Vec<ManifestWarning> = Vec::new();
    let mut i: usize = 0;
    while i < w.len()
        invariant
            i <= w@.len(),
            warning_views(c@) == warning_views(w@).subrange(0, i as int),
        decreases w@.len() - i,
    {
        let ghost before = warning_views(c@);
        c.push(ManifestWarning { code: w[i].code.clone(), components: clone_strings(&w[i].components) });
        assert(warning_views(c@) =~= before.push((w@[i as int].code@, views(w@[i as int].components@))));
        i = i + 1;
        assert(warning_views(c@) =~= warning_views(w@).subrange(0, i as int));
    }
    assert(warning_views(w@).subrange(0, i as int) =~= warning_views(w@));
    c
}

/// `sorted` with the path `p` added in order, unless it is there already.
pub open spec fn insert_root(sorted: Seq<Seq<Seq<char>>>, p: Seq<Seq<char>>) -> Seq<Seq<Seq<char>>>
    decreases sorted.len(),
{
    if sorted.len() == 0 {
        seq![p]
    } else if sorted.last() == p {
        sorted
    } else if !path_less(p, sorted.last()) {
        sorted.push(p)
    } else {
        insert_root(sorted.drop_last(), p).push(sorted.last())
    }
}

/// The selected roots in path order, each once.
pub open spec fn unique_roots(paths: Seq<Seq<Seq<char>>>) -> Seq<Seq<Seq<char>>>
    decreases paths.len(),
{
    if paths.len() == 0 {
        Seq::empty()
    } else {
        insert_root(unique_roots(paths.drop_last()), paths.last())
    }
}

/// Whether another of `all` contains the path `c`.
pub open spec fn nested_in(all: Seq<Seq<Seq<char>>>, c: Seq<Seq<char>>) -> bool {
    exists|k: int|
        0 <= k < all.len() && #[trigger] all[k] != c && all[k].len() <= c.len() && c.subrange(0, all[k].len() as int)
            == all[k]
}

/// The first `n` of `all` that no other of `all` contains, in order.
pub open spec fn outermost(all: Seq<Seq<Seq<char>>>, n: int) -> Seq<Seq<Seq<char>>>
    decreases n,
{
    if n <= 0 {
        Seq::empty()
    } else if nested_in(all, all[n - 1]) {
        outermost(all, n - 1)
    } else {
        outermost(all, n - 1).push(all[n - 1])
    }
}

/// The roots to scan, as `outermost(unique_roots(..))` says: each selected
/// root once, in path order, without those inside another selected root.
/// The roots are canonical absolute paths, given by their components.
pub open spec fn normalized_roots(paths: Seq<Seq<Seq<char>>>) -> Seq<Seq<Seq<char>>> {
    let u = unique_roots(paths);
    outermost(u, u.len() as int)
}

pub open spec fn path_views(paths: Seq<Vec<String>>) -> Seq<Seq<Seq<char>>> {
    paths.map_values(|p: Vec<String>| views(p@))
}

proof fn lemma_insert_root_at(sorted: Seq<Seq<Seq<char>>>, p: Seq<Seq<char>>, j: int)
    requires
        0 <= j <= sorted.len(),
        forall|k: int| j <= k < sorted.len() ==> path_less(p, #[trigger] sorted[k]) && sorted[k] != p,
        j > 0 ==> !path_less(p, sorted[j - 1]),
    ensures
        j > 0 && sorted[j - 1] == p ==> insert_root(sorted, p) == sorted,
        !(j > 0 && sorted[j - 1] == p) ==> insert_root(sorted, p) == sorted.insert(j, p),
    decreases sorted.len(),
{
    if sorted.len() == 0 {
        assert(sorted.insert(j, p) =~= seq![p]);
    } else if j == sorted.len() {
        if sorted.last() != p {
            assert(sorted.insert(j, p) =~= sorted.push(p));
        }
    } else {
        lemma_insert_root_at(sorted.drop_last(), p, j);
        assert(sorted.drop_last().push(sorted.last()) =~= sorted);
        assert(sorted.insert(j, p) =~= sorted.drop_last().insert(j, p).push(sorted.last()));
    }
}

/// Whether the path `p` is `root` or lies inside it.
pub open spec fn path_within(root: Seq<Seq<char>>, p: Seq<Seq<char>>) -> bool {
    root.len() <= p.len() && p.subrange(0, root.len() as int) == root
}

/// Each path comes strictly before those after it.
pub open spec fn strictly_ordered(s: Seq<Seq<Seq<char>>>) -> bool {
    forall|i: int, j: int| 0 <= i < j < s.len() ==> path_less(#[trigger] s[i], #[trigger] s[j])
}

proof fn lemma_insert_root_keeps_order(sorted: Seq<Seq<Seq<char>>>, p: Seq<Seq<char>>)
    requires
        strictly_ordered(sorted),
    ensures
        strictly_ordered(insert_root(sorted, p)),
        insert_root(sorted, p).to_set() == sorted.to_set().insert(p),
    decreases sorted.len(),
{
    broadcast use vstd::seq::Seq::lemma_push_to_set_commute;

    if sorted.len() == 0 {
        assert(seq![p] =~= sorted.push(p));
    } else if sorted.last() == p {
        assert(sorted.contains(sorted[sorted.len() - 1]));
        assert(sorted.to_set().insert(p) =~= sorted.to_set());
    } else if !path_less(p, sorted.last()) {
        let r = sorted.push(p);
        let n = sorted.len() as int;
        lemma_path_less_total(p, sorted[n - 1]);
        assert forall|i: int, j: int| 0 <= i < j < r.len() implies path_less(#[trigger] r[i], #[trigger] r[j]) by {
            if j == n && i < n - 1 {
                assert(path_less(sorted[i], sorted[n - 1]));
                lemma_path_less_transitive(sorted[i], sorted[n - 1], p);
            } else if j < n {
                assert(r[i] == sorted[i] && r[j] == sorted[j]);
            }
        }
    } else {
        let last = sorted.last();
        let rest = sorted.drop_last();
        assert(strictly_ordered(rest)) by {
            assert forall|i: int, j: int| 0 <= i < j < rest.len() implies path_less(#[trigger] rest[i], #[trigger] rest[j]) by {
                assert(rest[i] == sorted[i] && rest[j] == sorted[j]);
            }
        }
        lemma_insert_root_keeps_order(rest, p);
        let inner = insert_root(rest, p);
        let r = inner.push(last);
        assert(sorted =~= rest.push(last));
        assert(r.to_set() =~= sorted.to_set().insert(p));
        assert forall|i: int, j: int| 0 <= i < j < r.len() implies path_less(#[trigger] r[i], #[trigger] r[j]) by {
            if j == inner.len() {
                let x = inner[i];
                assert(r[i] == x);
                assert(inner.to_set().contains(x));
                if x != p {
                    assert(rest.to_set().contains(x));
                    let k = choose|k: int| 0 <= k < rest.len() && rest[k] == x;
                    assert(sorted[k] == x);
                    assert(sorted[sorted.len() - 1] == last);
                }
            } else {
                assert(r[i] == inner[i] && r[j] == inner[j]);
            }
        }
    }
}

proof fn lemma_unique_roots(paths: Seq<Seq<Seq<char>>>)
    ensures
        strictly_ordered(unique_roots(paths)),
        unique_roots(paths).to_set() == paths.to_set(),
    decreases paths.len(),
{
    broadcast use vstd::seq::Seq::lemma_push_to_set_commute;

    if paths.len() == 0 {
        assert(paths.to_set() =~= Set::empty());
        assert(unique_roots(paths).to_set() =~= Set::empty());
    } else {
        lemma_unique_roots(paths.drop_last());
        lemma_insert_root_keeps_order(unique_roots(paths.drop_last()), paths.last());
        assert(paths =~= paths.drop_last().push(paths.last()));
    }
}

proof fn lemma_outermost(all: Seq<Seq<Seq<char>>>, n: int)
    requires
        0 <= n <= all.len(),
        strictly_ordered(all),
    ensures
        strictly_ordered(outermost(all, n)),
        forall|i: int|
            0 <= i < outermost(all, n).len() ==> (exists|k: int| 0 <= k < n && all[k] == #[trigger] outermost(all, n)[i])
                && !nested_in(all, outermost(all, n)[i]),
        forall|k: int| 0 <= k < n && !nested_in(all, #[trigger] all[k]) ==> outermost(all, n).contains(all[k]),
    decreases n,
{
    if n > 0 {
        lemma_outermost(all, n - 1);
        let o = outermost(all, n - 1);
        if !nested_in(all, all[n - 1]) {
            let r = o.push(all[n - 1]);
            assert forall|i: int, j: int| 0 <= i < j < r.len() implies path_less(#[trigger] r[i], #[trigger] r[j]) by {
                if j == o.len() {
                    assert(r[i] == o[i]);
                    let k = choose|k: int| 0 <= k < n - 1 && all[k] == o[i];
                    assert(path_less(all[k], all[n - 1]));
                } else {
                    assert(r[i] == o[i] && r[j] == o[j]);
                }
            }
            assert forall|i: int| 0 <= i < r.len() implies (exists|k: int| 0 <= k < n && all[k] == #[trigger] r[i])
                && !nested_in(all, r[i]) by {
                if i == o.len() {
                    assert(all[n - 1] == r[i]);
                } else {
                    assert(r[i] == o[i]);
                }
            }
            assert forall|k: int| 0 <= k < n && !nested_in(all, #[trigger] all[k]) implies r.contains(all[k]) by {
                if k == n - 1 {
                    assert(r[o.len() as int] == all[k]);
                } else {
                    assert(o.contains(all[k]));
                    let i = choose|i: int| 0 <= i < o.len() && o[i] == all[k];
                    assert(r[i] == all[k]);
                }
            }
        }
    }
}

proof fn lemma_covered(all: Seq<Seq<Seq<char>>>, c: Seq<Seq<char>>)
    requires
        all.contains(c),
        strictly_ordered(all),
    ensures
        exists|r: Seq<Seq<char>>| outermost(all, all.len() as int).contains(r) && path_within(r, c),
    decreases c.len(),
{
    lemma_outermost(all, all.len() as int);
    let o = outermost(all, all.len() as int);
    if !nested_in(all, c) {
        let k = choose|k: int| 0 <= k < all.len() && all[k] == c;
        assert(o.contains(all[k]));
        assert(c.subrange(0, c.len() as int) =~= c);
        assert(path_within(c, c));
    } else {
        let k = choose|k: int|
            0 <= k < all.len() && #[trigger] all[k] != c && all[k].len() <= c.len() && c.subrange(0, all[k].len() as int)
                == all[k];
        let outer = all[k];
        if outer.len() == c.len() {
            assert(c.subrange(0, c.len() as int) =~= c);
        }
        assert(all.contains(outer));
        lemma_covered(all, outer);
        let r = choose|r: Seq<Seq<char>>| o.contains(r) && path_within(r, outer);
        assert(c.subrange(0, r.len() as int) =~= c.subrange(0, outer.len() as int).subrange(0, r.len() as int));
        assert(path_within(r, c));
    }
}

/// The roots to scan were all selected; none is another or lies inside
/// another; and every selected path is one of them or lies inside one.
pub proof fn lemma_normalized_roots(paths: Seq<Seq<Seq<char>>>)
    ensures
        forall|i: int| 0 <= i < normalized_roots(paths).len() ==> paths.contains(#[trigger] normalized_roots(paths)[i]),
        forall|i: int, j: int|
            0 <= i < normalized_roots(paths).len() && 0 <= j < normalized_roots(paths).len() && i != j ==> !path_within(
                #[trigger] normalized_roots(paths)[i],
                #[trigger] normalized_roots(paths)[j],
            ),
        forall|k: int|
            0 <= k < paths.len() ==> exists|r: Seq<Seq<char>>| #[trigger]
                normalized_roots(paths).contains(r) && path_within(r, #[trigger] paths[k]),
{
    let u = unique_roots(paths);
    let o = normalized_roots(paths);
    lemma_unique_roots(paths);
    lemma_outermost(u, u.len() as int);
    assert forall|i: int| 0 <= i < o.len() implies paths.contains(#[trigger] o[i]) by {
        let k = choose|k: int| 0 <= k < u.len() && u[k] == o[i];
        assert(u.to_set().contains(u[k]));
    }
    assert forall|i: int, j: int| 0 <= i < o.len() && 0 <= j < o.len() && i != j implies !path_within(
        #[trigger] o[i],
        #[trigger] o[j],
    ) by {
        if i < j {
            assert(path_less(o[i], o[j]));
        } else {
            assert(path_less(o[j], o[i]));
        }
        if o[i] == o[j] {
            lemma_path_less_irreflexive(o[i]);
        }
        let ki = choose|k: int| 0 <= k < u.len() && u[k] == o[i];
        assert(!nested_in(u, o[j]));
        if path_within(o[i], o[j]) {
            assert(u[ki] != o[j] && u[ki].len() <= o[j].len() && o[j].subrange(0, u[ki].len() as int) == u[ki]);
        }
    }
    assert forall|k: int| 0 <= k < paths.len() implies exists|r: Seq<Seq<char>>| #[trigger]
        o.contains(r) && path_within(r, #[trigger] paths[k]) by {
        assert(paths.to_set().contains(paths[k]));
        assert(u.contains(paths[k]));
        lemma_covered(u, paths[k]);
    }
}

fn is_inside(other: &Vec<String>, candidate: &Vec<String>) -> (inside: bool)
    ensures
        inside == (views(other@) != views(candidate@) && views(other@).len() <= views(candidate@).len() && views(
            candidate@,
        ).subrange(0, views(other@).len() as int) == views(other@)),
{
    let ghost o = views(other@);
    let ghost c = views(candidate@);
    if other.len() > candidate.len() {
        return false;
    }
    let mut i: usize = 0;
    while i < other.len()
        invariant
            i <= other@.len() <= candidate@.len(),
            o == views(other@),
            c == views(candidate@),
            forall|k: int| 0 <= k < i ==> o[k] == c[k],
        decreases other@.len() - i,
    {
        if !texts_equal(&other[i], &candidate[i]) {
            assert(c.subrange(0, o.len() as int)[i as int] != o[i as int]);
            return false;
        }
        i = i + 1;
    }
    assert(c.subrange(0, o.len() as int) =~= o);
    !paths_equal(other, candidate)
}

/// The roots to scan, from the canonical absolute paths the user selected
/// (by their components), as `normalized_roots` says.
pub fn normalize_roots(paths: &Vec<Vec<String>>) -> (roots: Vec<Vec<String>>)
    ensures
        path_views(roots@) == normalized_roots(path_views(paths@)),
        forall|i: int| 0 <= i < roots@.len() ==> path_views(paths@).contains(views((#[trigger] roots@[i])@)),
        forall|i: int, j: int|
            0 <= i < roots@.len() && 0 <= j < roots@.len() && i != j ==> !path_within(
                views((#[trigger] roots@[i])@),
                views((#[trigger] roots@[j])@),
            ),
        forall|k: int|
            0 <= k < paths@.len() ==> exists|i: int| 0 <= i < roots@.len() && path_within(
                views((#[trigger] roots@[i])@),
                views((#[trigger] paths@[k])@),
            ),
{
    let ghost all = path_views(paths@);
    let mut unique: Vec<Vec<String>> = Vec::new();
    let mut i: usize = 0;
    assert(all.subrange(0, 0) =~= Seq::<Seq<Seq<char>>>::empty());
    while i < paths.len()
        invariant
            i <= paths@.len(),
            all == path_views(paths@),
            path_views(unique@) == unique_roots(all.subrange(0, i as int)),
        decreases paths@.len() - i,
    {
        let p = clone_strings(&paths[i]);
        let ghost pv = views(p@);
        let ghost before = path_views(unique@);
        let mut j: usize = unique.len();
        while j > 0 && path_lt(&p, &unique[j - 1])
            invariant
                j <= unique@.len(),
                before == path_views(unique@),
                pv == views(p@),
                forall|k: int| j <= k < unique@.len() ==> path_less(pv, #[trigger] before[k]),
            decreases j,
        {
            j = j - 1;
        }
        proof {
            assert forall|k: int| j <= k < unique@.len() implies path_less(pv, #[trigger] before[k]) && before[k] != pv by {
                if before[k] == pv {
                    assert(!path_less(pv, pv)) by {
                        if path_less(pv, pv) {
                            let w = choose|w: int| 0 <= w < pv.len() && w < pv.len() && pv.subrange(0, w) == pv.subrange(0, w) && text_less(pv[w], pv[w]);
                            lemma_text_less_irreflexive(pv[w]);
                        }
                    }
                }
            }
            if j > 0 {
                assert(!path_less(pv, before[j - 1]));
            }
            lemma_insert_root_at(before, pv, j as int);
        }
        let ghost prefix = all.subrange(0, i + 1);
        assert(prefix.drop_last() =~= all.subrange(0, i as int));
        assert(prefix.last() == pv);
        if j > 0 && paths_equal(&unique[j - 1], &p) {
        } else {
            unique.insert(j, p);
            assert(path_views(unique@) =~= before.insert(j as int, pv));
        }
        i = i + 1;
    }
    assert(all.subrange(0, i as int) =~= all);
    let ghost u = path_views(unique@);
    let mut roots: Vec<Vec<String>> = Vec::new();
    let mut c: usize = 0;
    while c < unique.len()
        invariant
            c <= unique@.len(),
            u == path_views(unique@),
            path_views(roots@) == outermost(u, c as int),
        decreases unique@.len() - c,
    {
        let mut nested = false;
        let mut k: usize = 0;
        while k < unique.len()
            invariant
                k <= unique@.len(),
                c < unique@.len(),
                u == path_views(unique@),
                nested == exists|m: int|
                    0 <= m < k && #[trigger] u[m] != u[c as int] && u[m].len() <= u[c as int].len() && u[c as int].subrange(
                        0,
                        u[m].len() as int,
                    ) == u[m],
            decreases unique@.len() - k,
        {
            let inside = is_inside(&unique[k], &unique[c]);
            proof {
                assert(u[k as int] == views(unique@[k as int]@));
                assert(u[c as int] == views(unique@[c as int]@));
            }
            if inside {
                nested = true;
            }
            k = k + 1;
        }
        assert(nested == nested_in(u, u[c as int]));
        if !nested {
            let ghost before = path_views(roots@);
            roots.push(clone_strings(&unique[c]));
            assert(path_views(roots@) =~= before.push(u[c as int]));
        }
        c = c + 1;
    }
    proof {
        let r = path_views(roots@);
        lemma_normalized_roots(all);
        assert forall|i: int| 0 <= i < roots@.len() implies all.contains(views((#[trigger] roots@[i])@)) by {
            assert(r[i] == views(roots@[i]@));
        }
        assert forall|i: int, j: int| 0 <= i < roots@.len() && 0 <= j < roots@.len() && i != j implies !path_within(
            views((#[trigger] roots@[i])@),
            views((#[trigger] roots@[j])@),
        ) by {
            assert(r[i] == views(roots@[i]@));
            assert(r[j] == views(roots@[j]@));
        }
        assert forall|k: int| 0 <= k < paths@.len() implies exists|i: int| 0 <= i < roots@.len() && path_within(
            views((#[trigger] roots@[i])@),
            views((#[trigger] paths@[k])@),
        ) by {
            assert(all[k] == views(paths@[k]@));
            let x = choose|x: Seq<Seq<char>>| r.contains(x) && path_within(x, all[k]);
            let i = choose|i: int| 0 <= i < r.len() && r[i] == x;
            assert(r[i] == views(roots@[i]@));
        }
    }
    roots
}

} // verus!
