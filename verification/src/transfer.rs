//! Receiver-side path policy for transferred entries: which relative paths a
//! receiver accepts, how names are made safe for Windows, and how a new
//! top-level name is chosen beside existing ones.
use crate::crypto::{blake3_digest, blake3_hash};
use crate::text::{
    ascii_lower, chars_equal, chars_of, hex_encode, hex_lower, lower_all, lowercase_chars, push_chars,
    string_from_chars, upper_all, uppercase_chars, decimal, decimal_chars, lemma_decimal_injective,
    str_equal, string_from_range,
};
use vstd::prelude::*;
use vstd::set_lib::{lemma_int_range, lemma_len_subset, lemma_map_size, set_int_range};
use vstd::utf8::encode_utf8;

verus! {

pub const MAX_DEPTH: usize = 256;
pub const MAX_COMPONENT_BYTES: usize = 255;
pub const MAX_PATH_BYTES: usize = 32768;
pub const MAX_ENTRIES: usize = 100000;
/// `i64::MAX`: the largest total a manifest may advertise.
pub const MAX_TOTAL_LOGICAL_BYTES: u64 = 9223372036854775807;

#[derive(Debug, Clone, Copy, PartialEq, Eq, Structural)]
pub enum TransferError {
    Cancelled,
    InvalidSource,
    SourceMissing,
    ManifestLimit,
    InvalidPath,
    Durability,
    DiskFull,
    FsyncFailed,
    FinalizeFailed,
}

/// The text of each `TransferError`.
pub open spec fn transfer_error_text(value: TransferError) -> &'static str {
    match value {
        TransferError::Cancelled => "cancelled",
        TransferError::InvalidSource => "invalid source path",
        TransferError::SourceMissing => "source missing",
        TransferError::ManifestLimit => "manifest limit exceeded",
        TransferError::InvalidPath => "invalid path component",
        TransferError::Durability => "durable checkpoint could not be recorded",
        TransferError::DiskFull => "destination storage is full",
        TransferError::FsyncFailed => "staged data could not be flushed",
        TransferError::FinalizeFailed => "finalization failed",
    }
}

impl TransferError {
    /// The error's message text.
    pub fn message(&self) -> (text: &'static str)
        ensures
            text == transfer_error_text(*self),
    {
        match self {
            TransferError::Cancelled => "cancelled",
            TransferError::InvalidSource => "invalid source path",
            TransferError::SourceMissing => "source missing",
            TransferError::ManifestLimit => "manifest limit exceeded",
            TransferError::InvalidPath => "invalid path component",
            TransferError::Durability => "durable checkpoint could not be recorded",
            TransferError::DiskFull => "destination storage is full",
            TransferError::FsyncFailed => "staged data could not be flushed",
            TransferError::FinalizeFailed => "finalization failed",
        }
    }
}

#[derive(Debug, Clone, Copy, PartialEq, Eq, Structural)]
pub enum EntryKind {
    File,
    Directory,
}

#[derive(Debug, Clone, Copy, PartialEq, Eq, Structural)]
pub struct SourceFingerprint {
    pub size: u64,
    pub modified_unix_nanos: u128,
}

#[derive(Debug, Clone, PartialEq, Eq)]
pub struct ManifestWarning {
    pub code: String,
    pub components: Vec<String>,
}

/// The character views of a list of strings.
pub open spec fn views(cs: Seq<String>) -> Seq<Seq<char>> {
    cs.map_values(|s: String| s@)
}

/// A copy of `v`, string by string.
pub fn clone_strings(v: &Vec<String>) -> (c: Vec<String>)
    ensures
        views(c@) == views(v@),
{
    let mut c: Vec<String> = Vec::new();
    let mut i: usize = 0;
    while i < v.len()
        invariant
            i <= v@.len(),
            views(c@) == views(v@).subrange(0, i as int),
        decreases v@.len() - i,
    {
        let ghost before = views(c@);
        c.push(v[i].clone());
        assert(views(c@) =~= before.push(v@[i as int]@));
        i = i + 1;
        assert(views(c@) =~= views(v@).subrange(0, i as int));
    }
    assert(views(v@).subrange(0, i as int) =~= views(v@));
    c
}

/// The UTF-8 length of `s`.
pub open spec fn utf8_len(s: Seq<char>) -> nat {
    encode_utf8(s).len()
}

/// An ASCII letter byte.
pub open spec fn is_ascii_alpha(b: u8) -> bool {
    (65 <= b <= 90) || (97 <= b <= 122)
}

/// `X:` at the start of the bytes, `X` an ASCII letter: a Windows drive prefix.
pub open spec fn drive_prefixed(b: Seq<u8>) -> bool {
    b.len() >= 2 && b[1] == 58 && is_ascii_alpha(b[0])
}

/// A single path component a receiver may create: non-empty, at most 255
/// UTF-8 bytes, not `.` or `..`, no NUL, `/` or `\`, and no drive prefix.
pub open spec fn component_ok(s: Seq<char>) -> bool {
    &&& 0 < utf8_len(s) <= MAX_COMPONENT_BYTES
    &&& s != seq!['.']
    &&& s != seq!['.', '.']
    &&& !s.contains('\0')
    &&& !s.contains('/')
    &&& !s.contains('\\')
    &&& !drive_prefixed(encode_utf8(s))
}

/// The total UTF-8 length of the components.
pub open spec fn total_utf8_len(cs: Seq<Seq<char>>) -> nat
    decreases cs.len(),
{
    if cs.len() == 0 {
        0
    } else {
        total_utf8_len(cs.drop_last()) + utf8_len(cs.last())
    }
}

/// A relative path a receiver accepts: 1 to 256 valid components of at most
/// 32 KiB in total.
pub open spec fn receiver_path_ok(cs: Seq<Seq<char>>) -> bool {
    &&& 1 <= cs.len() <= MAX_DEPTH
    &&& forall|i: int| 0 <= i < cs.len() ==> #[trigger] component_ok(cs[i])
    &&& total_utf8_len(cs) <= MAX_PATH_BYTES
}

proof fn lemma_total_prefix_monotone(cs: Seq<Seq<char>>, n: int)
    requires
        0 <= n <= cs.len(),
    ensures
        total_utf8_len(cs.subrange(0, n)) <= total_utf8_len(cs),
    decreases cs.len() - n,
{
    if n < cs.len() {
        lemma_total_prefix_monotone(cs, n + 1);
        assert(cs.subrange(0, n + 1).drop_last() =~= cs.subrange(0, n));
    } else {
        assert(cs.subrange(0, n) =~= cs);
    }
}

/// Checks one component; the characters are `chars` and the bytes `bytes`.
fn component_is_valid(component: &String) -> (ok: bool)
    ensures
        ok == component_ok(component@),
{
    let bytes = component.as_str().as_bytes();
    let chars = chars_of(component.as_str());
    assert(bytes@ == encode_utf8(component@));
    if bytes.len() == 0 || bytes.len() > MAX_COMPONENT_BYTES {
        return false;
    }
    if chars.len() == 1 && chars[0] == '.' {
        assert(chars@ =~= seq!['.']);
        return false;
    }
    if chars.len() == 2 && chars[0] == '.' && chars[1] == '.' {
        assert(chars@ =~= seq!['.', '.']);
        return false;
    }
    proof {
        if chars@.len() == 1 {
            assert(chars@ != seq!['.', '.']);
        }
    }
    let mut i: usize = 0;
    while i < chars.len()
        invariant
            i <= chars@.len(),
            chars@ == component@,
            forall|k: int| 0 <= k < i ==> chars@[k] != '\0' && chars@[k] != '/' && chars@[k] != '\\',
        decreases chars@.len() - i,
    {
        let c = chars[i];
        if c == '\0' || c == '/' || c == '\\' {
            assert(chars@[i as int] == c);
            assert(component@.contains(c));
            return false;
        }
        i = i + 1;
    }
    if bytes.len() >= 2 && bytes[1] == 58u8 && ((65u8 <= bytes[0] && bytes[0] <= 90u8) || (97u8 <= bytes[0] && bytes[0] <= 122u8)) {
        return false;
    }
    true
}

/// Accepts only relative paths a receiver can create beneath its folder.
pub fn validate_receiver_components(components: &[String]) -> (result: Result<(), TransferError>)
    ensures
        result is Ok <==> receiver_path_ok(views(components@)),
        result is Err ==> result == Err::<(), TransferError>(TransferError::InvalidPath),
{
    let ghost cs = views(components@);
    if components.len() == 0 || components.len() > MAX_DEPTH {
        return Err(TransferError::InvalidPath);
    }
    let mut total: usize = 0;
    let mut i: usize = 0;
    while i < components.len()
        invariant
            i <= components@.len(),
            cs == views(components@),
            total == total_utf8_len(cs.subrange(0, i as int)),
            total <= MAX_PATH_BYTES,
            forall|k: int| 0 <= k < i ==> #[trigger] component_ok(cs[k]),
        decreases components@.len() - i,
    {
        let component = &components[i];
        assert(cs[i as int] == component@);
        if !component_is_valid(component) {
            return Err(TransferError::InvalidPath);
        }
        let n = component.as_str().as_bytes().len();
        assert(cs.subrange(0, i + 1).drop_last() =~= cs.subrange(0, i as int));
        total = total + n;
        i = i + 1;
        if total > MAX_PATH_BYTES {
            proof {
                lemma_total_prefix_monotone(cs, i as int);
            }
            return Err(TransferError::InvalidPath);
        }
    }
    assert(cs.subrange(0, i as int) =~= cs);
    Ok(())
}

/// `has_drive_prefix`: whether `value` begins with a drive letter and `:`.
pub fn has_drive_prefix(value: &str) -> (prefixed: bool)
    ensures
        prefixed == drive_prefixed(encode_utf8(value@)),
{
    let bytes = value.as_bytes();
    bytes.len() >= 2 && bytes[1] == 58u8 && ((65u8 <= bytes[0] && bytes[0] <= 90u8) || (97u8 <= bytes[0]
        && bytes[0] <= 122u8))
}

/// Characters Windows does not allow in a file name.
pub open spec fn windows_forbidden(c: char) -> bool {
    (c as u32) <= 0x1f || c == '<' || c == '>' || c == ':' || c == '"' || c == '/' || c == '\\' || c
        == '|' || c == '?' || c == '*'
}

/// Every forbidden character replaced by `_`.
pub open spec fn windows_chars(s: Seq<char>) -> Seq<char> {
    s.map_values(|c: char| if windows_forbidden(c) { '_' } else { c })
}

/// The number of trailing `.` and ` ` characters.
pub open spec fn trailing_dots_spaces(s: Seq<char>) -> nat
    decreases s.len(),
{
    if s.len() > 0 && (s.last() == '.' || s.last() == ' ') {
        1 + trailing_dots_spaces(s.drop_last())
    } else {
        0
    }
}

/// `s` without trailing `.` and ` ` characters.
pub open spec fn trim_dots_spaces(s: Seq<char>) -> Seq<char> {
    s.subrange(0, s.len() - trailing_dots_spaces(s))
}

/// The index of the first `.`, or the length when there is none.
pub open spec fn first_dot(s: Seq<char>) -> nat
    decreases s.len(),
{
    if s.len() == 0 || s[0] == '.' {
        0
    } else {
        1 + first_dot(s.drop_first())
    }
}

/// The part of a name before its first `.`.
pub open spec fn dos_stem(s: Seq<char>) -> Seq<char> {
    s.subrange(0, first_dot(s) as int)
}

/// The upper-case stems Windows reserves for devices: CON, PRN, AUX, NUL,
/// COM1 to COM9 and LPT1 to LPT9.
pub open spec fn reserved_stem(u: Seq<char>) -> bool {
    ||| u == seq!['C', 'O', 'N']
    ||| u == seq!['P', 'R', 'N']
    ||| u == seq!['A', 'U', 'X']
    ||| u == seq!['N', 'U', 'L']
    ||| (u.len() == 4 && ((u[0] == 'C' && u[1] == 'O' && u[2] == 'M') || (u[0] == 'L' && u[1] == 'P' && u[2]
        == 'T')) && '1' <= u[3] <= '9')
}

/// A name whose stem is a reserved device name, in any case.
pub open spec fn reserved_dos(s: Seq<char>) -> bool {
    reserved_stem(upper_all(dos_stem(s)))
}

/// The Windows-safe form of a name, before collisions are resolved.
pub open spec fn windows_base_of(s: Seq<char>) -> Seq<char> {
    let v = trim_dots_spaces(windows_chars(s));
    if v.len() == 0 || reserved_dos(v) {
        seq!['_'] + v
    } else {
        v
    }
}

proof fn lemma_first_dot_bound(s: Seq<char>)
    ensures
        first_dot(s) <= s.len(),
        first_dot(s) < s.len() ==> s[first_dot(s) as int] == '.',
        forall|k: int| 0 <= k < first_dot(s) ==> s[k] != '.',
    decreases s.len(),
{
    if s.len() > 0 && s[0] != '.' {
        lemma_first_dot_bound(s.drop_first());
        assert forall|k: int| 0 <= k < first_dot(s) implies s[k] != '.' by {
            if k > 0 {
                assert(s[k] == s.drop_first()[k - 1]);
            }
        }
    }
}

proof fn lemma_trailing_dots_step(s: Seq<char>, k: int)
    requires
        0 <= k <= s.len(),
        forall|j: int| s.len() - k <= j < s.len() ==> (#[trigger] s[j] == '.' || s[j] == ' '),
    ensures
        trailing_dots_spaces(s) == k + trailing_dots_spaces(s.subrange(0, s.len() - k)),
    decreases k,
{
    if k > 0 {
        let t = s.drop_last();
        assert forall|j: int| t.len() - (k - 1) <= j < t.len() implies (#[trigger] t[j] == '.' || t[j] == ' ') by {
            assert(t[j] == s[j]);
        }
        lemma_trailing_dots_step(t, k - 1);
        assert(t.subrange(0, t.len() - (k - 1)) =~= s.subrange(0, s.len() - k));
    } else {
        assert(s.subrange(0, s.len() as int) =~= s);
    }
}

fn windows_char(c: char) -> (d: char)
    ensures
        d == (if windows_forbidden(c) { '_' } else { c }),
{
    if (c as u32) <= 0x1f || c == '<' || c == '>' || c == ':' || c == '"' || c == '/' || c == '\\' || c
        == '|' || c == '?' || c == '*' {
        '_'
    } else {
        c
    }
}

/// Whether `value`'s stem is a reserved device name.
pub fn reserved_dos_name(value: &Vec<char>) -> (reserved: bool)
    ensures
        reserved == reserved_dos(value@),
{
    let mut end: usize = 0;
    while end < value.len() && value[end] != '.'
        invariant
            end <= value@.len(),
            forall|k: int| 0 <= k < end ==> value@[k] != '.',
        decreases value@.len() - end,
    {
        end = end + 1;
    }
    proof {
        lemma_first_dot_bound(value@);
        if first_dot(value@) < end {
            assert(value@[first_dot(value@) as int] == '.');
        }
        if end < first_dot(value@) {
            assert(value@[end as int] == '.');
        }
    }
    let mut stem: Vec<char> = Vec::new();
    let mut i: usize = 0;
    while i < end
        invariant
            i <= end <= value@.len(),
            stem@ == value@.subrange(0, i as int),
        decreases end - i,
    {
        stem.push(value[i]);
        i = i + 1;
        assert(stem@ =~= value@.subrange(0, i as int));
    }
    let u = uppercase_chars(&stem);
    if u.len() == 3 {
        let r = (u[0] == 'C' && u[1] == 'O' && u[2] == 'N') || (u[0] == 'P' && u[1] == 'R' && u[2] == 'N') || (
        u[0] == 'A' && u[1] == 'U' && u[2] == 'X') || (u[0] == 'N' && u[1] == 'U' && u[2] == 'L');
        proof {
            if r {
                if u[0] == 'C' {
                    assert(u@ =~= seq!['C', 'O', 'N']);
                } else if u[0] == 'P' {
                    assert(u@ =~= seq!['P', 'R', 'N']);
                } else if u[0] == 'A' {
                    assert(u@ =~= seq!['A', 'U', 'X']);
                } else {
                    assert(u@ =~= seq!['N', 'U', 'L']);
                }
            }
        }
        r
    } else if u.len() == 4 {
        ((u[0] == 'C' && u[1] == 'O' && u[2] == 'M') || (u[0] == 'L' && u[1] == 'P' && u[2] == 'T')) && '1'
            <= u[3] && u[3] <= '9'
    } else {
        false
    }
}

/// The Windows-safe form of one name.
pub fn windows_base(original: &str) -> (base: Vec<char>)
    ensures
        base@ == windows_base_of(original@),
{
    let chars = chars_of(original);
    let mut mapped: Vec<char> = Vec::new();
    let mut i: usize = 0;
    while i < chars.len()
        invariant
            i <= chars@.len(),
            mapped@ == windows_chars(chars@.subrange(0, i as int)),
        decreases chars@.len() - i,
    {
        mapped.push(windows_char(chars[i]));
        i = i + 1;
        assert(mapped@ =~= windows_chars(chars@.subrange(0, i as int)));
    }
    assert(chars@.subrange(0, i as int) =~= chars@);
    let mut end: usize = mapped.len();
    while end > 0 && (mapped[end - 1] == '.' || mapped[end - 1] == ' ')
        invariant
            end <= mapped@.len(),
            forall|j: int| end <= j < mapped@.len() ==> (#[trigger] mapped@[j] == '.' || mapped@[j] == ' '),
        decreases end,
    {
        end = end - 1;
    }
    proof {
        let k = (mapped@.len() - end) as int;
        lemma_trailing_dots_step(mapped@, k);
        let t = mapped@.subrange(0, end as int);
        if t.len() > 0 {
            assert(t.last() == mapped@[end - 1]);
        }
    }
    let mut value: Vec<char> = Vec::new();
    let mut j: usize = 0;
    while j < end
        invariant
            j <= end <= mapped@.len(),
            value@ == mapped@.subrange(0, j as int),
        decreases end - j,
    {
        value.push(mapped[j]);
        j = j + 1;
        assert(value@ =~= mapped@.subrange(0, j as int));
    }
    if value.len() == 0 || reserved_dos_name(&value) {
        let mut prefixed: Vec<char> = Vec::new();
        prefixed.push('_');
        let mut k: usize = 0;
        while k < value.len()
            invariant
                k <= value@.len(),
                prefixed@ == seq!['_'] + value@.subrange(0, k as int),
            decreases value@.len() - k,
        {
            prefixed.push(value[k]);
            k = k + 1;
            assert(prefixed@ =~= seq!['_'] + value@.subrange(0, k as int));
        }
        assert(value@.subrange(0, k as int) =~= value@);
        prefixed
    } else {
        value
    }
}

/// The index of the last `.`, if any.
pub open spec fn last_dot(s: Seq<char>) -> Option<int>
    decreases s.len(),
{
    if s.len() == 0 {
        None
    } else if s.last() == '.' {
        Some(s.len() - 1)
    } else {
        last_dot(s.drop_last())
    }
}

proof fn lemma_last_dot_bound(s: Seq<char>)
    ensures
        last_dot(s) matches Some(i) ==> 0 <= i < s.len() && s[i] == '.',
        last_dot(s) is None ==> forall|k: int| 0 <= k < s.len() ==> s[k] != '.',
        last_dot(s) matches Some(i) ==> forall|k: int| i < k < s.len() ==> s[k] != '.',
    decreases s.len(),
{
    if s.len() > 0 && s.last() != '.' {
        lemma_last_dot_bound(s.drop_last());
        assert forall|k: int| 0 <= k < s.len() - 1 implies s.drop_last()[k] == s[k] by {}
    }
}

/// The eight-character tag derived from `original`: the first eight
/// hexadecimal digits of its BLAKE3 digest.
pub open spec fn hash_tag(original: Seq<char>) -> Seq<char> {
    hex_lower(blake3_digest(encode_utf8(original))).subrange(0, 8)
}

/// `base` with `~tag` inserted before its extension (after the last `.`,
/// when something precedes that dot), or appended when it has none.
pub open spec fn suffixed(base: Seq<char>, tag: Seq<char>) -> Seq<char> {
    match last_dot(base) {
        Some(i) => if i > 0 {
            base.subrange(0, i) + seq!['~'] + tag + seq!['.'] + base.subrange(i + 1, base.len() as int)
        } else {
            base + seq!['~'] + tag
        },
        None => base + seq!['~'] + tag,
    }
}

proof fn lemma_suffixed_len(base: Seq<char>, tag: Seq<char>)
    ensures
        suffixed(base, tag).len() == base.len() + 1 + tag.len(),
{
    lemma_last_dot_bound(base);
}

/// The tag of `original`, computed.
fn tag_of(original: &Vec<char>) -> (tag: Vec<char>)
    ensures
        tag@ == hash_tag(original@),
        tag@.len() == 8,
        windows_clean(tag@),
        forall|k: int| 0 <= k < tag@.len() ==> #[trigger] tag@[k] != '.',
{
    let text = string_from_chars(original);
    let bytes = text.as_str().as_bytes();
    let digest = blake3_hash(bytes);
    let hex = hex_encode(&digest);
    let mut tag: Vec<char> = Vec::new();
    let mut i: usize = 0;
    while i < 8
        invariant
            i <= 8,
            hex@.len() == 64,
            tag@ == hex@.subrange(0, i as int),
        decreases 8 - i,
    {
        tag.push(hex[i]);
        i = i + 1;
        assert(tag@ =~= hex@.subrange(0, i as int));
    }
    proof {
        lemma_hex_clean(digest@);
        assert forall|k: int| 0 <= k < tag@.len() implies !windows_forbidden(#[trigger] tag@[k]) by {
            assert(tag@[k] == hex@[k]);
        }
        assert forall|k: int| 0 <= k < tag@.len() implies #[trigger] tag@[k] != '.' by {
            assert(tag@[k] == hex@[k]);
        }
    }
    tag
}

/// `base` with `tag` inserted, computed.
fn suffix_with(base: &Vec<char>, tag: &Vec<char>) -> (out: Vec<char>)
    ensures
        out@ == suffixed(base@, tag@),
{
    let mut i: usize = base.len();
    while i > 0 && base[i - 1] != '.'
        invariant
            i <= base@.len(),
            forall|k: int| i <= k < base@.len() ==> base@[k] != '.',
        decreases i,
    {
        i = i - 1;
    }
    proof {
        lemma_last_dot_bound(base@);
        if i > 0 {
            match last_dot(base@) {
                Some(d) => {
                    if d < i - 1 {
                        assert(base@[i - 1] == '.');
                    }
                },
                None => {
                    assert(base@[i - 1] == '.');
                },
            }
        } else {
            if let Some(d) = last_dot(base@) {
                assert(base@[d] == '.');
            }
        }
    }
    let mut out: Vec<char> = Vec::new();
    if i > 1 {
        let dot = i - 1;
        let stem = crate::text::string_from_range(base, 0, dot);
        let ext = crate::text::string_from_range(base, dot + 1, base.len());
        out = chars_of(stem.as_str());
        out.push('~');
        let mut k: usize = 0;
        let ghost start = out@;
        while k < tag.len()
            invariant
                k <= tag@.len(),
                out@ == start + tag@.subrange(0, k as int),
            decreases tag@.len() - k,
        {
            out.push(tag[k]);
            k = k + 1;
            assert(out@ =~= start + tag@.subrange(0, k as int));
        }
        assert(tag@.subrange(0, k as int) =~= tag@);
        out.push('.');
        let ext_chars = chars_of(ext.as_str());
        let ghost mid = out@;
        let mut m: usize = 0;
        while m < ext_chars.len()
            invariant
                m <= ext_chars@.len(),
                out@ == mid + ext_chars@.subrange(0, m as int),
            decreases ext_chars@.len() - m,
        {
            out.push(ext_chars[m]);
            m = m + 1;
            assert(out@ =~= mid + ext_chars@.subrange(0, m as int));
        }
        assert(ext_chars@.subrange(0, m as int) =~= ext_chars@);
        assert(out@ =~= suffixed(base@, tag@));
    } else {
        let mut k: usize = 0;
        while k < base.len()
            invariant
                k <= base@.len(),
                out@ == base@.subrange(0, k as int),
            decreases base@.len() - k,
        {
            out.push(base[k]);
            k = k + 1;
            assert(out@ =~= base@.subrange(0, k as int));
        }
        assert(base@.subrange(0, k as int) =~= base@);
        out.push('~');
        let mut t: usize = 0;
        let ghost start = out@;
        while t < tag.len()
            invariant
                t <= tag@.len(),
                out@ == start + tag@.subrange(0, t as int),
            decreases tag@.len() - t,
        {
            out.push(tag[t]);
            t = t + 1;
            assert(out@ =~= start + tag@.subrange(0, t as int));
        }
        assert(tag@.subrange(0, t as int) =~= tag@);
        assert(out@ =~= suffixed(base@, tag@));
    }
    out
}

/// The greatest length among `used`.
pub open spec fn max_len(used: Seq<Seq<char>>) -> nat
    decreases used.len(),
{
    if used.len() == 0 {
        0
    } else {
        let m = max_len(used.drop_last());
        if used.last().len() > m {
            used.last().len()
        } else {
            m
        }
    }
}

proof fn lemma_max_len(used: Seq<Seq<char>>, x: Seq<char>)
    requires
        used.contains(x),
    ensures
        x.len() <= max_len(used),
    decreases used.len(),
{
    let k = choose|k: int| 0 <= k < used.len() && used[k] == x;
    if k < used.len() - 1 {
        assert(used.drop_last()[k] == x);
        lemma_max_len(used.drop_last(), x);
    }
}

pub open spec fn resolve_measure(candidate: Seq<char>, used: Seq<Seq<char>>) -> nat {
    if candidate.len() <= max_len(used) {
        (max_len(used) + 1 - candidate.len()) as nat
    } else {
        0
    }
}

/// The first of `candidate`, `suffixed(candidate, tag)`, ... whose lower-case
/// form is not in `used`.
pub open spec fn resolved(candidate: Seq<char>, tag: Seq<char>, used: Seq<Seq<char>>) -> Seq<char>
    decreases resolve_measure(candidate, used),
    when tag.len() == 8
    via resolved_decreases
{
    if used.contains(lower_all(candidate)) {
        resolved(suffixed(candidate, tag), tag, used)
    } else {
        candidate
    }
}

#[via_fn]
proof fn resolved_decreases(candidate: Seq<char>, tag: Seq<char>, used: Seq<Seq<char>>) {
    if used.contains(lower_all(candidate)) {
        lemma_max_len(used, lower_all(candidate));
        lemma_suffixed_len(candidate, tag);
    }
}

/// The outputs, the originals that needed changing, and the lower-case names
/// in use after sanitizing `cs` in order.
pub open spec fn sanitize_state(cs: Seq<Seq<char>>) -> (Seq<Seq<char>>, Seq<Seq<char>>, Seq<Seq<char>>)
    decreases cs.len(),
{
    if cs.len() == 0 {
        (Seq::empty(), Seq::empty(), Seq::empty())
    } else {
        let (outs, warned, used) = sanitize_state(cs.drop_last());
        let c = cs.last();
        let base = windows_base_of(c);
        let key = lower_all(base);
        let collision = used.contains(key);
        let used1 = if collision {
            used
        } else {
            used.push(key)
        };
        if base != c || collision {
            let chosen = resolved(suffixed(base, hash_tag(c)), hash_tag(c + seq!['~']), used1);
            (outs.push(chosen), warned.push(c), used1.push(lower_all(chosen)))
        } else {
            (outs.push(base), warned, used1)
        }
    }
}

/// No character of `s` is forbidden in a Windows name.
pub open spec fn windows_clean(s: Seq<char>) -> bool {
    forall|i: int| 0 <= i < s.len() ==> !windows_forbidden(#[trigger] s[i])
}

proof fn lemma_hex_clean(bytes: Seq<u8>)
    ensures
        windows_clean(hex_lower(bytes)),
        forall|i: int| 0 <= i < hex_lower(bytes).len() ==> #[trigger] hex_lower(bytes)[i] != '.',
    decreases bytes.len(),
{
    if bytes.len() > 0 {
        lemma_hex_clean(bytes.drop_last());
        let h = hex_lower(bytes);
        let prior = hex_lower(bytes.drop_last());
        let hi = (bytes.last() / 16) as nat;
        let lo = (bytes.last() % 16) as nat;
        assert forall|i: int| 0 <= i < h.len() implies #[trigger] h[i] != '.' by {
            if i < prior.len() {
                assert(h[i] == prior[i]);
            } else if i == prior.len() {
                assert(h[i] == crate::text::hex_digit(hi));
            } else {
                assert(h[i] == crate::text::hex_digit(lo));
            }
        }
        assert forall|i: int| 0 <= i < h.len() implies !windows_forbidden(#[trigger] h[i]) by {
            if i < prior.len() {
                assert(h[i] == prior[i]);
            } else if i == prior.len() {
                assert(h[i] == crate::text::hex_digit(hi));
            } else {
                assert(h[i] == crate::text::hex_digit(lo));
            }
        }
    }
}

proof fn lemma_trailing_bound(s: Seq<char>)
    ensures
        trailing_dots_spaces(s) <= s.len(),
    decreases s.len(),
{
    if s.len() > 0 && (s.last() == '.' || s.last() == ' ') {
        lemma_trailing_bound(s.drop_last());
    }
}

proof fn lemma_base_clean(c: Seq<char>)
    ensures
        windows_clean(windows_base_of(c)),
{
    let w = windows_chars(c);
    lemma_trailing_bound(w);
    let v = trim_dots_spaces(w);
    assert(windows_clean(w));
    assert(windows_clean(v)) by {
        assert forall|i: int| 0 <= i < v.len() implies !windows_forbidden(#[trigger] v[i]) by {
            assert(v[i] == w[i]);
        }
    }
    if v.len() == 0 || reserved_dos(v) {
        let b = seq!['_'] + v;
        assert forall|i: int| 0 <= i < b.len() implies !windows_forbidden(#[trigger] b[i]) by {
            if i > 0 {
                assert(b[i] == v[i - 1]);
            }
        }
    }
}

proof fn lemma_suffixed_clean(base: Seq<char>, tag: Seq<char>)
    requires
        windows_clean(base),
        windows_clean(tag),
    ensures
        windows_clean(suffixed(base, tag)),
{
    lemma_last_dot_bound(base);
    let r = suffixed(base, tag);
    match last_dot(base) {
        Some(d) => if d > 0 {
            let head = base.subrange(0, d);
            let tail = base.subrange(d + 1, base.len() as int);
            assert(r == head + seq!['~'] + tag + seq!['.'] + tail);
            assert forall|i: int| 0 <= i < r.len() implies !windows_forbidden(#[trigger] r[i]) by {
                if i < d {
                    assert(r[i] == base[i]);
                } else if i == d {
                } else if i < d + 1 + tag.len() {
                    assert(r[i] == tag[i - d - 1]);
                } else if i == d + 1 + tag.len() {
                } else {
                    assert(r[i] == base[i - tag.len() - 1]);
                }
            }
        } else {
            let t = base + seq!['~'] + tag;
            assert forall|i: int| 0 <= i < t.len() implies !windows_forbidden(#[trigger] t[i]) by {
                if i < base.len() {
                    assert(t[i] == base[i]);
                } else if i > base.len() {
                    assert(t[i] == tag[i - base.len() - 1]);
                }
            }
        },
        None => {
            let t = base + seq!['~'] + tag;
            assert forall|i: int| 0 <= i < t.len() implies !windows_forbidden(#[trigger] t[i]) by {
                if i < base.len() {
                    assert(t[i] == base[i]);
                } else if i > base.len() {
                    assert(t[i] == tag[i - base.len() - 1]);
                }
            }
        },
    }
}

proof fn lemma_first_dot_is(s: Seq<char>, f: int)
    requires
        0 <= f <= s.len(),
        forall|k: int| 0 <= k < f ==> s[k] != '.',
        f == s.len() || s[f] == '.',
    ensures
        first_dot(s) == f,
    decreases s.len(),
{
    if s.len() > 0 && s[0] != '.' {
        assert forall|k: int| 0 <= k < f - 1 implies s.drop_first()[k] != '.' by {
            assert(s.drop_first()[k] == s[k + 1]);
        }
        if f < s.len() {
            assert(s.drop_first()[f - 1] == s[f]);
        }
        lemma_first_dot_is(s.drop_first(), f - 1);
    }
}

/// Whether a reserved stem could be `u`: only stems of three or four
/// characters that start with C, P, A, N or L.
proof fn lemma_reserved_shape(u: Seq<char>)
    requires
        reserved_stem(u),
    ensures
        u.len() == 3 || u.len() == 4,
        u[0] == 'C' || u[0] == 'P' || u[0] == 'A' || u[0] == 'N' || u[0] == 'L',
{
}

proof fn lemma_long_stem_free(s: Seq<char>)
    requires
        first_dot(s) >= 5 || first_dot(s) <= 2,
    ensures
        !reserved_dos(s),
{
    lemma_first_dot_bound(s);
    if reserved_dos(s) {
        lemma_reserved_shape(upper_all(dos_stem(s)));
    }
}

proof fn lemma_base_not_reserved(c: Seq<char>)
    ensures
        !reserved_dos(windows_base_of(c)),
{
    let w = windows_chars(c);
    lemma_trailing_bound(w);
    let v = trim_dots_spaces(w);
    if v.len() == 0 || reserved_dos(v) {
        let b = seq!['_'] + v;
        lemma_first_dot_bound(b);
        assert(b[0] == '_');
        assert(first_dot(b) >= 1);
        if reserved_dos(b) {
            let u = upper_all(dos_stem(b));
            lemma_reserved_shape(u);
            assert(dos_stem(b)[0] == '_');
            assert(u[0] == crate::text::ascii_upper('_'));
        }
    }
}

proof fn lemma_suffixed_not_reserved(base: Seq<char>, tag: Seq<char>)
    requires
        !reserved_dos(base),
        tag.len() == 8,
        forall|k: int| 0 <= k < tag.len() ==> tag[k] != '.',
    ensures
        !reserved_dos(suffixed(base, tag)),
{
    lemma_last_dot_bound(base);
    lemma_first_dot_bound(base);
    let r = suffixed(base, tag);
    match last_dot(base) {
        Some(i) => if i > 0 {
            let f = first_dot(base) as int;
            assert(f <= i) by {
                if f > i {
                    assert(base[i] != '.');
                }
            }
            assert(r == base.subrange(0, i) + seq!['~'] + tag + seq!['.'] + base.subrange(i + 1, base.len() as int));
            if f < i {
                assert forall|k: int| 0 <= k < f implies r[k] != '.' by {
                    assert(r[k] == base[k]);
                }
                assert(r[f] == base[f]);
                lemma_first_dot_is(r, f);
                assert(dos_stem(r) =~= dos_stem(base));
            } else {
                let g = i + 1 + tag.len();
                assert forall|k: int| 0 <= k < g implies r[k] != '.' by {
                    if k < i {
                        assert(r[k] == base[k]);
                    } else if k > i {
                        assert(r[k] == tag[k - i - 1]);
                    }
                }
                assert(r[g] == '.');
                lemma_first_dot_is(r, g);
                lemma_long_stem_free(r);
            }
        } else {
            assert(base[0] == '.');
            let t = base + seq!['~'] + tag;
            assert(t[0] == '.');
            lemma_first_dot_is(t, 0);
            lemma_long_stem_free(t);
        },
        None => {
            let t = base + seq!['~'] + tag;
            assert forall|k: int| 0 <= k < t.len() implies t[k] != '.' by {
                if k < base.len() {
                    assert(t[k] == base[k]);
                } else if k > base.len() {
                    assert(t[k] == tag[k - base.len() - 1]);
                }
            }
            lemma_first_dot_is(t, t.len() as int);
            lemma_long_stem_free(t);
        },
    }
}

proof fn lemma_resolved_not_reserved(candidate: Seq<char>, tag: Seq<char>, used: Seq<Seq<char>>)
    requires
        tag.len() == 8,
        forall|k: int| 0 <= k < tag.len() ==> tag[k] != '.',
        !reserved_dos(candidate),
    ensures
        !reserved_dos(resolved(candidate, tag, used)),
    decreases resolve_measure(candidate, used),
{
    if used.contains(lower_all(candidate)) {
        lemma_max_len(used, lower_all(candidate));
        lemma_suffixed_len(candidate, tag);
        lemma_suffixed_not_reserved(candidate, tag);
        lemma_resolved_not_reserved(suffixed(candidate, tag), tag, used);
    }
}

proof fn lemma_resolved_clean(candidate: Seq<char>, tag: Seq<char>, used: Seq<Seq<char>>)
    requires
        tag.len() == 8,
        windows_clean(candidate),
        windows_clean(tag),
    ensures
        windows_clean(resolved(candidate, tag, used)),
    decreases resolve_measure(candidate, used),
{
    if used.contains(lower_all(candidate)) {
        lemma_max_len(used, lower_all(candidate));
        lemma_suffixed_len(candidate, tag);
        lemma_suffixed_clean(candidate, tag);
        lemma_resolved_clean(suffixed(candidate, tag), tag, used);
    }
}

/// The code of the warning that reports a renamed component:
/// `windows_name_sanitized`.
pub open spec fn sanitized_code() -> Seq<char> {
    seq!['w', 'i', 'n', 'd', 'o', 'w', 's', '_', 'n', 'a', 'm', 'e', '_', 's', 'a', 'n', 'i', 't', 'i', 'z', 'e', 'd']
}

/// Whether `key` is among `used`.
fn contains_key(used: &Vec<Vec<char>>, key: &Vec<char>) -> (found: bool)
    ensures
        found == used@.map_values(|v: Vec<char>| v@).contains(key@),
{
    let ghost keys = used@.map_values(|v: Vec<char>| v@);
    let mut i: usize = 0;
    while i < used.len()
        invariant
            i <= used@.len(),
            keys == used@.map_values(|v: Vec<char>| v@),
            forall|k: int| 0 <= k < i ==> keys[k] != key@,
        decreases used@.len() - i,
    {
        if chars_equal(&used[i], key) {
            assert(keys[i as int] == key@);
            return true;
        }
        i = i + 1;
    }
    false
}

/// Makes each component a valid Windows name that differs, ignoring ASCII
/// case, from every other output component; each changed component is
/// reported in a `windows_name_sanitized` warning.  No output holds a
/// character Windows forbids or has a reserved device stem.
pub fn sanitize_windows_components(components: &[String]) -> (result: Result<(Vec<String>, Vec<ManifestWarning>), TransferError>)
    ensures
        match result {
            Err(e) => !receiver_path_ok(views(components@)) && e == TransferError::InvalidPath,
            Ok((out, warnings)) => {
                let (outs, warned, _) = sanitize_state(views(components@));
                &&& receiver_path_ok(views(components@))
                &&& views(out@) == outs
                &&& warnings@.len() == warned.len()
                &&& forall|i: int| 0 <= i < warnings@.len() ==> #[trigger] warnings@[i].code@ == sanitized_code()
                    && views(warnings@[i].components@) == seq![warned[i]]
                &&& out@.len() == components@.len()
                &&& forall|i: int, j: int|
                    0 <= i < j < out@.len() ==> lower_all(#[trigger] out@[i]@) != lower_all(#[trigger] out@[j]@)
                &&& forall|i: int| 0 <= i < out@.len() ==> windows_clean(#[trigger] out@[i]@) && !reserved_dos(out@[i]@)
            },
        },
{
    match validate_receiver_components(components) {
        Ok(()) => {},
        Err(e) => return Err(e),
    }
    let ghost cs = views(components@);
    let mut used: Vec<Vec<char>> = Vec::new();
    let mut out: Vec<String> = Vec::new();
    let mut warnings: Vec<ManifestWarning> = Vec::new();
    let mut i: usize = 0;
    while i < components.len()
        invariant
            i <= components@.len(),
            cs == views(components@),
            receiver_path_ok(cs),
            views(out@) == sanitize_state(cs.subrange(0, i as int)).0,
            warnings@.len() == sanitize_state(cs.subrange(0, i as int)).1.len(),
            forall|k: int| 0 <= k < warnings@.len() ==> #[trigger] warnings@[k].code@ == sanitized_code(),
            forall|k: int| 0 <= k < warnings@.len() ==> views(#[trigger] warnings@[k].components@) == seq![sanitize_state(cs.subrange(0, i as int)).1[k]],
            used@.map_values(|v: Vec<char>| v@) == sanitize_state(cs.subrange(0, i as int)).2,
            out@.len() == i,
            forall|k: int| 0 <= k < out@.len() ==> used@.map_values(|v: Vec<char>| v@).contains(lower_all(#[trigger] out@[k]@)),
            forall|a: int, b: int| 0 <= a < b < out@.len() ==> lower_all(#[trigger] out@[a]@) != lower_all(#[trigger] out@[b]@),
            forall|k: int| 0 <= k < out@.len() ==> windows_clean(#[trigger] out@[k]@) && !reserved_dos(out@[k]@),
        decreases components@.len() - i,
    {
        let ghost prefix = cs.subrange(0, i + 1);
        assert(prefix.drop_last() =~= cs.subrange(0, i as int));
        assert(prefix.last() == components@[i as int]@);
        let ghost old_used = used@.map_values(|v: Vec<char>| v@);
        let ghost old_out = out@;
        let ghost old_warnings = warnings@;
        let component = &components[i];
        let original = chars_of(component.as_str());
        let mut candidate = windows_base(component.as_str());
        let ghost base = candidate@;
        let base_key = lowercase_chars(&candidate);
        let collision = contains_key(&used, &base_key);
        if !collision {
            used.push(base_key);
            assert(used@.map_values(|v: Vec<char>| v@) =~= old_used.push(lower_all(candidate@)));
        }
        let ghost used1 = used@.map_values(|v: Vec<char>| v@);
        let changed = !chars_equal(&candidate, &original) || collision;
        proof {
            lemma_base_clean(original@);
            lemma_base_not_reserved(original@);
        }
        if changed {
            let first_tag = tag_of(&original);
            proof {
                lemma_suffixed_clean(base, first_tag@);
                lemma_suffixed_not_reserved(base, first_tag@);
            }
            candidate = suffix_with(&candidate, &first_tag);
            let mut tilde = original.clone();
            assert(tilde@ == original@);
            tilde.push('~');
            assert(tilde@ =~= original@ + seq!['~']);
            let tag = tag_of(&tilde);
            proof {
                lemma_resolved_clean(candidate@, tag@, used1);
                lemma_resolved_not_reserved(candidate@, tag@, used1);
            }
            let ghost start = candidate@;
            loop
                invariant_except_break
                    used@.map_values(|v: Vec<char>| v@) == used1,
                    resolved(start, tag@, used1) == resolved(candidate@, tag@, used1),
                invariant
                    tag@.len() == 8,
                ensures
                    used@.map_values(|v: Vec<char>| v@) == used1.push(lower_all(candidate@)),
                    resolved(start, tag@, used1) == candidate@,
                    !used1.contains(lower_all(candidate@)),
                decreases resolve_measure(candidate@, used1),
            {
                let key = lowercase_chars(&candidate);
                if !contains_key(&used, &key) {
                    used.push(key);
                    assert(used@.map_values(|v: Vec<char>| v@) =~= used1.push(lower_all(candidate@)));
                    break;
                }
                proof {
                    lemma_max_len(used1, lower_all(candidate@));
                    lemma_suffixed_len(candidate@, tag@);
                }
                candidate = suffix_with(&candidate, &tag);
            }
            let mut names: Vec<String> = Vec::new();
            names.push(component.clone());
            assert(views(names@) =~= seq![component@]);
            let code = "windows_name_sanitized".to_owned();
            proof {
                reveal_strlit("windows_name_sanitized");
                assert(code@ =~= sanitized_code());
            }
            warnings.push(ManifestWarning { code, components: names });
        } else {
            proof {
                assert(candidate@ == original@);
            }
        }
        let text = string_from_chars(&candidate);
        let ghost old_clean = out@;
        out.push(text);
        proof {
            assert(windows_clean(candidate@) && !reserved_dos(candidate@));
            assert forall|k: int| 0 <= k < out@.len() implies windows_clean(#[trigger] out@[k]@) && !reserved_dos(out@[k]@) by {
                if k < old_clean.len() {
                    assert(out@[k] == old_clean[k]);
                }
            }
        }
        proof {
            let (o0, w0, u0) = sanitize_state(cs.subrange(0, i as int));
            assert(old_used == u0);
            assert(original@ == prefix.last());
            assert(base == windows_base_of(prefix.last()));
            let (outs, warned, us) = sanitize_state(prefix);
            if changed {
                assert(candidate@ == resolved(suffixed(base, hash_tag(original@)), hash_tag(original@ + seq!['~']), used1));
                assert(outs == o0.push(candidate@));
            } else {
                assert(outs == o0.push(candidate@));
            }
            assert(views(out@) =~= outs);
            assert(used@.map_values(|v: Vec<char>| v@) == us);
            assert forall|k: int| 0 <= k < out@.len() implies used@.map_values(|v: Vec<char>| v@).contains(lower_all(#[trigger] out@[k]@)) by {
                if k < old_out.len() {
                    assert(out@[k] == old_out[k]);
                    assert(old_used.contains(lower_all(old_out[k]@)));
                    let w = choose|w: int| 0 <= w < old_used.len() && old_used[w] == lower_all(old_out[k]@);
                    assert(us[w] == old_used[w]);
                } else {
                    assert(us.last() == lower_all(out@[k]@));
                }
            }
            let last = lower_all(out@[out@.len() - 1]@);
            if changed {
                assert forall|w: int| 0 <= w < old_used.len() implies old_used[w] != last by {
                    if !collision {
                        assert(used1[w] == old_used[w]);
                    }
                    assert(used1.contains(old_used[w]));
                }
            } else {
                assert(last == lower_all(base));
            }
            assert(!old_used.contains(last));
            assert forall|a: int, b: int| 0 <= a < b < out@.len() implies lower_all(#[trigger] out@[a]@) != lower_all(#[trigger] out@[b]@) by {
                if b == out@.len() - 1 {
                    assert(out@[a] == old_out[a]);
                    assert(old_used.contains(lower_all(old_out[a]@)));
                } else {
                    assert(out@[a] == old_out[a]);
                    assert(out@[b] == old_out[b]);
                }
            }
            if changed {
                assert(warned == w0.push(original@));
            } else {
                assert(warned == w0);
                assert(warnings@ == old_warnings);
            }
            assert forall|k: int| 0 <= k < warnings@.len() implies #[trigger] warnings@[k].code@ == sanitized_code()
                && views(warnings@[k].components@) == seq![sanitize_state(prefix).1[k]] by {
                if k < old_warnings.len() {
                    assert(warnings@[k] == old_warnings[k]);
                    assert(warned[k] == w0[k]);
                }
            }
        }
        i = i + 1;
        proof {
            assert(cs.subrange(0, i as int) =~= prefix);
            assert forall|k: int| 0 <= k < warnings@.len() implies #[trigger] warnings@[k].code@ == sanitized_code()
                && views(warnings@[k].components@) == seq![sanitize_state(cs.subrange(0, i as int)).1[k]] by {
                assert(warnings@[k].code@ == sanitized_code());
                assert(views(warnings@[k].components@) == seq![sanitize_state(prefix).1[k]]);
            }
        }
    }
    assert(cs.subrange(0, i as int) =~= cs);
    Ok((out, warnings))
}


/// The part of `name` before its extension, and the extension with its dot.
/// The split is at the last `.`, when something precedes that dot; a name
/// without such a dot has an empty extension.
pub open spec fn stem_and_extension(name: Seq<char>) -> (Seq<char>, Seq<char>) {
    match last_dot(name) {
        Some(i) => if i > 0 {
            (name.subrange(0, i), name.subrange(i, name.len() as int))
        } else {
            (name, Seq::empty())
        },
        None => (name, Seq::empty()),
    }
}

/// `stem (n).ext` for the stem and extension of `original`.
pub open spec fn numbered_name(original: Seq<char>, n: nat) -> Seq<char> {
    stem_and_extension(original).0 + seq![' ', '('] + decimal(n) + seq![')']
        + stem_and_extension(original).1
}

/// Distinct numbers give distinct numbered names.
pub proof fn lemma_numbered_name_injective(original: Seq<char>, a: nat, b: nat)
    requires
        numbered_name(original, a) == numbered_name(original, b),
    ensures
        a == b,
{
    let p = stem_and_extension(original).0 + seq![' ', '('];
    let e = stem_and_extension(original).1;
    let x = numbered_name(original, a);
    let y = numbered_name(original, b);
    assert(x =~= p + decimal(a) + seq![')'] + e);
    assert(y =~= p + decimal(b) + seq![')'] + e);
    assert(decimal(a).len() == decimal(b).len());
    assert(decimal(a) =~= x.subrange(p.len() as int, (p.len() + decimal(a).len()) as int));
    assert(decimal(b) =~= y.subrange(p.len() as int, (p.len() + decimal(b).len()) as int));
    lemma_decimal_injective(a, b);
}

/// If the numbered names for `1..=k` are all among `taken`, then `taken`
/// has at least `k` entries.
proof fn lemma_numbering_bound(original: Seq<char>, taken: Seq<Seq<char>>, k: nat)
    requires
        forall|m: nat| 1 <= m <= k ==> taken.contains(#[trigger] numbered_name(original, m)),
    ensures
        k <= taken.len(),
{
    let f = |n: int| numbered_name(original, n as nat);
    let x = set_int_range(1, k as int + 1);
    lemma_int_range(1, k as int + 1);
    let y = x.map(f);
    assert forall|a: int, b: int| x.contains(a) && x.contains(b) && #[trigger] f(a) == #[trigger] f(b) implies a == b by {
        lemma_numbered_name_injective(original, a as nat, b as nat);
    }
    lemma_map_size(x, y, f);
    let t = taken.to_set();
    assert(y.subset_of(t)) by {
        assert forall|s: Seq<char>| y.contains(s) implies t.contains(s) by {
            let n = choose|n: int| x.contains(n) && f(n) == s;
            assert(taken.contains(numbered_name(original, n as nat)));
        }
    }
    taken.lemma_cardinality_of_set();
    lemma_len_subset(y, t);
}

/// The stem and extension of `name`, computed.
fn split_stem_extension(name: &Vec<char>) -> (parts: (Vec<char>, Vec<char>))
    ensures
        parts.0@ == stem_and_extension(name@).0,
        parts.1@ == stem_and_extension(name@).1,
{
    let mut i: usize = name.len();
    while i > 0 && name[i - 1] != '.'
        invariant
            i <= name@.len(),
            forall|k: int| i <= k < name@.len() ==> name@[k] != '.',
        decreases i,
    {
        i = i - 1;
    }
    proof {
        lemma_last_dot_bound(name@);
        if i > 0 {
            match last_dot(name@) {
                Some(d) => {
                    if d < i - 1 {
                        assert(name@[i - 1] == '.');
                    }
                },
                None => {
                    assert(name@[i - 1] == '.');
                },
            }
        } else {
            if let Some(d) = last_dot(name@) {
                assert(name@[d] == '.');
            }
        }
    }
    if i > 1 {
        let stem = string_from_range(name, 0, i - 1);
        let ext = string_from_range(name, i - 1, name.len());
        (chars_of(stem.as_str()), chars_of(ext.as_str()))
    } else {
        let whole = string_from_chars(name);
        (chars_of(whole.as_str()), Vec::new())
    }
}

/// Whether `name` is one of `names`.
pub fn name_taken(names: &[String], name: &str) -> (taken: bool)
    ensures
        taken == views(names@).contains(name@),
{
    let ghost vs = views(names@);
    let mut i: usize = 0;
    while i < names.len()
        invariant
            i <= names@.len(),
            vs == views(names@),
            forall|k: int| 0 <= k < i ==> vs[k] != name@,
        decreases names@.len() - i,
    {
        if str_equal(names[i].as_str(), name) {
            assert(vs[i as int] == name@);
            return true;
        }
        i = i + 1;
    }
    false
}

/// The least `n >= 1` whose numbered name is not among `taken`, all smaller
/// ones being taken.
pub open spec fn first_free_number(original: Seq<char>, taken: Seq<Seq<char>>) -> nat {
    choose|n: nat|
        #![trigger numbered_name(original, n)]
        n >= 1 && !taken.contains(numbered_name(original, n)) && forall|m: nat|
            1 <= m < n ==> taken.contains(#[trigger] numbered_name(original, m))
}

/// The name a top-level item called `original` is placed under beside the
/// names `taken`: `original` itself when it is free, else the numbered name
/// with the first free number.
pub open spec fn planned_name(original: Seq<char>, taken: Seq<Seq<char>>) -> Seq<char> {
    if !taken.contains(original) {
        original
    } else {
        numbered_name(original, first_free_number(original, taken))
    }
}

proof fn lemma_first_free_number(original: Seq<char>, taken: Seq<Seq<char>>, n: nat)
    requires
        n >= 1,
        !taken.contains(numbered_name(original, n)),
        forall|m: nat| 1 <= m < n ==> taken.contains(#[trigger] numbered_name(original, m)),
    ensures
        first_free_number(original, taken) == n,
{
    let k = first_free_number(original, taken);
    assert(k >= 1 && !taken.contains(numbered_name(original, k)) && forall|m: nat|
        1 <= m < k ==> taken.contains(#[trigger] numbered_name(original, m)));
    if k < n {
        assert(taken.contains(numbered_name(original, k)));
    }
    if n < k {
        assert(taken.contains(numbered_name(original, n)));
    }
}

/// The name under which a new top-level item called `original` is placed
/// beside the names in `occupied`: `original` itself when it is free, else
/// `stem (n).ext` for the least `n >= 1` whose name is free.
pub fn plan_top_level_name(original: &str, occupied: &[String]) -> (name: String)
    ensures
        !views(occupied@).contains(original@) ==> name@ == original@,
        views(occupied@).contains(original@) ==> exists|n: nat|
            #![trigger numbered_name(original@, n)]
            n >= 1 && name@ == numbered_name(original@, n)
            && forall|m: nat| 1 <= m < n ==> views(occupied@).contains(#[trigger] numbered_name(original@, m)),
        !views(occupied@).contains(name@),
        name@ == planned_name(original@, views(occupied@)),
{
    if !name_taken(occupied, original) {
        return original.to_owned();
    }
    let chars = chars_of(original);
    let parts = split_stem_extension(&chars);
    let ghost taken = views(occupied@);
    let count: usize = occupied.len();
    let mut number: u128 = 1;
    loop
        invariant
            1 <= number <= occupied@.len() + 1,
            occupied@.len() == count,
            taken == views(occupied@),
            taken.len() == occupied@.len(),
            chars@ == original@,
            parts.0@ == stem_and_extension(original@).0,
            parts.1@ == stem_and_extension(original@).1,
            taken.contains(original@),
            forall|m: nat| 1 <= m < number ==> taken.contains(#[trigger] numbered_name(original@, m)),
        decreases occupied@.len() + 1 - number,
    {
        let digits = decimal_chars(number);
        let mut candidate = String::new();
        push_chars(&mut candidate, &parts.0);
        candidate.push(' ');
        candidate.push('(');
        push_chars(&mut candidate, &digits);
        candidate.push(')');
        push_chars(&mut candidate, &parts.1);
        assert(candidate@ =~= numbered_name(original@, number as nat));
        if !name_taken(occupied, candidate.as_str()) {
            assert(number >= 1 && candidate@ == numbered_name(original@, number as nat));
            proof {
                lemma_first_free_number(original@, taken, number as nat);
            }
            return candidate;
        }
        proof {
            lemma_numbering_bound(original@, taken, number as nat);
            assert(number <= occupied@.len());
        }
        number = number + 1;
    }
}

/// Names that Windows accepts as they are keep their form through
/// sanitizing, and no warning is given for them: names that are not empty,
/// do not end in `.` or a space, hold no control character and none of
/// `< > : " / \ | ? *`, whose stem is not a reserved device name, and
/// that differ from one another in more than case, come back unchanged.
/// Spaces and dots inside a name are among the characters kept.
pub proof fn lemma_acceptable_names_unchanged(cs: Seq<Seq<char>>)
    requires
        forall|k: int| 0 <= k < cs.len() ==> (#[trigger] cs[k]).len() > 0 && cs[k].last() != '.' && cs[k].last() != ' '
            && !reserved_dos(cs[k]),
        forall|k: int, i: int|
            0 <= k < cs.len() && 0 <= i < cs[k].len() ==> {
                let ch = #[trigger] cs[k][i];
                &&& (ch as u32) > 0x1f
                &&& ch != '<' && ch != '>' && ch != ':' && ch != '"' && ch != '/'
                &&& ch != '\\' && ch != '|' && ch != '?' && ch != '*'
            },
        forall|i: int, j: int| 0 <= i < j < cs.len() ==> lower_all(#[trigger] cs[i]) != lower_all(#[trigger] cs[j]),
    ensures
        sanitize_state(cs).0 == cs,
        sanitize_state(cs).1 == Seq::<Seq<char>>::empty(),
        sanitize_state(cs).2 == cs.map_values(|c: Seq<char>| lower_all(c)),
    decreases cs.len(),
{
    if cs.len() == 0 {
        assert(cs.map_values(|c: Seq<char>| lower_all(c)) =~= Seq::<Seq<char>>::empty());
        assert(cs =~= Seq::<Seq<char>>::empty());
    } else {
        let rest = cs.drop_last();
        assert forall|k: int| 0 <= k < rest.len() implies (#[trigger] rest[k]).len() > 0 && rest[k].last() != '.'
            && rest[k].last() != ' ' && !reserved_dos(rest[k]) by {
            assert(rest[k] == cs[k]);
        }
        assert forall|k: int, i: int| 0 <= k < rest.len() && 0 <= i < rest[k].len() implies {
            let ch = #[trigger] rest[k][i];
            &&& (ch as u32) > 0x1f
            &&& ch != '<' && ch != '>' && ch != ':' && ch != '"' && ch != '/'
            &&& ch != '\\' && ch != '|' && ch != '?' && ch != '*'
        } by {
            assert(rest[k] == cs[k]);
        }
        assert forall|i: int, j: int| 0 <= i < j < rest.len() implies lower_all(#[trigger] rest[i]) != lower_all(
            #[trigger] rest[j],
        ) by {
            assert(rest[i] == cs[i] && rest[j] == cs[j]);
        }
        lemma_acceptable_names_unchanged(rest);
        let c = cs.last();
        let last = cs.len() - 1;
        assert(c == cs[last]);
        assert(windows_chars(c) =~= c) by {
            assert forall|i: int| 0 <= i < c.len() implies !windows_forbidden(#[trigger] c[i]) by {
                let ch = cs[last][i];
            }
        }
        assert(trailing_dots_spaces(c) == 0);
        assert(trim_dots_spaces(windows_chars(c)) =~= c);
        assert(windows_base_of(c) == c);
        let used = rest.map_values(|x: Seq<char>| lower_all(x));
        assert(!used.contains(lower_all(c))) by {
            if used.contains(lower_all(c)) {
                let k = choose|k: int| 0 <= k < used.len() && used[k] == lower_all(c);
                assert(used[k] == lower_all(rest[k]));
                assert(rest[k] == cs[k]);
                assert(lower_all(cs[k]) != lower_all(cs[last]));
            }
        }
        assert(rest.push(c) =~= cs);
        assert(used.push(lower_all(c)) =~= cs.map_values(|x: Seq<char>| lower_all(x)));
    }
}

/// A name the sanitizer calls clean holds no control character and none of
/// `< > : " / \ | ? *`, so every name it puts out is one Windows accepts
/// character by character.
pub proof fn lemma_clean_names_hold_no_forbidden_character(s: Seq<char>)
    requires
        windows_clean(s),
    ensures
        forall|i: int| 0 <= i < s.len() ==> {
            let ch = #[trigger] s[i];
            &&& (ch as u32) > 0x1f
            &&& ch != '<' && ch != '>' && ch != ':' && ch != '"' && ch != '/'
            &&& ch != '\\' && ch != '|' && ch != '?' && ch != '*'
        },
{
    assert forall|i: int| 0 <= i < s.len() implies {
        let ch = #[trigger] s[i];
        &&& (ch as u32) > 0x1f
        &&& ch != '<' && ch != '>' && ch != ':' && ch != '"' && ch != '/'
        &&& ch != '\\' && ch != '|' && ch != '?' && ch != '*'
    } by {
        assert(!windows_forbidden(s[i]));
    }
}

} // verus!
