//! DNS-SD names and records of the local discovery service: the service
//! type, instance names as the responder reports them, and the TXT record
//! that carries a device's identity, name, certificate pin, protocol version
//! and capabilities.  Talking to the responder is the caller's.
use crate::engine::SocketAddress;
use crate::text::{ascii_lower, chars_of, lower_all, push_chars, string_from_range};
use vstd::prelude::*;
use vstd::utf8::{decode_utf8, encode_utf8, valid_utf8};

verus! {

/// `char::from_u32`: a `char` exactly for the Unicode scalar values, that is
/// every value up to `0x10FFFF` outside the surrogates `0xD800..=0xDFFF`.
pub assume_specification[ core::char::from_u32 ](i: u32) -> (c: Option<char>)
    ensures
        (i <= 0x10FFFF && !(0xD800 <= i <= 0xDFFF)) ==> c == Some(i as char),
        !(i <= 0x10FFFF && !(0xD800 <= i <= 0xDFFF)) ==> c is None,
;

/// The service type devices advertise under.
pub open spec fn default_regtype() -> Seq<char> {
    seq!['_', 'f', 'i', 'l', 'e', 'p', 'o', 'r', 't', 'e', 'r', '.', '_', 't', 'c', 'p']
}

pub open spec fn ends_with(s: Seq<char>, t: Seq<char>) -> bool {
    s.len() >= t.len() && s.subrange(s.len() - t.len(), s.len() as int) == t
}

/// A service type override is used only when it looks like a TCP service
/// type: it starts with `_` and ends with `._tcp`.
pub open spec fn regtype_override_ok(value: Seq<char>) -> bool {
    value.len() > 0 && value[0] == '_' && ends_with(value, seq!['.', '_', 't', 'c', 'p'])
}

/// The service type to use given the override the environment names, if any.
pub fn select_regtype(value: Option<&str>) -> (regtype: String)
    ensures
        match value {
            Some(v) => if regtype_override_ok(v@) {
                regtype@ == v@
            } else {
                regtype@ == default_regtype()
            },
            None => regtype@ == default_regtype(),
        },
{
    if let Some(v) = value {
        let chars = chars_of(v);
        let n = chars.len();
        if n >= 5 && chars[0] == '_' && chars[n - 5] == '.' && chars[n - 4] == '_' && chars[n - 3] == 't'
            && chars[n - 2] == 'c' && chars[n - 1] == 'p' {
            assert(chars@.subrange(n - 5, n as int) =~= seq!['.', '_', 't', 'c', 'p']);
            return string_from_range(&chars, 0, n);
        }
        proof {
            if regtype_override_ok(v@) {
                let tail = v@.subrange(v@.len() - 5, v@.len() as int);
                assert(tail[0] == '.' && tail[1] == '_' && tail[2] == 't' && tail[3] == 'c' && tail[4] == 'p');
            }
        }
    }
    let d = vec!['_', 'f', 'i', 'l', 'e', 'p', 'o', 'r', 't', 'e', 'r', '.', '_', 't', 'c', 'p'];
    assert(d@ =~= default_regtype());
    let s = string_from_range(&d, 0, d.len());
    assert(d@.subrange(0, d@.len() as int) =~= d@);
    s
}

/// The device ID an instance name carries: what follows `fileporter-`, when
/// something does.
pub open spec fn instance_prefix() -> Seq<char> {
    seq!['f', 'i', 'l', 'e', 'p', 'o', 'r', 't', 'e', 'r', '-']
}

pub fn device_id_from_instance(name: &str) -> (id: Option<String>)
    ensures
        match id {
            Some(s) => name@.len() > 11 && name@.subrange(0, 11) == instance_prefix() && s@ == name@.subrange(
                11,
                name@.len() as int,
            ),
            None => !(name@.len() > 11 && name@.subrange(0, 11) == instance_prefix()),
        },
{
    let chars = chars_of(name);
    let prefix = vec!['f', 'i', 'l', 'e', 'p', 'o', 'r', 't', 'e', 'r', '-'];
    assert(prefix@ =~= instance_prefix());
    if chars.len() <= 11 {
        return None;
    }
    let mut i: usize = 0;
    while i < 11
        invariant
            i <= 11,
            chars@ == name@,
            chars@.len() > 11,
            prefix@ == instance_prefix(),
            forall|k: int| 0 <= k < i ==> chars@[k] == prefix@[k],
        decreases 11 - i,
    {
        if chars[i] != prefix[i] {
            assert(chars@.subrange(0, 11)[i as int] != instance_prefix()[i as int]);
            return None;
        }
        i = i + 1;
    }
    assert(chars@.subrange(0, 11) =~= instance_prefix());
    Some(string_from_range(&chars, 11, chars.len()))
}

/// Whether `m` occurs in `s` at index `i`.
pub open spec fn occurs_at(s: Seq<char>, m: Seq<char>, i: int) -> bool {
    0 <= i && i + m.len() <= s.len() && s.subrange(i, i + m.len()) == m
}

/// The first index at or after `i` where `m` occurs in `s`.
pub open spec fn find_from(s: Seq<char>, m: Seq<char>, i: int) -> Option<int>
    decreases s.len() - i,
{
    if i < 0 || i + m.len() > s.len() {
        None
    } else if occurs_at(s, m, i) {
        Some(i)
    } else if i >= s.len() {
        None
    } else {
        find_from(s, m, i + 1)
    }
}

pub open spec fn is_ascii_digit(c: char) -> bool {
    '0' <= c <= '9'
}

pub open spec fn digit_value(c: char) -> int {
    c as int - 48
}

/// A DNS-SD label unescaped: `\DDD` is the character with decimal code
/// `DDD`, a backslash before any other character stands for that character,
/// and a trailing backslash is dropped.
pub open spec fn unescape(s: Seq<char>) -> Seq<char>
    decreases s.len(),
{
    if s.len() == 0 {
        Seq::empty()
    } else if s[0] != '\\' {
        seq![s[0]] + unescape(s.drop_first())
    } else if s.len() >= 4 && is_ascii_digit(s[1]) && is_ascii_digit(s[2]) && is_ascii_digit(s[3]) {
        seq![(100 * digit_value(s[1]) + 10 * digit_value(s[2]) + digit_value(s[3])) as char] + unescape(
            s.subrange(4, s.len() as int),
        )
    } else if s.len() >= 2 {
        seq![s[1]] + unescape(s.subrange(2, s.len() as int))
    } else {
        Seq::empty()
    }
}

/// The marker that ends the instance label in a fullname: `.` + type + `.`.
pub open spec fn fullname_marker(regtype: Seq<char>) -> Seq<char> {
    seq!['.'] + regtype + seq!['.']
}

/// A fullname split at the first occurrence of the marker into the
/// unescaped instance label and the domain after the marker.
pub open spec fn split_fullname_of(fullname: Seq<char>, regtype: Seq<char>) -> Option<(Seq<char>, Seq<char>)> {
    let m = fullname_marker(regtype);
    match find_from(fullname, m, 0) {
        Some(i) => Some((unescape(fullname.subrange(0, i)), fullname.subrange(i + m.len(), fullname.len() as int))),
        None => None,
    }
}

fn occurs_at_exec(s: &Vec<char>, m: &Vec<char>, i: usize) -> (found: bool)
    requires
        i + m@.len() <= s@.len(),
    ensures
        found == occurs_at(s@, m@, i as int),
{
    let n = s.len();
    let mut k: usize = 0;
    while k < m.len()
        invariant
            k <= m@.len(),
            n == s@.len(),
            i + m@.len() <= s@.len(),
            forall|j: int| 0 <= j < k ==> s@[i + j] == m@[j],
        decreases m@.len() - k,
    {
        if s[i + k] != m[k] {
            assert(s@.subrange(i as int, i + m@.len())[k as int] != m@[k as int]);
            return false;
        }
        k = k + 1;
    }
    assert(s@.subrange(i as int, i + m@.len()) =~= m@);
    true
}

fn digit_of(c: char) -> (d: u32)
    requires
        is_ascii_digit(c),
    ensures
        d == digit_value(c),
        d < 10,
{
    (c as u32) - 48
}

/// Splits a DNS-SD fullname, `<escaped instance>.<type>.<domain>`, into its
/// unescaped instance label and its domain.
pub fn split_fullname(fullname: &str, regtype: &str) -> (result: Option<(String, String)>)
    ensures
        match result {
            Some((name, domain)) => split_fullname_of(fullname@, regtype@) == Some((name@, domain@)),
            None => split_fullname_of(fullname@, regtype@) is None,
        },
{
    let s = chars_of(fullname);
    let mut m: Vec<char> = vec!['.'];
    let r = chars_of(regtype);
    let mut k: usize = 0;
    while k < r.len()
        invariant
            k <= r@.len(),
            m@ == seq!['.'] + r@.subrange(0, k as int),
        decreases r@.len() - k,
    {
        m.push(r[k]);
        k = k + 1;
        assert(m@ =~= seq!['.'] + r@.subrange(0, k as int));
    }
    m.push('.');
    assert(r@.subrange(0, k as int) =~= r@);
    assert(m@ =~= fullname_marker(regtype@));
    if m.len() > s.len() {
        return None;
    }
    let n = s.len();
    let last = n - m.len();
    let mut i: usize = 0;
    let mut found = false;
    while i <= last
        invariant_except_break
            i <= last + 1,
            !found,
            find_from(s@, m@, 0) == find_from(s@, m@, i as int),
        invariant
            n == s@.len(),
            m@.len() >= 2,
            last + m@.len() == s@.len(),
        ensures
            found ==> i <= last && find_from(s@, m@, 0) == Some(i as int),
            !found ==> find_from(s@, m@, 0) is None,
        decreases last + 1 - i,
    {
        if occurs_at_exec(&s, &m, i) {
            found = true;
            break;
        }
        i = i + 1;
    }
    if !found {
        return None;
    }
    let domain = string_from_range(&s, i + m.len(), s.len());
    let ghost escaped = s@.subrange(0, i as int);
    let mut name = String::new();
    let mut j: usize = 0;
    assert(escaped.subrange(0, i as int) =~= escaped);
    assert(name@ + escaped =~= escaped);
    while j < i
        invariant
            j <= i <= s@.len(),
            escaped == s@.subrange(0, i as int),
            unescape(escaped) == name@ + unescape(escaped.subrange(j as int, i as int)),
        decreases i - j,
    {
        let ghost rest = escaped.subrange(j as int, i as int);
        let c = s[j];
        assert(rest[0] == c);
        if c != '\\' {
            assert(rest.drop_first() =~= escaped.subrange(j + 1, i as int));
            name.push(c);
            j = j + 1;
            assert(name@ + unescape(escaped.subrange(j as int, i as int)) =~= unescape(escaped));
        } else if i - j > 3 && '0' <= s[j + 1] && s[j + 1] <= '9' && '0' <= s[j + 2] && s[j + 2] <= '9'
            && '0' <= s[j + 3] && s[j + 3] <= '9' {
            assert(rest[1] == s@[j + 1] && rest[2] == s@[j + 2] && rest[3] == s@[j + 3]);
            assert(rest.subrange(4, rest.len() as int) =~= escaped.subrange(j + 4, i as int));
            let value = 100 * digit_of(s[j + 1]) + 10 * digit_of(s[j + 2]) + digit_of(s[j + 3]);
            match core::char::from_u32(value) {
                Some(decoded) => {
                    name.push(decoded);
                },
                None => {
                    assert(false);
                    return None;
                },
            }
            j = j + 4;
            assert(name@ + unescape(escaped.subrange(j as int, i as int)) =~= unescape(escaped));
        } else if i - j > 1 {
            assert(rest[1] == s@[j + 1]);
            assert(rest.subrange(2, rest.len() as int) =~= escaped.subrange(j + 2, i as int));
            name.push(s[j + 1]);
            j = j + 2;
            assert(name@ + unescape(escaped.subrange(j as int, i as int)) =~= unescape(escaped));
        } else {
            assert(unescape(rest) =~= Seq::<char>::empty());
            j = i;
            assert(escaped.subrange(j as int, i as int) =~= Seq::<char>::empty());
            assert(name@ + unescape(escaped.subrange(j as int, i as int)) =~= unescape(escaped));
        }
    }
    assert(unescape(escaped.subrange(j as int, i as int)) =~= Seq::<char>::empty());
    assert(name@ =~= unescape(escaped));
    Some((name, domain))
}


/// The text of a TXT entry: its bytes as UTF-8, each invalid sequence
/// replaced by U+FFFD.
pub uninterp spec fn utf8_lossy_text(bytes: Seq<u8>) -> Seq<char>;

/// `String::from_utf8_lossy`: the text is a function of the bytes, and valid
/// UTF-8 is decoded as it is.
#[verifier::external_body]
fn utf8_lossy(bytes: &[u8]) -> (text: String)
    ensures
        text@ == utf8_lossy_text(bytes@),
        valid_utf8(bytes@) ==> text@ == decode_utf8(bytes@),
{
    String::from_utf8_lossy(bytes).into_owned()
}

/// One TXT entry: `key=value`, cut to the 255 bytes a length byte can say.
pub open spec fn txt_entry_bytes(key: Seq<char>, value: Seq<char>) -> Seq<u8> {
    let e = encode_utf8(key + seq!['='] + value);
    if e.len() > 255 {
        e.subrange(0, 255)
    } else {
        e
    }
}

/// A TXT record: each entry's length byte followed by its bytes.
pub open spec fn encode_txt_of(pairs: Seq<(Seq<char>, Seq<char>)>) -> Seq<u8>
    decreases pairs.len(),
{
    if pairs.len() == 0 {
        Seq::empty()
    } else {
        let e = txt_entry_bytes(pairs.last().0, pairs.last().1);
        encode_txt_of(pairs.drop_last()) + seq![e.len() as u8] + e
    }
}

pub open spec fn pair_views(pairs: Seq<(String, String)>) -> Seq<(Seq<char>, Seq<char>)> {
    pairs.map_values(|p: (String, String)| (p.0@, p.1@))
}

/// Builds a TXT record from key and value pairs.
pub fn encode_txt(pairs: &[(String, String)]) -> (txt: Vec<u8>)
    ensures
        txt@ == encode_txt_of(pair_views(pairs@)),
{
    let ghost all = pair_views(pairs@);
    let mut out: Vec<u8> = Vec::new();
    let mut i: usize = 0;
    while i < pairs.len()
        invariant
            i <= pairs@.len(),
            all == pair_views(pairs@),
            out@ == encode_txt_of(all.subrange(0, i as int)),
        decreases pairs@.len() - i,
    {
        let mut entry = pairs[i].0.clone();
        entry.push('=');
        crate::text::push_str_chars(&mut entry, pairs[i].1.as_str());
        let bytes = entry.as_str().as_bytes();
        let length: usize = if bytes.len() > 255 { 255 } else { bytes.len() };
        out.push(length as u8);
        crate::bytes::push_bytes(&mut out, crate::bytes::copy_range(bytes, 0, length).as_slice());
        proof {
            assert(all.subrange(0, i + 1).drop_last() =~= all.subrange(0, i as int));
            assert(all.subrange(0, i + 1).last() == all[i as int]);
            assert(entry@ =~= pairs@[i as int].0@ + seq!['='] + pairs@[i as int].1@);
            if bytes@.len() <= 255 {
                assert(bytes@.subrange(0, length as int) =~= bytes@);
            }
        }
        i = i + 1;
        assert(out@ =~= encode_txt_of(all.subrange(0, i as int)));
    }
    assert(all.subrange(0, i as int) =~= all);
    out
}

/// The entries of a TXT record, each cut to the bytes that remain.
pub open spec fn txt_entries(txt: Seq<u8>) -> Seq<Seq<u8>>
    decreases txt.len(),
{
    if txt.len() == 0 {
        Seq::empty()
    } else {
        let n = if txt[0] as int > txt.len() - 1 {
            txt.len() - 1
        } else {
            txt[0] as int
        };
        seq![txt.subrange(1, 1 + n)] + txt_entries(txt.subrange(1 + n, txt.len() as int))
    }
}

/// The first `=` in `s`.
pub open spec fn first_equals(s: Seq<char>) -> Option<int>
    decreases s.len(),
{
    if s.len() == 0 {
        None
    } else if s[0] == '=' {
        Some(0)
    } else {
        match first_equals(s.drop_first()) {
            Some(i) => Some(i + 1),
            None => None,
        }
    }
}

/// What an entry says: its text split at the first `=` into a key, in
/// ASCII lower case, and a value; nothing when there is no `=`.
pub open spec fn entry_pair(entry: Seq<u8>) -> Option<(Seq<char>, Seq<char>)> {
    let t = utf8_lossy_text(entry);
    match first_equals(t) {
        Some(i) => Some((lower_all(t.subrange(0, i)), t.subrange(i + 1, t.len() as int))),
        None => None,
    }
}

/// The pairs of the entries, in record order.
pub open spec fn entries_pairs(entries: Seq<Seq<u8>>) -> Seq<(Seq<char>, Seq<char>)>
    decreases entries.len(),
{
    if entries.len() == 0 {
        Seq::empty()
    } else {
        let rest = entries_pairs(entries.drop_last());
        match entry_pair(entries.last()) {
            Some(p) => rest.push(p),
            None => rest,
        }
    }
}

/// The value a record gives a key: that of the key's last entry.
pub open spec fn txt_lookup(pairs: Seq<(Seq<char>, Seq<char>)>, key: Seq<char>) -> Option<Seq<char>>
    decreases pairs.len(),
{
    if pairs.len() == 0 {
        None
    } else if pairs.last().0 == key {
        Some(pairs.last().1)
    } else {
        txt_lookup(pairs.drop_last(), key)
    }
}

proof fn lemma_txt_entries_step(txt: Seq<u8>, pos: int)
    requires
        0 <= pos < txt.len(),
    ensures
        ({
            let rest = txt.subrange(pos, txt.len() as int);
            let n = if txt[pos] as int > txt.len() - pos - 1 {
                txt.len() - pos - 1
            } else {
                txt[pos] as int
            };
            txt_entries(rest) == seq![txt.subrange(pos + 1, pos + 1 + n)] + txt_entries(
                txt.subrange(pos + 1 + n, txt.len() as int),
            )
        }),
{
    let rest = txt.subrange(pos, txt.len() as int);
    let n = if txt[pos] as int > txt.len() - pos - 1 {
        txt.len() - pos - 1
    } else {
        txt[pos] as int
    };
    assert(rest[0] == txt[pos]);
    assert(rest.subrange(1, 1 + n) =~= txt.subrange(pos + 1, pos + 1 + n));
    assert(rest.subrange(1 + n, rest.len() as int) =~= txt.subrange(pos + 1 + n, txt.len() as int));
}

proof fn lemma_entries_pairs_push(entries: Seq<Seq<u8>>, e: Seq<u8>)
    ensures
        entries_pairs(entries.push(e)) == match entry_pair(e) {
            Some(p) => entries_pairs(entries).push(p),
            None => entries_pairs(entries),
        },
{
    assert(entries.push(e).drop_last() =~= entries);
}

fn split_entry(text: &String) -> (pair: Option<(String, String)>)
    ensures
        match (pair, first_equals(text@)) {
            (Some(p), Some(i)) => p.0@ == lower_all(text@.subrange(0, i)) && p.1@ == text@.subrange(i + 1, text@.len() as int),
            (None, None) => true,
            _ => false,
        },
{
    let chars = chars_of(text.as_str());
    let mut i: usize = 0;
    assert(text@.subrange(0, text@.len() as int) =~= text@);
    while i < chars.len()
        invariant
            i <= chars@.len(),
            chars@ == text@,
            first_equals(text@) == match first_equals(text@.subrange(i as int, text@.len() as int)) {
                Some(k) => Some(k + i),
                None => None,
            },
        decreases chars@.len() - i,
    {
        let ghost rest = text@.subrange(i as int, text@.len() as int);
        assert(rest.drop_first() =~= text@.subrange(i + 1, text@.len() as int));
        if chars[i] == '=' {
            assert(rest[0] == '=');
            let key = string_from_range(&chars, 0, i);
            let key_chars = chars_of(key.as_str());
            let lowered = crate::text::lowercase_chars(&key_chars);
            let value = string_from_range(&chars, i + 1, chars.len());
            return Some((crate::text::string_from_chars(&lowered), value));
        }
        i = i + 1;
    }
    assert(text@.subrange(i as int, text@.len() as int) =~= Seq::<char>::empty());
    None
}

/// Reads a TXT record into its key and value pairs, in record order; a key
/// given twice means the value of its last entry (see `txt_lookup`).  An
/// entry whose length runs past the record is cut at the record's end.
pub fn decode_txt(txt: &[u8]) -> (pairs: Vec<(String, String)>)
    ensures
        pair_views(pairs@) == entries_pairs(txt_entries(txt@)),
{
    let n = txt.len();
    let mut out: Vec<(String, String)> = Vec::new();
    let mut pos: usize = 0;
    let ghost mut consumed: Seq<Seq<u8>> = Seq::empty();
    assert(txt@.subrange(0, n as int) =~= txt@);
    while pos < n
        invariant
            pos <= n,
            n == txt@.len(),
            txt_entries(txt@) == consumed + txt_entries(txt@.subrange(pos as int, n as int)),
            pair_views(out@) == entries_pairs(consumed),
        decreases n - pos,
    {
        let length_byte = txt[pos] as usize;
        let available = n - pos - 1;
        let length = if length_byte > available { available } else { length_byte };
        proof {
            lemma_txt_entries_step(txt@, pos as int);
        }
        let entry = crate::bytes::copy_range(txt, pos + 1, pos + 1 + length);
        let text = utf8_lossy(entry.as_slice());
        let ghost before = pair_views(out@);
        match split_entry(&text) {
            Some(pair) => {
                out.push(pair);
                assert(pair_views(out@) =~= before.push((out@[out@.len() - 1].0@, out@[out@.len() - 1].1@)));
            },
            None => {},
        }
        proof {
            lemma_entries_pairs_push(consumed, entry@);
            consumed = consumed.push(entry@);
            assert(consumed =~= consumed.drop_last().push(entry@));
        }
        pos = pos + 1 + length;
        assert(txt_entries(txt@) =~= consumed + txt_entries(txt@.subrange(pos as int, n as int)));
    }
    assert(txt@.subrange(pos as int, n as int) =~= Seq::<u8>::empty());
    assert(consumed + Seq::<Seq<u8>>::empty() =~= consumed);
    out
}


/// What a device advertises: its identity, name, endpoint, certificate pin
/// (a fingerprint, never a certificate, key or secret), protocol version and
/// capabilities.
#[derive(Debug, Clone, PartialEq, Eq)]
pub struct DiscoveryRecord {
    pub device_id: String,
    pub device_name: String,
    pub endpoint: SocketAddress,
    pub certificate_fingerprint: String,
    pub protocol_version: u16,
    pub capabilities: Vec<String>,
}

/// A record as plain values.
pub struct DiscoveryRecordView {
    pub device_id: Seq<char>,
    pub device_name: Seq<char>,
    pub endpoint: SocketAddress,
    pub certificate_fingerprint: Seq<char>,
    pub protocol_version: u16,
    pub capabilities: Seq<Seq<char>>,
}

impl View for DiscoveryRecord {
    type V = DiscoveryRecordView;

    open spec fn view(&self) -> DiscoveryRecordView {
        DiscoveryRecordView {
            device_id: self.device_id@,
            device_name: self.device_name@,
            endpoint: self.endpoint,
            certificate_fingerprint: self.certificate_fingerprint@,
            protocol_version: self.protocol_version,
            capabilities: crate::transfer::views(self.capabilities@),
        }
    }
}

/// A copy of a record.
pub fn copy_record(r: &DiscoveryRecord) -> (c: DiscoveryRecord)
    ensures
        c@ == r@,
{
    DiscoveryRecord {
        device_id: r.device_id.clone(),
        device_name: r.device_name.clone(),
        endpoint: r.endpoint,
        certificate_fingerprint: r.certificate_fingerprint.clone(),
        protocol_version: r.protocol_version,
        capabilities: crate::transfer::clone_strings(&r.capabilities),
    }
}

/// The decimal value of a string of ASCII digits.
pub open spec fn digits_value(s: Seq<char>) -> int
    decreases s.len(),
{
    if s.len() == 0 {
        0
    } else {
        digits_value(s.drop_last()) * 10 + digit_value(s.last())
    }
}

/// `s` without a leading `+`.
pub open spec fn unsigned_digits(s: Seq<char>) -> Seq<char> {
    if s.len() > 0 && s[0] == '+' {
        s.drop_first()
    } else {
        s
    }
}

pub open spec fn all_digits(d: Seq<char>) -> bool {
    forall|i: int| 0 <= i < d.len() ==> is_ascii_digit(#[trigger] d[i])
}

/// A `u16` as `str::parse` reads it: an optional `+`, then one or more
/// ASCII digits whose value fits.
pub open spec fn u16_text(s: Seq<char>) -> Option<u16> {
    let d = unsigned_digits(s);
    if d.len() > 0 && all_digits(d) && digits_value(d) <= 65535 {
        Some(digits_value(d) as u16)
    } else {
        None
    }
}

proof fn lemma_digits_value_monotone(s: Seq<char>, k: int)
    requires
        0 <= k <= s.len(),
        forall|i: int| 0 <= i < s.len() ==> is_ascii_digit(#[trigger] s[i]),
    ensures
        digits_value(s.subrange(0, k)) <= digits_value(s),
        0 <= digits_value(s.subrange(0, k)),
    decreases s.len() - k,
{
    if k < s.len() {
        lemma_digits_value_monotone(s, k + 1);
        assert(s.subrange(0, k + 1).drop_last() =~= s.subrange(0, k));
        assert(s.subrange(0, k + 1).last() == s[k]);
    } else {
        assert(s.subrange(0, k) =~= s);
    }
    lemma_digits_nonnegative(s.subrange(0, k));
}

proof fn lemma_digits_nonnegative(s: Seq<char>)
    requires
        forall|i: int| 0 <= i < s.len() ==> is_ascii_digit(#[trigger] s[i]),
    ensures
        0 <= digits_value(s),
    decreases s.len(),
{
    if s.len() > 0 {
        lemma_digits_nonnegative(s.drop_last());
    }
}

/// Parses a protocol version.
pub fn parse_u16(text: &str) -> (value: Option<u16>)
    ensures
        value == u16_text(text@),
{
    let chars = chars_of(text);
    let start: usize = if chars.len() > 0 && chars[0] == '+' { 1 } else { 0 };
    let ghost d = unsigned_digits(text@);
    assert(d =~= chars@.subrange(start as int, chars@.len() as int));
    if start == chars.len() {
        assert(d.len() == 0);
        return None;
    }
    let mut value: u32 = 0;
    let mut i: usize = start;
    while i < chars.len()
        invariant
            start <= i <= chars@.len(),
            chars@ == text@,
            d == unsigned_digits(text@),
            d == chars@.subrange(start as int, chars@.len() as int),
            forall|k: int| start <= k < i ==> is_ascii_digit(#[trigger] chars@[k]),
            value == digits_value(chars@.subrange(start as int, i as int)),
            value <= 65535,
        decreases chars@.len() - i,
    {
        let c = chars[i];
        if !('0' <= c && c <= '9') {
            assert(d[i - start] == c);
            assert(!all_digits(d));
            return None;
        }
        let next = value * 10 + ((c as u32) - 48);
        assert(chars@.subrange(start as int, i + 1).drop_last() =~= chars@.subrange(start as int, i as int));
        if next > 65535 {
            proof {
                let prefix = chars@.subrange(start as int, i + 1);
                if all_digits(d) {
                    assert(prefix =~= d.subrange(0, i + 1 - start));
                    lemma_digits_value_monotone(d, i + 1 - start);
                }
            }
            return None;
        }
        value = next;
        i = i + 1;
    }
    assert(chars@.subrange(start as int, i as int) =~= d);
    assert forall|k: int| 0 <= k < d.len() implies is_ascii_digit(#[trigger] d[k]) by {
        assert(d[k] == chars@[start + k]);
    }
    assert(all_digits(d));
    Some(value as u16)
}

/// The non-empty comma-separated pieces of `s` seen so far, and the piece
/// being read.
pub open spec fn comma_pieces(s: Seq<char>) -> (Seq<Seq<char>>, Seq<char>)
    decreases s.len(),
{
    if s.len() == 0 {
        (Seq::empty(), Seq::empty())
    } else {
        let (done, current) = comma_pieces(s.drop_last());
        if s.last() == ',' {
            if current.len() > 0 {
                (done.push(current), Seq::empty())
            } else {
                (done, Seq::empty())
            }
        } else {
            (done, current.push(s.last()))
        }
    }
}

/// The non-empty comma-separated values of `s`, in order.
pub open spec fn comma_values(s: Seq<char>) -> Seq<Seq<char>> {
    let (done, current) = comma_pieces(s);
    if current.len() > 0 {
        done.push(current)
    } else {
        done
    }
}

pub open spec fn string_views(v: Seq<String>) -> Seq<Seq<char>> {
    v.map_values(|s: String| s@)
}

/// Splits a capability list.
pub fn split_capabilities(caps: &str) -> (values: Vec<String>)
    ensures
        string_views(values@) == comma_values(caps@),
{
    let chars = chars_of(caps);
    let mut done: Vec<String> = Vec::new();
    let mut current = String::new();
    let mut i: usize = 0;
    while i < chars.len()
        invariant
            i <= chars@.len(),
            chars@ == caps@,
            string_views(done@) == comma_pieces(chars@.subrange(0, i as int)).0,
            current@ == comma_pieces(chars@.subrange(0, i as int)).1,
        decreases chars@.len() - i,
    {
        let ghost prefix = chars@.subrange(0, i + 1);
        assert(prefix.drop_last() =~= chars@.subrange(0, i as int));
        assert(prefix.last() == chars@[i as int]);
        let c = chars[i];
        if c == ',' {
            if current.unicode_len() > 0 {
                let ghost before = string_views(done@);
                let piece = current;
                done.push(piece);
                assert(string_views(done@) =~= before.push(done@[done@.len() - 1]@));
                current = String::new();
            } else {
                current = String::new();
            }
        } else {
            current.push(c);
        }
        i = i + 1;
    }
    assert(chars@.subrange(0, i as int) =~= caps@);
    if current.unicode_len() > 0 {
        let ghost before = string_views(done@);
        done.push(current);
        assert(string_views(done@) =~= before.push(done@[done@.len() - 1]@));
    }
    done
}

fn lookup(pairs: &Vec<(String, String)>, key: &str) -> (value: Option<String>)
    ensures
        match value {
            Some(v) => txt_lookup(pair_views(pairs@), key@) == Some(v@),
            None => txt_lookup(pair_views(pairs@), key@) is None,
        },
{
    let ghost all = pair_views(pairs@);
    let mut i: usize = pairs.len();
    assert(all.subrange(0, i as int) =~= all);
    while i > 0
        invariant
            i <= pairs@.len(),
            all == pair_views(pairs@),
            txt_lookup(all, key@) == txt_lookup(all.subrange(0, i as int), key@),
        decreases i,
    {
        let ghost prefix = all.subrange(0, i as int);
        assert(prefix.drop_last() =~= all.subrange(0, i - 1));
        assert(prefix.last() == all[i - 1]);
        if crate::text::str_equal(pairs[i - 1].0.as_str(), key) {
            return Some(pairs[i - 1].1.clone());
        }
        i = i - 1;
    }
    None
}

/// What a TXT record and the endpoint it resolved to describe: a record
/// when the endpoint has a port and the TXT gives `id`, `name`, `pin` and a
/// `ver` that parses; `caps`, when given, lists the capabilities.
pub open spec fn record_of(pairs: Seq<(Seq<char>, Seq<char>)>, endpoint: SocketAddress, record: Option<DiscoveryRecord>) -> bool {
    let id = txt_lookup(pairs, seq!['i', 'd']);
    let name = txt_lookup(pairs, seq!['n', 'a', 'm', 'e']);
    let pin = txt_lookup(pairs, seq!['p', 'i', 'n']);
    let ver = txt_lookup(pairs, seq!['v', 'e', 'r']);
    let caps = txt_lookup(pairs, seq!['c', 'a', 'p', 's']);
    if endpoint.port != 0 && id is Some && name is Some && pin is Some && ver is Some && u16_text(
        ver->0,
    ) is Some {
        record matches Some(r) && r.device_id@ == id->0 && r.device_name@ == name->0
            && r.certificate_fingerprint@ == pin->0 && r.protocol_version == u16_text(ver->0)->0
            && r.endpoint == endpoint && string_views(r.capabilities@) == match caps {
            Some(c) => comma_values(c),
            None => Seq::empty(),
        }
    } else {
        record is None
    }
}

/// The record a resolved service describes, if it is complete.
pub fn record_from(txt: &[u8], endpoint: SocketAddress) -> (record: Option<DiscoveryRecord>)
    ensures
        record_of(entries_pairs(txt_entries(txt@)), endpoint, record),
{
    proof {
        reveal_strlit("id");
        reveal_strlit("name");
        reveal_strlit("pin");
        reveal_strlit("ver");
        reveal_strlit("caps");
        assert("id"@ =~= seq!['i', 'd']);
        assert("name"@ =~= seq!['n', 'a', 'm', 'e']);
        assert("pin"@ =~= seq!['p', 'i', 'n']);
        assert("ver"@ =~= seq!['v', 'e', 'r']);
        assert("caps"@ =~= seq!['c', 'a', 'p', 's']);
    }
    if endpoint.port == 0 {
        return None;
    }
    let values = decode_txt(txt);
    let id = match lookup(&values, "id") {
        Some(v) => v,
        None => {
            proof {
                reveal_strlit("id");
            }
            return None;
        },
    };
    let name = match lookup(&values, "name") {
        Some(v) => v,
        None => {
            proof {
                reveal_strlit("name");
            }
            return None;
        },
    };
    let pin = match lookup(&values, "pin") {
        Some(v) => v,
        None => {
            proof {
                reveal_strlit("pin");
            }
            return None;
        },
    };
    let ver = match lookup(&values, "ver") {
        Some(v) => v,
        None => {
            proof {
                reveal_strlit("ver");
            }
            return None;
        },
    };
    let protocol_version = match parse_u16(ver.as_str()) {
        Some(v) => v,
        None => {
            proof {
                reveal_strlit("id");
                reveal_strlit("name");
                reveal_strlit("pin");
                reveal_strlit("ver");
            }
            return None;
        },
    };
    let capabilities = match lookup(&values, "caps") {
        Some(c) => split_capabilities(c.as_str()),
        None => Vec::new(),
    };
    proof {
        reveal_strlit("id");
        reveal_strlit("name");
        reveal_strlit("pin");
        reveal_strlit("ver");
        reveal_strlit("caps");
        assert("id"@ =~= seq!['i', 'd']);
        assert("name"@ =~= seq!['n', 'a', 'm', 'e']);
        assert("pin"@ =~= seq!['p', 'i', 'n']);
        assert("ver"@ =~= seq!['v', 'e', 'r']);
        assert("caps"@ =~= seq!['c', 'a', 'p', 's']);
    }
    let ghost pairs = entries_pairs(txt_entries(txt@));
    assert(txt_lookup(pairs, seq!['i', 'd']) == Some(id@));
    assert(txt_lookup(pairs, seq!['v', 'e', 'r']) == Some(ver@));
    assert(u16_text(ver@) == Some(protocol_version));
    assert(string_views(capabilities@) == match txt_lookup(pairs, seq!['c', 'a', 'p', 's']) {
        Some(c) => comma_values(c),
        None => Seq::<Seq<char>>::empty(),
    });
    Some(DiscoveryRecord {
        device_id: id,
        device_name: name,
        endpoint,
        certificate_fingerprint: pin,
        protocol_version,
        capabilities,
    })
}

} // verus!
