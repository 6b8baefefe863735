//! Character-level text operations: trimming, ASCII case mapping, decimal and
//! hexadecimal rendering, each stated over `Seq<char>`.
use vstd::prelude::*;

verus! {

/// `String::push` appends one character.
pub assume_specification[ String::push ](s: &mut String, ch: char)
    ensures
        final(s)@ == old(s)@.push(ch),
;

/// The characters of `s`, in order.
pub fn chars_of(s: &str) -> (out: Vec<char>)
    ensures
        out@ == s@,
{
    let mut out: Vec<char> = Vec::new();
    for c in it: s.chars()
        invariant
            out@ == it.seq().take(it.index() as int),
            it.seq() == s@,
    {
        out.push(c);
    }
    out
}

/// A `String` holding exactly the characters `chars[start..end]`.
pub fn string_from_range(chars: &Vec<char>, start: usize, end: usize) -> (s: String)
    requires
        start <= end <= chars@.len(),
    ensures
        s@ == chars@.subrange(start as int, end as int),
{
    let mut s = String::new();
    let mut i = start;
    while i < end
        invariant
            start <= i <= end,
            end <= chars@.len(),
            s@ == chars@.subrange(start as int, i as int),
        decreases end - i,
    {
        s.push(chars[i]);
        i = i + 1;
        assert(s@ =~= chars@.subrange(start as int, i as int));
    }
    s
}

/// A `String` holding exactly the characters of `chars`.
pub fn string_from_chars(chars: &Vec<char>) -> (s: String)
    ensures
        s@ == chars@,
{
    let s = string_from_range(chars, 0, chars.len());
    assert(chars@.subrange(0, chars@.len() as int) =~= chars@);
    s
}

/// Appends the characters of `text`.
pub fn push_chars(out: &mut String, text: &Vec<char>)
    ensures
        final(out)@ == old(out)@ + text@,
{
    let ghost start = out@;
    let mut i: usize = 0;
    while i < text.len()
        invariant
            i <= text@.len(),
            out@ == start + text@.subrange(0, i as int),
        decreases text@.len() - i,
    {
        out.push(text[i]);
        i = i + 1;
        assert(out@ =~= start + text@.subrange(0, i as int));
    }
    assert(text@.subrange(0, i as int) =~= text@);
}

/// Appends the characters of `text`.
pub fn push_str_chars(out: &mut String, text: &str)
    ensures
        final(out)@ == old(out)@ + text@,
{
    let chars = chars_of(text);
    push_chars(out, &chars);
}

/// Whether the two strings hold the same characters.
pub fn str_equal(a: &str, b: &str) -> (equal: bool)
    ensures
        equal == (a@ == b@),
{
    let x = chars_of(a);
    let y = chars_of(b);
    chars_equal(&x, &y)
}

/// Whether two character vectors are equal.
pub fn chars_equal(x: &Vec<char>, y: &Vec<char>) -> (equal: bool)
    ensures
        equal == (x@ == y@),
{
    if x.len() != y.len() {
        return false;
    }
    let mut i: usize = 0;
    while i < x.len()
        invariant
            x@.len() == y@.len(),
            i <= x@.len(),
            forall|j: int| 0 <= j < i ==> x@[j] == y@[j],
        decreases x@.len() - i,
    {
        if x[i] != y[i] {
            return false;
        }
        i = i + 1;
    }
    assert(x@ =~= y@);
    true
}

/// Unicode `White_Space`, the property `char::is_whitespace` tests.
pub open spec fn is_white_space(c: char) -> bool {
    let u = c as u32;
    (0x09 <= u <= 0x0d) || u == 0x20 || u == 0x85 || u == 0xa0 || u == 0x1680 || (0x2000 <= u
        <= 0x200a) || u == 0x2028 || u == 0x2029 || u == 0x202f || u == 0x205f || u == 0x3000
}

pub fn char_is_white_space(c: char) -> (w: bool)
    ensures
        w == is_white_space(c),
{
    let u = c as u32;
    (0x09 <= u && u <= 0x0d) || u == 0x20 || u == 0x85 || u == 0xa0 || u == 0x1680 || (0x2000 <= u
        && u <= 0x200a) || u == 0x2028 || u == 0x2029 || u == 0x202f || u == 0x205f || u == 0x3000
}

/// The number of leading white-space characters of `s`.
pub open spec fn leading_space(s: Seq<char>) -> nat
    decreases s.len(),
{
    if s.len() > 0 && is_white_space(s[0]) {
        1 + leading_space(s.drop_first())
    } else {
        0
    }
}

/// The number of trailing white-space characters of `s`.
pub open spec fn trailing_space(s: Seq<char>) -> nat
    decreases s.len(),
{
    if s.len() > 0 && is_white_space(s.last()) {
        1 + trailing_space(s.drop_last())
    } else {
        0
    }
}

/// `s` without leading and trailing white space, as `str::trim` returns it.
pub open spec fn trimmed(s: Seq<char>) -> Seq<char> {
    let t = s.subrange(leading_space(s) as int, s.len() as int);
    t.subrange(0, t.len() - trailing_space(t))
}

proof fn lemma_leading_space_bound(s: Seq<char>)
    ensures
        leading_space(s) <= s.len(),
    decreases s.len(),
{
    if s.len() > 0 && is_white_space(s[0]) {
        lemma_leading_space_bound(s.drop_first());
    }
}

proof fn lemma_trailing_space_bound(s: Seq<char>)
    ensures
        trailing_space(s) <= s.len(),
    decreases s.len(),
{
    if s.len() > 0 && is_white_space(s.last()) {
        lemma_trailing_space_bound(s.drop_last());
    }
}

/// Leading white space of `s`, measured from index `i` on.
proof fn lemma_leading_space_step(s: Seq<char>, i: int)
    requires
        0 <= i <= s.len(),
        forall|j: int| 0 <= j < i ==> is_white_space(#[trigger] s[j]),
    ensures
        leading_space(s) == i + leading_space(s.subrange(i, s.len() as int)),
    decreases i,
{
    if i > 0 {
        let t = s.drop_first();
        assert forall|j: int| 0 <= j < i - 1 implies is_white_space(#[trigger] t[j]) by {
            assert(t[j] == s[j + 1]);
        }
        lemma_leading_space_step(t, i - 1);
        assert(t.subrange(i - 1, t.len() as int) =~= s.subrange(i, s.len() as int));
    } else {
        assert(s.subrange(0, s.len() as int) =~= s);
    }
}

proof fn lemma_trailing_space_step(s: Seq<char>, k: int)
    requires
        0 <= k <= s.len(),
        forall|j: int| s.len() - k <= j < s.len() ==> is_white_space(#[trigger] s[j]),
    ensures
        trailing_space(s) == k + trailing_space(s.subrange(0, s.len() - k)),
    decreases k,
{
    if k > 0 {
        let t = s.drop_last();
        assert forall|j: int| t.len() - (k - 1) <= j < t.len() implies is_white_space(
            #[trigger] t[j],
        ) by {
            assert(t[j] == s[j]);
        }
        lemma_trailing_space_step(t, k - 1);
        assert(t.subrange(0, t.len() - (k - 1)) =~= s.subrange(0, s.len() - k));
    } else {
        assert(s.subrange(0, s.len() as int) =~= s);
    }
}

/// `s` with surrounding white space removed (`str::trim`).
pub fn trim(s: &str) -> (out: String)
    ensures
        out@ == trimmed(s@),
{
    let chars = chars_of(s);
    let mut start: usize = 0;
    while start < chars.len() && char_is_white_space(chars[start])
        invariant
            start <= chars@.len(),
            chars@ == s@,
            forall|j: int| 0 <= j < start ==> is_white_space(#[trigger] chars@[j]),
        decreases chars@.len() - start,
    {
        start = start + 1;
    }
    proof {
        lemma_leading_space_step(chars@, start as int);
        let rest = chars@.subrange(start as int, chars@.len() as int);
        if rest.len() > 0 {
            assert(rest[0] == chars@[start as int]);
        }
    }
    let mut end: usize = chars.len();
    while end > start && char_is_white_space(chars[end - 1])
        invariant
            start <= end <= chars@.len(),
            chars@ == s@,
            forall|j: int| end <= j < chars@.len() ==> is_white_space(#[trigger] chars@[j]),
        decreases end,
    {
        end = end - 1;
    }
    proof {
        let t = chars@.subrange(start as int, chars@.len() as int);
        assert(leading_space(chars@) == start);
        let k = (chars@.len() - end) as int;
        assert forall|j: int| t.len() - k <= j < t.len() implies is_white_space(#[trigger] t[j]) by {
            assert(t[j] == chars@[start + j]);
        }
        lemma_trailing_space_step(t, k);
        let u = t.subrange(0, t.len() - k);
        if u.len() > 0 {
            assert(u.last() == chars@[end - 1]);
        }
        assert(u =~= chars@.subrange(start as int, end as int));
    }
    string_from_range(&chars, start, end)
}

/// ASCII upper-case letters mapped to lower case, every other character kept.
pub open spec fn ascii_lower(c: char) -> char {
    if 'A' <= c <= 'Z' {
        ((c as u32) + 32) as char
    } else {
        c
    }
}

/// ASCII lower-case letters mapped to upper case, every other character kept.
pub open spec fn ascii_upper(c: char) -> char {
    if 'a' <= c <= 'z' {
        ((c as u32) - 32) as char
    } else {
        c
    }
}

pub open spec fn lower_all(s: Seq<char>) -> Seq<char> {
    s.map_values(|c: char| ascii_lower(c))
}

pub open spec fn upper_all(s: Seq<char>) -> Seq<char> {
    s.map_values(|c: char| ascii_upper(c))
}

pub fn char_to_ascii_lowercase(c: char) -> (d: char)
    ensures
        d == ascii_lower(c),
{
    if 'A' <= c && c <= 'Z' {
        let u = (c as u32) + 32;
        let d = char_from_ascii(u);
        d
    } else {
        c
    }
}

pub fn char_to_ascii_uppercase(c: char) -> (d: char)
    ensures
        d == ascii_upper(c),
{
    if 'a' <= c && c <= 'z' {
        let u = (c as u32) - 32;
        char_from_ascii(u)
    } else {
        c
    }
}

/// The character whose code point is the ASCII value `u`.
pub fn char_from_ascii(u: u32) -> (c: char)
    requires
        u < 128,
    ensures
        c == u as char,
        c as u32 == u,
{
    let b = u as u8;
    b as char
}

/// `str::to_ascii_lowercase` of the characters `s`.
pub fn lowercase_chars(s: &Vec<char>) -> (out: Vec<char>)
    ensures
        out@ == lower_all(s@),
{
    let mut out: Vec<char> = Vec::new();
    let mut i: usize = 0;
    while i < s.len()
        invariant
            i <= s@.len(),
            out@ == lower_all(s@.subrange(0, i as int)),
        decreases s@.len() - i,
    {
        out.push(char_to_ascii_lowercase(s[i]));
        i = i + 1;
        assert(out@ =~= lower_all(s@.subrange(0, i as int)));
    }
    assert(s@.subrange(0, i as int) =~= s@);
    out
}

/// `str::to_ascii_uppercase` of the characters `s`.
pub fn uppercase_chars(s: &Vec<char>) -> (out: Vec<char>)
    ensures
        out@ == upper_all(s@),
{
    let mut out: Vec<char> = Vec::new();
    let mut i: usize = 0;
    while i < s.len()
        invariant
            i <= s@.len(),
            out@ == upper_all(s@.subrange(0, i as int)),
        decreases s@.len() - i,
    {
        out.push(char_to_ascii_uppercase(s[i]));
        i = i + 1;
        assert(out@ =~= upper_all(s@.subrange(0, i as int)));
    }
    assert(s@.subrange(0, i as int) =~= s@);
    out
}

/// The ASCII digit for `d < 10`.
pub open spec fn digit_char(d: nat) -> char {
    (48 + d) as char
}

/// The decimal rendering of `n`, without leading zeros.
pub open spec fn decimal(n: nat) -> Seq<char>
    decreases n,
{
    if n < 10 {
        seq![digit_char(n)]
    } else {
        decimal(n / 10).push(digit_char(n % 10))
    }
}

/// `decimal(n)` left-padded with `0` to at least `width` characters.
pub open spec fn zero_padded(n: nat, width: nat) -> Seq<char> {
    let d = decimal(n);
    if d.len() >= width {
        d
    } else {
        Seq::new((width - d.len()) as nat, |i: int| '0') + d
    }
}

proof fn lemma_decimal_nonempty(n: nat)
    ensures
        decimal(n).len() >= 1,
    decreases n,
{
    if n >= 10 {
        lemma_decimal_nonempty(n / 10);
    }
}

/// Whether `c` is an ASCII digit.
pub open spec fn is_digit_char(c: char) -> bool {
    48 <= (c as u32) <= 57
}

proof fn lemma_decimal_digits(n: nat)
    ensures
        forall|i: int| 0 <= i < decimal(n).len() ==> is_digit_char(#[trigger] decimal(n)[i]),
        n < 10 ==> decimal(n).len() == 1,
        10 <= n < 100 ==> decimal(n).len() == 2,
        100 <= n < 1000 ==> decimal(n).len() == 3,
    decreases n,
{
    if n >= 10 {
        lemma_decimal_digits(n / 10);
        let d = decimal(n);
        assert forall|i: int| 0 <= i < d.len() implies is_digit_char(#[trigger] d[i]) by {
            if i < d.len() - 1 {
                assert(d[i] == decimal(n / 10)[i]);
            }
        }
    }
}

/// A number below 1000, zero-padded to three places, is three digits.
pub proof fn lemma_zero_padded_digits(n: nat, width: nat)
    requires
        width == 3,
        n < 1000,
    ensures
        zero_padded(n, width).len() == 3,
        forall|i: int| 0 <= i < 3 ==> is_digit_char(#[trigger] zero_padded(n, width)[i]),
{
    lemma_decimal_digits(n);
    let d = decimal(n);
    let z = zero_padded(n, width);
    if d.len() < 3 {
        let pad = Seq::new((3 - d.len()) as nat, |i: int| '0');
        assert(z == pad + d);
        assert forall|i: int| 0 <= i < 3 implies is_digit_char(#[trigger] z[i]) by {
            if i < pad.len() {
                assert(z[i] == '0');
            } else {
                assert(z[i] == d[i - pad.len()]);
            }
        }
    }
}

/// The number three decimal digits stand for.
pub open spec fn three_digit_value(s: Seq<char>) -> int {
    ((s[0] as u32) - 48) * 100 + ((s[1] as u32) - 48) * 10 + ((s[2] as u32) - 48)
}

/// A number below 1000, zero-padded to three places, reads back as itself.
pub proof fn lemma_zero_padded_value(n: nat)
    requires
        n < 1000,
    ensures
        three_digit_value(zero_padded(n, 3)) == n,
{
    let z = zero_padded(n, 3);
    if n < 10 {
        assert(decimal(n) == seq![digit_char(n)]);
        assert(z =~= seq!['0', '0', digit_char(n)]);
    } else if n < 100 {
        assert(decimal(n / 10) == seq![digit_char(n / 10)]);
        assert(decimal(n) =~= seq![digit_char(n / 10), digit_char(n % 10)]);
        assert(z =~= seq!['0', digit_char(n / 10), digit_char(n % 10)]);
    } else {
        let m = n / 10;
        assert(decimal(m / 10) == seq![digit_char(m / 10)]);
        assert(decimal(m) =~= seq![digit_char(m / 10), digit_char(m % 10)]);
        assert(decimal(n) =~= seq![digit_char(m / 10), digit_char(m % 10), digit_char(n % 10)]);
        assert(z == decimal(n));
    }
}

/// The decimal rendering of `n` (`n.to_string()`).
pub fn decimal_chars(n: u128) -> (out: Vec<char>)
    ensures
        out@ == decimal(n as nat),
    decreases n,
{
    if n < 10 {
        let mut out: Vec<char> = Vec::new();
        out.push(char_from_ascii(48 + n as u32));
        assert(out@ =~= decimal(n as nat));
        out
    } else {
        let mut out = decimal_chars(n / 10);
        out.push(char_from_ascii(48 + (n % 10) as u32));
        assert(out@ =~= decimal(n as nat));
        out
    }
}

/// Distinct numbers have distinct decimal renderings.
pub proof fn lemma_decimal_injective(a: nat, b: nat)
    requires
        decimal(a) == decimal(b),
    ensures
        a == b,
    decreases a,
{
    if a >= 10 {
        lemma_decimal_nonempty(a / 10);
    }
    if b >= 10 {
        lemma_decimal_nonempty(b / 10);
    }
    if a >= 10 && b >= 10 {
        assert(decimal(a).drop_last() =~= decimal(a / 10));
        assert(decimal(b).drop_last() =~= decimal(b / 10));
        lemma_decimal_injective(a / 10, b / 10);
        assert(decimal(a).last() == digit_char(a % 10));
        assert(decimal(b).last() == digit_char(b % 10));
        assert(digit_char(a % 10) as u32 == 48 + a % 10);
        assert(digit_char(b % 10) as u32 == 48 + b % 10);
        assert(a % 10 == b % 10);
        assert(a == 10 * (a / 10) + a % 10);
        assert(b == 10 * (b / 10) + b % 10);
    } else if a < 10 && b < 10 {
        assert(decimal(a)[0] == digit_char(a));
        assert(decimal(b)[0] == digit_char(b));
        assert(digit_char(a) as u32 == 48 + a);
        assert(digit_char(b) as u32 == 48 + b);
        assert(a == b);
    } else if a < 10 {
        assert(decimal(b).len() == decimal(b / 10).len() + 1);
        assert(decimal(a).len() == 1);
        assert(false);
    } else {
        assert(decimal(a).len() == decimal(a / 10).len() + 1);
        assert(decimal(b).len() == 1);
        assert(false);
    }
}

/// `format!("{n:0width$}")`.
pub fn zero_padded_chars(n: u128, width: usize) -> (out: Vec<char>)
    ensures
        out@ == zero_padded(n as nat, width as nat),
{
    let digits = decimal_chars(n);
    if digits.len() >= width {
        return digits;
    }
    let mut out: Vec<char> = Vec::new();
    let pad = width - digits.len();
    let mut i: usize = 0;
    while i < pad
        invariant
            i <= pad,
            out@ == Seq::new(i as nat, |j: int| '0'),
        decreases pad - i,
    {
        out.push('0');
        i = i + 1;
        assert(out@ =~= Seq::new(i as nat, |j: int| '0'));
    }
    let mut j: usize = 0;
    let ghost prefix = out@;
    while j < digits.len()
        invariant
            j <= digits@.len(),
            out@ == prefix + digits@.subrange(0, j as int),
        decreases digits@.len() - j,
    {
        out.push(digits[j]);
        j = j + 1;
        assert(out@ =~= prefix + digits@.subrange(0, j as int));
    }
    assert(digits@.subrange(0, j as int) =~= digits@);
    out
}

/// The lower-case hexadecimal digit for `d < 16`.
pub open spec fn hex_digit(d: nat) -> char {
    if d < 10 {
        (48 + d) as char
    } else {
        (87 + d) as char
    }
}

/// Lower-case hexadecimal of `bytes`, two digits per byte (`hex::encode`).
pub open spec fn hex_lower(bytes: Seq<u8>) -> Seq<char>
    decreases bytes.len(),
{
    if bytes.len() == 0 {
        Seq::empty()
    } else {
        hex_lower(bytes.drop_last()).push(hex_digit((bytes.last() / 16) as nat)).push(
            hex_digit((bytes.last() % 16) as nat),
        )
    }
}

pub fn hex_digit_char(d: u8) -> (c: char)
    requires
        d < 16,
    ensures
        c == hex_digit(d as nat),
{
    if d < 10 {
        char_from_ascii(48 + d as u32)
    } else {
        char_from_ascii(87 + d as u32)
    }
}

/// Lower-case hexadecimal of `bytes`.
pub fn hex_encode(bytes: &[u8]) -> (out: Vec<char>)
    ensures
        out@ == hex_lower(bytes@),
        out@.len() == 2 * bytes@.len(),
{
    let mut out: Vec<char> = Vec::new();
    let mut i: usize = 0;
    while i < bytes.len()
        invariant
            i <= bytes@.len(),
            out@ == hex_lower(bytes@.subrange(0, i as int)),
            out@.len() == 2 * i,
        decreases bytes@.len() - i,
    {
        let b = bytes[i];
        out.push(hex_digit_char(b / 16));
        out.push(hex_digit_char(b % 16));
        i = i + 1;
        assert(bytes@.subrange(0, i as int).drop_last() =~= bytes@.subrange(0, i - 1));
        assert(out@ =~= hex_lower(bytes@.subrange(0, i as int)));
    }
    assert(bytes@.subrange(0, i as int) =~= bytes@);
    out
}

/// The value of the hexadecimal digit `c` (either case), if it is one.
pub open spec fn hex_value(c: char) -> Option<u8> {
    if '0' <= c <= '9' {
        Some(((c as u32) - 48) as u8)
    } else if 'a' <= c <= 'f' {
        Some(((c as u32) - 87) as u8)
    } else if 'A' <= c <= 'F' {
        Some(((c as u32) - 55) as u8)
    } else {
        None
    }
}

/// The bytes written by the hexadecimal text `s` (`hex::decode`): `None` when
/// `s` has an odd length or a character that is not a hexadecimal digit.
pub open spec fn hex_decoded(s: Seq<char>) -> Option<Seq<u8>>
    decreases s.len(),
{
    if s.len() == 0 {
        Some(Seq::empty())
    } else if s.len() == 1 {
        None
    } else {
        match (hex_decoded(s.subrange(0, s.len() - 2)), hex_value(s[s.len() - 2]), hex_value(
            s[s.len() - 1],
        )) {
            (Some(prefix), Some(hi), Some(lo)) => Some(prefix.push((hi * 16 + lo) as u8)),
            _ => None,
        }
    }
}

pub fn hex_value_of(c: char) -> (v: Option<u8>)
    ensures
        v == hex_value(c),
{
    if '0' <= c && c <= '9' {
        Some(((c as u32) - 48) as u8)
    } else if 'a' <= c && c <= 'f' {
        Some(((c as u32) - 87) as u8)
    } else if 'A' <= c && c <= 'F' {
        Some(((c as u32) - 55) as u8)
    } else {
        None
    }
}

proof fn lemma_hex_digit_value(d: nat)
    requires
        d < 16,
    ensures
        hex_value(hex_digit(d)) == Some(d as u8),
{
}

/// Decoding the lower-case hexadecimal of `bytes` gives `bytes` back.
pub proof fn lemma_hex_round_trip(bytes: Seq<u8>)
    ensures
        hex_lower(bytes).len() == 2 * bytes.len(),
        hex_decoded(hex_lower(bytes)) == Some(bytes),
    decreases bytes.len(),
{
    if bytes.len() > 0 {
        let rest = bytes.drop_last();
        let last = bytes.last();
        lemma_hex_round_trip(rest);
        let s = hex_lower(bytes);
        lemma_hex_digit_value((last / 16) as nat);
        lemma_hex_digit_value((last % 16) as nat);
        assert(s.subrange(0, s.len() - 2) =~= hex_lower(rest));
        assert(((last / 16) * 16 + last % 16) as u8 == last);
        assert(rest.push(last) =~= bytes);
    }
}

proof fn lemma_hex_decoded_odd(s: Seq<char>)
    requires
        s.len() % 2 == 1,
    ensures
        hex_decoded(s) is None,
    decreases s.len(),
{
    if s.len() > 1 {
        lemma_hex_decoded_odd(s.subrange(0, s.len() - 2));
    }
}

proof fn lemma_hex_decoded_extend(s: Seq<char>, k: int)
    requires
        0 <= k,
        2 * k + 2 <= s.len(),
        hex_decoded(s.subrange(0, 2 * k)) is None,
    ensures
        hex_decoded(s.subrange(0, 2 * k + 2)) is None,
{
    assert(s.subrange(0, 2 * k + 2).subrange(0, 2 * k) =~= s.subrange(0, 2 * k));
}

proof fn lemma_hex_decoded_none_prefix(s: Seq<char>, k: int)
    requires
        0 <= k,
        2 * k <= s.len(),
        s.len() % 2 == 0,
        hex_decoded(s.subrange(0, 2 * k)) is None,
    ensures
        hex_decoded(s) is None,
    decreases s.len() - 2 * k,
{
    if 2 * k == s.len() {
        assert(s.subrange(0, 2 * k) =~= s);
    } else {
        lemma_hex_decoded_extend(s, k);
        lemma_hex_decoded_none_prefix(s, k + 1);
    }
}

/// Decodes hexadecimal text of either case.
pub fn hex_decode(s: &Vec<char>) -> (out: Option<Vec<u8>>)
    ensures
        match out {
            Some(v) => hex_decoded(s@) == Some(v@),
            None => hex_decoded(s@) is None,
        },
{
    if s.len() % 2 == 1 {
        proof {
            lemma_hex_decoded_odd(s@);
        }
        return None;
    }
    let mut out: Vec<u8> = Vec::new();
    let mut i: usize = 0;
    while i < s.len()
        invariant
            s@.len() % 2 == 0,
            i % 2 == 0,
            i <= s@.len(),
            hex_decoded(s@.subrange(0, i as int)) == Some(out@),
        decreases s@.len() - i,
    {
        let hi = hex_value_of(s[i]);
        let lo = hex_value_of(s[i + 1]);
        let ghost t = s@.subrange(0, i + 2);
        assert(t.subrange(0, t.len() - 2) =~= s@.subrange(0, i as int));
        assert(t[t.len() - 2] == s@[i as int]);
        assert(t[t.len() - 1] == s@[i + 1]);
        match (hi, lo) {
            (Some(h), Some(l)) => {
                out.push(h * 16 + l);
                i = i + 2;
            },
            _ => {
                proof {
                    lemma_hex_decoded_none_prefix(s@, (i / 2 + 1) as int);
                }
                return None;
            },
        }
    }
    assert(s@.subrange(0, i as int) =~= s@);
    Some(out)
}


/// The value of a string of ASCII decimal digits.
pub open spec fn digits_number(s: Seq<char>) -> int
    decreases s.len(),
{
    if s.len() == 0 {
        0
    } else {
        digits_number(s.drop_last()) * 10 + (s.last() as int - 48)
    }
}

pub open spec fn all_ascii_digits(s: Seq<char>) -> bool {
    forall|i: int| 0 <= i < s.len() ==> '0' <= #[trigger] s[i] <= '9'
}

/// `s` without a leading sign.
pub open spec fn signed_digits(s: Seq<char>) -> Seq<char> {
    if s.len() > 0 && (s[0] == '+' || s[0] == '-') {
        s.drop_first()
    } else {
        s
    }
}

/// An `i64` as `str::parse` reads it: an optional sign, then one or more
/// ASCII digits whose signed value fits.
pub open spec fn i64_text(s: Seq<char>) -> Option<i64> {
    let negative = s.len() > 0 && s[0] == '-';
    let d = signed_digits(s);
    let v = if negative {
        -digits_number(d)
    } else {
        digits_number(d)
    };
    if d.len() > 0 && all_ascii_digits(d) && i64::MIN <= v <= i64::MAX {
        Some(v as i64)
    } else {
        None
    }
}

proof fn lemma_digits_number_prefix(s: Seq<char>, k: int)
    requires
        0 <= k <= s.len(),
        all_ascii_digits(s),
    ensures
        0 <= digits_number(s.subrange(0, k)) <= digits_number(s),
    decreases s.len() - k,
{
    if k < s.len() {
        lemma_digits_number_prefix(s, k + 1);
        assert(s.subrange(0, k + 1).drop_last() =~= s.subrange(0, k));
        assert(s.subrange(0, k + 1).last() == s[k]);
        lemma_digits_number_nonnegative(s.subrange(0, k));
    } else {
        assert(s.subrange(0, k) =~= s);
        lemma_digits_number_nonnegative(s);
    }
}

proof fn lemma_digits_number_nonnegative(s: Seq<char>)
    requires
        all_ascii_digits(s),
    ensures
        0 <= digits_number(s),
    decreases s.len(),
{
    if s.len() > 0 {
        assert(all_ascii_digits(s.drop_last())) by {
            assert forall|i: int| 0 <= i < s.drop_last().len() implies '0' <= #[trigger] s.drop_last()[i] <= '9' by {
                assert(s.drop_last()[i] == s[i]);
            }
        }
        lemma_digits_number_nonnegative(s.drop_last());
    }
}

/// Parses a signed 64-bit integer.
pub fn parse_i64(text: &str) -> (value: Option<i64>)
    ensures
        value == i64_text(text@),
{
    let chars = chars_of(text);
    let negative = chars.len() > 0 && chars[0] == '-';
    let start: usize = if chars.len() > 0 && (chars[0] == '+' || chars[0] == '-') { 1 } else { 0 };
    let ghost d = chars@.subrange(start as int, chars@.len() as int);
    assert(d =~= signed_digits(text@));
    if start == chars.len() {
        return None;
    }
    let limit: u64 = if negative { 9223372036854775808 } else { 9223372036854775807 };
    let mut value: u64 = 0;
    let mut i: usize = start;
    while i < chars.len()
        invariant
            start <= i <= chars@.len(),
            chars@ == text@,
            d == chars@.subrange(start as int, chars@.len() as int),
            d == signed_digits(text@),
            forall|k: int| start <= k < i ==> '0' <= #[trigger] chars@[k] <= '9',
            value == digits_number(chars@.subrange(start as int, i as int)),
            value <= limit,
            limit == if negative { 9223372036854775808u64 } else { 9223372036854775807u64 },
            negative == (text@.len() > 0 && text@[0] == '-'),
        decreases chars@.len() - i,
    {
        let c = chars[i];
        if !('0' <= c && c <= '9') {
            assert(d[i - start] == c);
            assert(!all_ascii_digits(d));
            return None;
        }
        let digit = ((c as u32) - 48) as u64;
        assert(chars@.subrange(start as int, i + 1).drop_last() =~= chars@.subrange(start as int, i as int));
        if value > (limit - digit) / 10 {
            proof {
                if all_ascii_digits(d) {
                    assert(chars@.subrange(start as int, i + 1) =~= d.subrange(0, i + 1 - start));
                    lemma_digits_number_prefix(d, i + 1 - start);
                    assert(value * 10 + digit > limit) by (nonlinear_arith)
                        requires
                            value > (limit - digit) / 10,
                            digit <= 9,
                            limit >= 9,
                    ;
                }
            }
            return None;
        }
        assert(value * 10 + digit <= limit) by (nonlinear_arith)
            requires
                value <= (limit - digit) / 10,
                digit <= 9,
                limit >= 9,
        ;
        value = value * 10 + digit;
        i = i + 1;
    }
    assert(chars@.subrange(start as int, i as int) =~= d);
    assert forall|k: int| 0 <= k < d.len() implies '0' <= #[trigger] d[k] <= '9' by {
        assert(d[k] == chars@[start + k]);
    }
    if negative {
        if value == 9223372036854775808 {
            Some(i64::MIN)
        } else {
            Some(0 - (value as i64))
        }
    } else {
        Some(value as i64)
    }
}

/// Lexicographic order of character strings by code point, the order of
/// `str`'s `<` (UTF-8 keeps the order of code points).
pub open spec fn text_less(a: Seq<char>, b: Seq<char>) -> bool {
    ||| exists|i: int|
        0 <= i < a.len() && i < b.len() && a.subrange(0, i) == b.subrange(0, i) && (a[i] as u32) < (b[i] as u32)
    ||| a.len() < b.len() && a == b.subrange(0, a.len() as int)
}

/// No text comes before itself.
pub proof fn lemma_text_less_irreflexive(a: Seq<char>)
    ensures
        !text_less(a, a),
{
}

/// Code-point order of texts is transitive.
pub proof fn lemma_text_less_transitive(a: Seq<char>, b: Seq<char>, c: Seq<char>)
    requires
        text_less(a, b),
        text_less(b, c),
    ensures
        text_less(a, c),
{
    let p = a.len() < b.len() && a == b.subrange(0, a.len() as int);
    let q = b.len() < c.len() && b == c.subrange(0, b.len() as int);
    let i: int = if p {
        a.len() as int
    } else {
        choose|i: int|
            0 <= i < a.len() && i < b.len() && a.subrange(0, i) == b.subrange(0, i) && (a[i] as u32) < (b[i] as u32)
    };
    let j: int = if q {
        b.len() as int
    } else {
        choose|j: int|
            0 <= j < b.len() && j < c.len() && b.subrange(0, j) == c.subrange(0, j) && (b[j] as u32) < (c[j] as u32)
    };
    if p {
        assert(a.subrange(0, i) =~= a);
    }
    if q {
        assert(b.subrange(0, j) =~= b);
    }
    assert(0 <= i <= a.len() && i <= b.len() && a.subrange(0, i) == b.subrange(0, i));
    assert(0 <= j <= b.len() && j <= c.len() && b.subrange(0, j) == c.subrange(0, j));
    if i < j {
        assert(b.subrange(0, i) =~= b.subrange(0, j).subrange(0, i));
        assert(c.subrange(0, i) =~= c.subrange(0, j).subrange(0, i));
        if p {
            assert(a =~= c.subrange(0, a.len() as int));
        } else {
            assert(b[i] == b.subrange(0, j)[i]);
            assert(c[i] == c.subrange(0, j)[i]);
            assert(0 <= i < a.len() && i < c.len() && a.subrange(0, i) == c.subrange(0, i) && (a[i] as u32) < (c[i]
                as u32));
        }
    } else if i == j {
        if p {
            assert(a =~= c.subrange(0, a.len() as int));
        } else {
            assert(0 <= i < a.len() && i < c.len() && a.subrange(0, i) == c.subrange(0, i) && (a[i] as u32) < (c[i]
                as u32));
        }
    } else {
        assert(a.subrange(0, j) =~= a.subrange(0, i).subrange(0, j));
        assert(b.subrange(0, j) =~= b.subrange(0, i).subrange(0, j));
        assert(a[j] == a.subrange(0, i)[j]);
        assert(b[j] == b.subrange(0, i)[j]);
        assert(0 <= j < a.len() && j < c.len() && a.subrange(0, j) == c.subrange(0, j) && (a[j] as u32) < (c[j]
            as u32));
    }
}

/// Of two different texts, one comes first.
pub proof fn lemma_text_less_total(a: Seq<char>, b: Seq<char>)
    requires
        a != b,
    ensures
        text_less(a, b) || text_less(b, a),
{
    assert(a.subrange(0, 0) =~= b.subrange(0, 0));
    lemma_text_less_from(a, b, 0);
}

proof fn lemma_text_less_from(a: Seq<char>, b: Seq<char>, i: int)
    requires
        a != b,
        0 <= i <= a.len(),
        i <= b.len(),
        a.subrange(0, i) == b.subrange(0, i),
    ensures
        text_less(a, b) || text_less(b, a),
    decreases a.len() - i,
{
    if i == a.len() || i == b.len() {
        if a.len() < b.len() {
            assert(a =~= b.subrange(0, a.len() as int)) by {
                assert(a =~= a.subrange(0, i));
            }
        } else if b.len() < a.len() {
            assert(b =~= a.subrange(0, b.len() as int)) by {
                assert(b =~= b.subrange(0, i));
            }
        } else {
            assert(a =~= b) by {
                assert(a =~= a.subrange(0, i));
                assert(b =~= b.subrange(0, i));
            }
        }
    } else if a[i] == b[i] {
        assert(a.subrange(0, i + 1) =~= b.subrange(0, i + 1)) by {
            assert forall|k: int| 0 <= k < i + 1 implies a[k] == b[k] by {
                if k < i {
                    assert(a[k] == a.subrange(0, i)[k]);
                    assert(b[k] == b.subrange(0, i)[k]);
                }
            }
        }
        lemma_text_less_from(a, b, i + 1);
    } else if (a[i] as u32) < (b[i] as u32) {
        assert(0 <= i < a.len() && i < b.len() && a.subrange(0, i) == b.subrange(0, i) && (a[i] as u32) < (b[i] as u32));
    } else {
        let x = a[i];
        let y = b[i];
        vstd::utf8::char_u32_cast(x, x as u32);
        vstd::utf8::char_u32_cast(y, y as u32);
        assert((x as u32) != (y as u32));
        assert(0 <= i < b.len() && i < a.len() && b.subrange(0, i) == a.subrange(0, i) && (b[i] as u32) < (a[i] as u32));
    }
}

/// Whether `a` comes strictly before `b` in code-point order.
pub fn text_lt(a: &Vec<char>, b: &Vec<char>) -> (less: bool)
    ensures
        less == text_less(a@, b@),
{
    let mut i: usize = 0;
    while i < a.len() && i < b.len()
        invariant
            i <= a@.len(),
            i <= b@.len(),
            a@.subrange(0, i as int) == b@.subrange(0, i as int),
        decreases a@.len() - i,
    {
        if a[i] != b[i] {
            let less = (a[i] as u32) < (b[i] as u32);
            proof {
                if less {
                    assert(text_less(a@, b@));
                } else {
                    assert forall|j: int|
                        0 <= j < a@.len() && j < b@.len() && a@.subrange(0, j) == b@.subrange(0, j) implies !((
                        a@[j] as u32) < (b@[j] as u32)) by {
                        if j < i {
                            assert(a@[j] == a@.subrange(0, i as int)[j]);
                            assert(b@[j] == b@.subrange(0, i as int)[j]);
                        } else if j > i {
                            assert(a@[i as int] == a@.subrange(0, j)[i as int]);
                            assert(b@[i as int] == b@.subrange(0, j)[i as int]);
                        }
                    }
                    if a@.len() < b@.len() && a@ == b@.subrange(0, a@.len() as int) {
                        assert(a@[i as int] == b@.subrange(0, a@.len() as int)[i as int]);
                    }
                }
            }
            return less;
        }
        i = i + 1;
        assert(a@.subrange(0, i as int) =~= b@.subrange(0, i as int)) by {
            assert forall|j: int| 0 <= j < i implies a@[j] == b@[j] by {
                if j < i - 1 {
                    assert(a@[j] == a@.subrange(0, i - 1)[j]);
                    assert(b@[j] == b@.subrange(0, i - 1)[j]);
                }
            }
        }
    }
    let less = a.len() < b.len();
    proof {
        assert forall|j: int|
            0 <= j < a@.len() && j < b@.len() && a@.subrange(0, j) == b@.subrange(0, j) implies !((a@[j] as u32)
            < (b@[j] as u32)) by {
            assert(a@[j] == a@.subrange(0, i as int)[j]);
            assert(b@[j] == b@.subrange(0, i as int)[j]);
        }
        if less {
            assert(a@ =~= a@.subrange(0, i as int));
            assert(b@.subrange(0, a@.len() as int) =~= b@.subrange(0, i as int));
        }
    }
    less
}

} // verus!
