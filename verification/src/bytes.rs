//! Big-endian integer encodings and byte-sequence helpers shared by the wire
//! formats of the pairing transcript, the frame codec and the secret blobs.
use vstd::prelude::*;

verus! {

/// The two big-endian bytes of `x`.
pub open spec fn be_u16(x: u16) -> Seq<u8> {
    seq![(x / 0x100) as u8, (x % 0x100) as u8]
}

/// The four big-endian bytes of `x`.
pub open spec fn be_u32(x: u32) -> Seq<u8> {
    seq![
        (x / 0x100_0000) as u8,
        ((x / 0x1_0000) % 0x100) as u8,
        ((x / 0x100) % 0x100) as u8,
        (x % 0x100) as u8,
    ]
}

/// The eight big-endian bytes of `x`.
pub open spec fn be_u64(x: u64) -> Seq<u8> {
    be_u32((x / 0x1_0000_0000) as u32) + be_u32((x % 0x1_0000_0000) as u32)
}

/// The integer whose big-endian encoding is the first two bytes of `b`.
pub open spec fn u16_of_be(b: Seq<u8>) -> u16 {
    (b[0] * 0x100 + b[1]) as u16
}

/// The integer whose big-endian encoding is the first four bytes of `b`.
pub open spec fn u32_of_be(b: Seq<u8>) -> u32 {
    (b[0] * 0x100_0000 + b[1] * 0x1_0000 + b[2] * 0x100 + b[3]) as u32
}

/// The integer whose big-endian encoding is the first eight bytes of `b`.
pub open spec fn u64_of_be(b: Seq<u8>) -> u64 {
    (u32_of_be(b) * 0x1_0000_0000 + u32_of_be(b.subrange(4, 8))) as u64
}

/// A `u16` written as two big-endian bytes reads back as itself.
pub proof fn lemma_u16_round_trip(x: u16)
    ensures
        be_u16(x).len() == 2,
        u16_of_be(be_u16(x)) == x,
{
}

/// A `u32` written as four big-endian bytes reads back as itself.
pub proof fn lemma_u32_round_trip(x: u32)
    ensures
        be_u32(x).len() == 4,
        u32_of_be(be_u32(x)) == x,
{
}

/// A `u64` written as eight big-endian bytes reads back as itself.
pub proof fn lemma_u64_round_trip(x: u64)
    ensures
        be_u64(x).len() == 8,
        u64_of_be(be_u64(x)) == x,
{
    let hi = (x / 0x1_0000_0000) as u32;
    let lo = (x % 0x1_0000_0000) as u32;
    lemma_u32_round_trip(hi);
    lemma_u32_round_trip(lo);
    assert(be_u64(x).subrange(4, 8) =~= be_u32(lo));
    assert(be_u64(x).subrange(0, 4) =~= be_u32(hi));
    assert(u32_of_be(be_u64(x)) == u32_of_be(be_u32(hi)));
}

/// `b` holds `a` as its first bytes.
pub open spec fn has_prefix(b: Seq<u8>, a: Seq<u8>) -> bool {
    a.len() <= b.len() && b.subrange(0, a.len() as int) == a
}

/// Appends the big-endian encoding of `x`.
pub fn push_be_u16(out: &mut Vec<u8>, x: u16)
    ensures
        final(out)@ == old(out)@ + be_u16(x),
{
    out.push((x / 0x100) as u8);
    out.push((x % 0x100) as u8);
    assert(final(out)@ =~= old(out)@ + be_u16(x));
}

/// Appends the big-endian encoding of `x`.
pub fn push_be_u32(out: &mut Vec<u8>, x: u32)
    ensures
        final(out)@ == old(out)@ + be_u32(x),
{
    out.push((x / 0x100_0000) as u8);
    out.push(((x / 0x1_0000) % 0x100) as u8);
    out.push(((x / 0x100) % 0x100) as u8);
    out.push((x % 0x100) as u8);
    assert(final(out)@ =~= old(out)@ + be_u32(x));
}

/// Appends the big-endian encoding of `x`.
pub fn push_be_u64(out: &mut Vec<u8>, x: u64)
    ensures
        final(out)@ == old(out)@ + be_u64(x),
{
    let ghost start = out@;
    push_be_u32(out, (x / 0x1_0000_0000) as u32);
    push_be_u32(out, (x % 0x1_0000_0000) as u32);
    assert(out@ =~= start + be_u64(x));
}

/// Appends every byte of `data`.
pub fn push_bytes(out: &mut Vec<u8>, data: &[u8])
    ensures
        final(out)@ == old(out)@ + data@,
{
    let ghost start = out@;
    let mut i: usize = 0;
    while i < data.len()
        invariant
            i <= data@.len(),
            out@ == start + data@.subrange(0, i as int),
        decreases data@.len() - i,
    {
        out.push(data[i]);
        i = i + 1;
        assert(out@ =~= start + data@.subrange(0, i as int));
    }
    assert(data@.subrange(0, i as int) =~= data@);
}

/// A fresh vector holding `data[start..end]`.
pub fn copy_range(data: &[u8], start: usize, end: usize) -> (out: Vec<u8>)
    requires
        start <= end <= data@.len(),
    ensures
        out@ == data@.subrange(start as int, end as int),
{
    let mut out: Vec<u8> = Vec::new();
    let mut i: usize = start;
    while i < end
        invariant
            start <= i <= end,
            end <= data@.len(),
            out@ == data@.subrange(start as int, i as int),
        decreases end - i,
    {
        out.push(data[i]);
        i = i + 1;
        assert(out@ =~= data@.subrange(start as int, i as int));
    }
    out
}

/// Reads the big-endian `u32` stored at `data[at..at + 4]`.
pub fn read_be_u32(data: &[u8], at: usize) -> (x: u32)
    requires
        at + 4 <= data@.len(),
    ensures
        x == u32_of_be(data@.subrange(at as int, at + 4)),
{
    let b0 = data[at] as u32;
    let b1 = data[at + 1] as u32;
    let b2 = data[at + 2] as u32;
    let b3 = data[at + 3] as u32;
    b0 * 0x100_0000 + b1 * 0x1_0000 + b2 * 0x100 + b3
}

/// Reads the big-endian `u64` stored at `data[at..at + 8]`.
pub fn read_be_u64(data: &[u8], at: usize) -> (x: u64)
    requires
        at + 8 <= data@.len(),
    ensures
        x == u64_of_be(data@.subrange(at as int, at + 8)),
{
    let hi = read_be_u32(data, at) as u64;
    let len = data.len();
    assert(at + 4 < len);
    let lo = read_be_u32(data, at + 4) as u64;
    assert(data@.subrange(at as int, at + 8).subrange(4, 8) =~= data@.subrange(at + 4, at + 8));
    assert(data@.subrange(at as int, at + 8).subrange(0, 4) =~= data@.subrange(at as int, at + 4));
    assert(hi * 0x1_0000_0000 + lo <= u64::MAX) by (nonlinear_arith)
        requires
            hi < 0x1_0000_0000,
            lo < 0x1_0000_0000,
    ;
    hi * 0x1_0000_0000 + lo
}

/// Lexicographic `<` on byte strings of the same length, as `[u8; N]::cmp` orders them.
pub open spec fn lex_less(a: Seq<u8>, b: Seq<u8>) -> bool {
    exists|i: int|
        0 <= i < a.len() && i < b.len() && a.subrange(0, i) == b.subrange(0, i) && a[i] < b[i]
}

/// Whether `a` comes strictly before `b` in lexicographic byte order.
pub fn bytes_less(a: &[u8], b: &[u8]) -> (less: bool)
    requires
        a@.len() == b@.len(),
    ensures
        less == lex_less(a@, b@),
{
    let mut i: usize = 0;
    while i < a.len()
        invariant
            a@.len() == b@.len(),
            i <= a@.len(),
            a@.subrange(0, i as int) == b@.subrange(0, i as int),
        decreases a@.len() - i,
    {
        if a[i] != b[i] {
            let less = a[i] < b[i];
            proof {
                if less {
                    assert(lex_less(a@, b@));
                } else {
                    assert forall|j: int|
                        0 <= j < a@.len() && a@.subrange(0, j) == b@.subrange(0, j) implies !(a@[j]
                        < b@[j]) by {
                        if j < i {
                            assert(a@[j] == a@.subrange(0, i as int)[j]);
                            assert(b@[j] == b@.subrange(0, i as int)[j]);
                        } else if j > i {
                            assert(a@[i as int] == a@.subrange(0, j)[i as int]);
                            assert(b@[i as int] == b@.subrange(0, j)[i as int]);
                        }
                    }
                }
            }
            return less;
        }
        i = i + 1;
        assert(a@.subrange(0, i as int) =~= b@.subrange(0, i as int)) by {
            assert forall|j: int| 0 <= j < i implies a@[j] == b@[j] by {
                if j < i - 1 {
                    assert(a@[j] == a@.subrange(0, i - 1)[j]);
                    assert(b@[j] == b@.subrange(0, i - 1)[j]);
                }
            }
        }
    }
    proof {
        assert forall|j: int|
            0 <= j < a@.len() && a@.subrange(0, j) == b@.subrange(0, j) implies !(a@[j] < b@[j]) by {
            assert(a@[j] == a@.subrange(0, i as int)[j]);
            assert(b@[j] == b@.subrange(0, i as int)[j]);
        }
    }
    false
}

/// Whether two byte strings are equal.
pub fn bytes_equal(a: &[u8], b: &[u8]) -> (equal: bool)
    ensures
        equal == (a@ == b@),
{
    if a.len() != b.len() {
        return false;
    }
    let mut i: usize = 0;
    while i < a.len()
        invariant
            a@.len() == b@.len(),
            i <= a@.len(),
            forall|j: int| 0 <= j < i ==> a@[j] == b@[j],
        decreases a@.len() - i,
    {
        if a[i] != b[i] {
            return false;
        }
        i = i + 1;
    }
    assert(a@ =~= b@);
    true
}


/// A 16-byte identifier read as one big-endian integer.
pub open spec fn id_number(id: Seq<u8>) -> int {
    u64_of_be(id) * 0x1_0000_0000_0000_0000 + u64_of_be(id.subrange(8, 16))
}

proof fn lemma_u32_of_be_injective(a: Seq<u8>, b: Seq<u8>)
    requires
        a.len() >= 4,
        b.len() >= 4,
        u32_of_be(a) == u32_of_be(b),
    ensures
        a.subrange(0, 4) == b.subrange(0, 4),
{
    let (a0, a1, a2, a3) = (a[0] as int, a[1] as int, a[2] as int, a[3] as int);
    let (b0, b1, b2, b3) = (b[0] as int, b[1] as int, b[2] as int, b[3] as int);
    assert(a0 * 0x100_0000 + a1 * 0x1_0000 + a2 * 0x100 + a3 < 0x1_0000_0000);
    assert(b0 * 0x100_0000 + b1 * 0x1_0000 + b2 * 0x100 + b3 < 0x1_0000_0000);
    assert(a0 == b0 && a1 == b1 && a2 == b2 && a3 == b3) by (nonlinear_arith)
        requires
            0 <= a0 < 256,
            0 <= a1 < 256,
            0 <= a2 < 256,
            0 <= a3 < 256,
            0 <= b0 < 256,
            0 <= b1 < 256,
            0 <= b2 < 256,
            0 <= b3 < 256,
            a0 * 0x100_0000 + a1 * 0x1_0000 + a2 * 0x100 + a3 == b0 * 0x100_0000 + b1 * 0x1_0000
                + b2 * 0x100 + b3,
    ;
    assert(a.subrange(0, 4) =~= b.subrange(0, 4));
}

proof fn lemma_u64_of_be_injective(a: Seq<u8>, b: Seq<u8>)
    requires
        a.len() >= 8,
        b.len() >= 8,
        u64_of_be(a) == u64_of_be(b),
    ensures
        a.subrange(0, 8) == b.subrange(0, 8),
{
    let (ah, al) = (u32_of_be(a) as int, u32_of_be(a.subrange(4, 8)) as int);
    let (bh, bl) = (u32_of_be(b) as int, u32_of_be(b.subrange(4, 8)) as int);
    assert(ah == bh && al == bl) by (nonlinear_arith)
        requires
            0 <= ah < 0x1_0000_0000,
            0 <= al < 0x1_0000_0000,
            0 <= bh < 0x1_0000_0000,
            0 <= bl < 0x1_0000_0000,
            ah * 0x1_0000_0000 + al == bh * 0x1_0000_0000 + bl,
    ;
    lemma_u32_of_be_injective(a, b);
    lemma_u32_of_be_injective(a.subrange(4, 8), b.subrange(4, 8));
    assert(a.subrange(0, 8) =~= a.subrange(0, 4) + a.subrange(4, 8).subrange(0, 4));
    assert(b.subrange(0, 8) =~= b.subrange(0, 4) + b.subrange(4, 8).subrange(0, 4));
}

/// Distinct 16-byte identifiers have distinct numbers.
pub proof fn lemma_id_number_injective(a: Seq<u8>, b: Seq<u8>)
    requires
        a.len() == 16,
        b.len() == 16,
        id_number(a) == id_number(b),
    ensures
        a == b,
{
    let (ah, al) = (u64_of_be(a) as int, u64_of_be(a.subrange(8, 16)) as int);
    let (bh, bl) = (u64_of_be(b) as int, u64_of_be(b.subrange(8, 16)) as int);
    assert(ah == bh && al == bl) by (nonlinear_arith)
        requires
            0 <= ah < 0x1_0000_0000_0000_0000,
            0 <= al < 0x1_0000_0000_0000_0000,
            0 <= bh < 0x1_0000_0000_0000_0000,
            0 <= bl < 0x1_0000_0000_0000_0000,
            ah * 0x1_0000_0000_0000_0000 + al == bh * 0x1_0000_0000_0000_0000 + bl,
    ;
    lemma_u64_of_be_injective(a, b);
    lemma_u64_of_be_injective(a.subrange(8, 16), b.subrange(8, 16));
    assert(a =~= a.subrange(0, 8) + a.subrange(8, 16).subrange(0, 8));
    assert(b =~= b.subrange(0, 8) + b.subrange(8, 16).subrange(0, 8));
}

/// The number of a 16-byte identifier.
pub fn id_key(id: &[u8; 16]) -> (key: u128)
    ensures
        key == id_number(id@),
{
    let hi = read_be_u64(id, 0) as u128;
    let lo = read_be_u64(id, 8) as u128;
    assert(id@.subrange(0, 8).subrange(0, 4) =~= id@.subrange(0, 4));
    assert(id@.subrange(0, 8).subrange(4, 8) =~= id@.subrange(4, 8));
    hi * 0x1_0000_0000_0000_0000 + lo
}


/// `d`'s first `k` bytes written over an arbitrary 32-byte array.
spec fn filled_array(d: Seq<u8>, k: nat) -> [u8; 32]
    decreases k,
{
    if k == 0 {
        vstd::pervasive::arbitrary()
    } else {
        vstd::array::spec_array_update(filled_array(d, (k - 1) as nat), k - 1, d[k - 1])
    }
}

proof fn lemma_filled_array(d: Seq<u8>, k: nat)
    requires
        k <= 32,
        d.len() == 32,
    ensures
        forall|i: int| 0 <= i < k ==> filled_array(d, k)@[i] == d[i],
    decreases k,
{
    if k > 0 {
        lemma_filled_array(d, (k - 1) as nat);
        let prev = filled_array(d, (k - 1) as nat);
        assert(prev@.len() == 32);
        assert(filled_array(d, k)@ == prev@.update(k - 1, d[k - 1]));
    }
}

/// Every 32-byte sequence is the view of a 32-byte array.
pub proof fn lemma_array32_exists(d: Seq<u8>)
    requires
        d.len() == 32,
    ensures
        exists|a: [u8; 32]| a@ == d,
{
    lemma_filled_array(d, 32);
    let a = filled_array(d, 32);
    assert(a@.len() == 32);
    assert(a@ =~= d);
}

} // verus!
