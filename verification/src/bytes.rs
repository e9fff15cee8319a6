//! Little-endian integer fields and lexicographic byte order, shared by the term encodings.

use vstd::prelude::*;

verus! {

/// The four little-endian bytes of a value below 2^32.
#[verifier::opaque]
pub open spec fn le32(n: nat) -> Seq<u8> {
    seq![
        (n % 256) as u8,
        ((n / 256) % 256) as u8,
        ((n / 65536) % 256) as u8,
        ((n / 16777216) % 256) as u8,
    ]
}

/// The unsigned value of the four little-endian bytes of `d` starting at `i`.
pub open spec fn u32_at(d: Seq<u8>, i: int) -> nat {
    (d[i] + 256 * d[i + 1] + 65536 * d[i + 2] + 16777216 * d[i + 3]) as nat
}

/// The two's complement value of the four little-endian bytes of `d` starting at `i`.
pub open spec fn i32_at(d: Seq<u8>, i: int) -> int {
    if u32_at(d, i) >= 2147483648 {
        u32_at(d, i) - 4294967296
    } else {
        u32_at(d, i) as int
    }
}

/// The eight little-endian bytes of a value below 2^64.
pub open spec fn le64(n: nat) -> Seq<u8> {
    le32(n % 4294967296) + le32((n / 4294967296) % 4294967296)
}

/// The unsigned value of the eight little-endian bytes of `d` starting at `i`.
pub open spec fn u64_at(d: Seq<u8>, i: int) -> nat {
    u32_at(d, i) + 4294967296 * u32_at(d, i + 4)
}

/// A four-byte field read from the middle of a sequence is the field's own value.
pub proof fn lemma_u32_field(d: Seq<u8>, i: int, n: nat)
    requires
        0 <= i,
        i + 4 <= d.len(),
        n < 4294967296,
        d.subrange(i, i + 4) == le32(n),
    ensures
        u32_at(d, i) == n,
{
    lemma_le32_roundtrip(n);
    let f = d.subrange(i, i + 4);
    assert(f[0] == d[i] && f[1] == d[i + 1] && f[2] == d[i + 2] && f[3] == d[i + 3]);
}

/// Reading four little-endian bytes back gives the value they were written from.
pub proof fn lemma_le32_roundtrip(n: nat)
    requires
        n < 4294967296,
    ensures
        le32(n).len() == 4,
        u32_at(le32(n), 0) == n,
{
    reveal(le32);
    let b0 = n % 256;
    let r1 = n / 256;
    let b1 = r1 % 256;
    let r2 = r1 / 256;
    let b2 = r2 % 256;
    let b3 = r2 / 256;
    assert(n / 65536 == r2);
    assert(n / 16777216 == b3);
    assert(b3 < 256);
    assert(b3 % 256 == b3);
    let s = le32(n);
    assert(s[0] == b0 && s[1] == b1 && s[2] == b2 && s[3] == b3);
}

/// Reading eight little-endian bytes back gives the value they were written from.
pub proof fn lemma_le64_roundtrip(n: nat)
    requires
        n < 18446744073709551616,
    ensures
        le64(n).len() == 8,
        u64_at(le64(n), 0) == n,
{
    let lo = n % 4294967296;
    let hi = (n / 4294967296) % 4294967296;
    assert(n / 4294967296 < 4294967296);
    assert(hi == n / 4294967296);
    lemma_le32_roundtrip(lo);
    lemma_le32_roundtrip(hi);
    let s = le64(n);
    assert(s.subrange(0, 4) =~= le32(lo));
    assert(s.subrange(4, 8) =~= le32(hi));
    assert(u32_at(s, 0) == u32_at(le32(lo), 0));
    assert(u32_at(s, 4) == u32_at(le32(hi), 0));
}

/// The order of two integers: `-1` (less), `0` (equal) or `1` (greater).
pub open spec fn order_int(a: int, b: int) -> int {
    if a < b {
        -1
    } else if a == b {
        0
    } else {
        1
    }
}

/// The lexicographic order of `a` and `b` from position `i` on, where a proper prefix comes
/// first, as Rust orders byte slices.
pub open spec fn lex_order_from(a: Seq<u8>, b: Seq<u8>, i: int) -> int
    decreases a.len() - i,
{
    if i < 0 || i >= a.len() {
        if i >= 0 && i < b.len() {
            -1
        } else {
            0
        }
    } else if i >= b.len() {
        1
    } else if a[i] != b[i] {
        order_int(a[i] as int, b[i] as int)
    } else {
        lex_order_from(a, b, i + 1)
    }
}

/// The lexicographic order of two byte sequences.
pub open spec fn lex_order(a: Seq<u8>, b: Seq<u8>) -> int {
    lex_order_from(a, b, 0)
}

/// The lexicographic order of `a` and `b` from position `i` on.
pub open spec fn lex_order_at(a: Seq<u8>, b: Seq<u8>, i: usize) -> int {
    lex_order_from(a, b, i as int)
}

/// The order of two optional byte sequences: absent before present, present ones
/// lexicographically.
pub open spec fn lex_order_opt(a: Option<Seq<u8>>, b: Option<Seq<u8>>) -> int {
    match (a, b) {
        (None, None) => 0,
        (None, Some(_)) => -1,
        (Some(_), None) => 1,
        (Some(x), Some(y)) => lex_order(x, y),
    }
}

/// Swapping the arguments of the lexicographic order negates it.
pub proof fn lemma_lex_order_from_antisymmetric(a: Seq<u8>, b: Seq<u8>, i: int)
    requires
        0 <= i,
    ensures
        lex_order_from(a, b, i) == -lex_order_from(b, a, i),
    decreases a.len() - i,
{
    if i < a.len() && i < b.len() && a[i] == b[i] {
        lemma_lex_order_from_antisymmetric(a, b, i + 1);
    }
}

/// The lexicographic order from `i` on is zero exactly when the two sequences agree from `i` on.
pub proof fn lemma_lex_order_from_zero(a: Seq<u8>, b: Seq<u8>, i: int)
    requires
        0 <= i <= a.len(),
        i <= b.len(),
    ensures
        lex_order_from(a, b, i) == 0 <==> (a.len() == b.len() && a.subrange(i, a.len() as int)
            =~= b.subrange(i, b.len() as int)),
    decreases a.len() - i,
{
    if i < a.len() && i < b.len() {
        lemma_lex_order_from_zero(a, b, i + 1);
        if a[i] == b[i] && a.len() == b.len() {
            let sa = a.subrange(i, a.len() as int);
            let sb = b.subrange(i, b.len() as int);
            assert(sa =~= seq![a[i]] + a.subrange(i + 1, a.len() as int));
            assert(sb =~= seq![b[i]] + b.subrange(i + 1, b.len() as int));
            if sa =~= sb {
                assert(a.subrange(i + 1, a.len() as int) =~= sa.subrange(1, sa.len() as int));
                assert(b.subrange(i + 1, b.len() as int) =~= sb.subrange(1, sb.len() as int));
            }
        } else if a.len() == b.len() {
            assert(a.subrange(i, a.len() as int)[0] != b.subrange(i, b.len() as int)[0]);
        }
    }
}

/// Appends the bytes of `src` to `buf`.
pub fn append_bytes(buf: &mut Vec<u8>, src: &[u8])
    ensures
        final(buf)@ == old(buf)@ + src@,
{
    let n = src.len();
    let mut i: usize = 0;
    while i < n
        invariant
            n == src@.len(),
            i <= n,
            buf@ == old(buf)@ + src@.subrange(0, i as int),
        decreases n - i,
    {
        buf.push(src[i]);
        i = i + 1;
        assert(src@.subrange(0, i as int) =~= src@.subrange(0, i - 1) + seq![src@[i - 1]]);
    }
    assert(src@.subrange(0, n as int) =~= src@);
}

/// Appends the four little-endian bytes of `n` to `buf`.
pub fn append_le32(buf: &mut Vec<u8>, n: u32)
    ensures
        final(buf)@ == old(buf)@ + le32(n as nat),
{
    let b0 = (n % 256) as u8;
    let b1 = ((n / 256) % 256) as u8;
    let b2 = ((n / 65536) % 256) as u8;
    let b3 = ((n / 16777216) % 256) as u8;
    buf.push(b0);
    buf.push(b1);
    buf.push(b2);
    buf.push(b3);
    reveal(le32);
    assert(buf@ =~= old(buf)@ + le32(n as nat));
}

/// Reads the unsigned little-endian value of the four bytes of `d` starting at `i`.
pub fn read_u32_le(d: &[u8], i: usize) -> (r: u32)
    requires
        i + 4 <= d@.len(),
    ensures
        r == u32_at(d@, i as int),
{
    let b0 = d[i] as u32;
    let b1 = d[i + 1] as u32;
    let b2 = d[i + 2] as u32;
    let b3 = d[i + 3] as u32;
    b0 + 256 * b1 + 65536 * b2 + 16777216 * b3
}

/// Reads the two's complement little-endian value of the four bytes of `d` starting at `i`.
pub fn read_i32_le(d: &[u8], i: usize) -> (r: i32)
    requires
        i + 4 <= d@.len(),
    ensures
        r == i32_at(d@, i as int),
{
    let u = read_u32_le(d, i);
    if u >= 2147483648 {
        (u as i64 - 4294967296) as i32
    } else {
        u as i32
    }
}

/// The byte that stores a signed byte (its two's complement bits).
pub open spec fn i8_to_byte(t: i8) -> u8 {
    if t >= 0 {
        t as u8
    } else {
        (t + 256) as u8
    }
}

/// The signed byte that a stored byte denotes.
pub open spec fn byte_to_i8(b: u8) -> i8 {
    if b < 128 {
        b as i8
    } else {
        (b - 256) as i8
    }
}

/// Reading back the stored byte of a signed byte gives the signed byte.
pub proof fn lemma_i8_byte_roundtrip(t: i8)
    ensures
        byte_to_i8(i8_to_byte(t)) == t,
{
}

/// Converts a signed byte to the byte that stores it.
pub fn i8_as_byte(t: i8) -> (r: u8)
    ensures
        r == i8_to_byte(t),
{
    if t >= 0 {
        t as u8
    } else {
        (t as i16 + 256) as u8
    }
}

/// Converts a stored byte to the signed byte it denotes.
pub fn byte_as_i8(b: u8) -> (r: i8)
    ensures
        r == byte_to_i8(b),
{
    if b < 128 {
        b as i8
    } else {
        (b as i16 - 256) as i8
    }
}

} // verus!
