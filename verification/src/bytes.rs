//! Fixed-width integers as bytes, big-endian and little-endian.

use vstd::prelude::*;

verus! {

/// The four bytes of `x`, most significant first.
pub open spec fn be32(x: u32) -> Seq<u8> {
    seq![
        ((x / 0x100_0000) % 256) as u8,
        ((x / 0x1_0000) % 256) as u8,
        ((x / 0x100) % 256) as u8,
        (x % 256) as u8,
    ]
}

/// The number whose four bytes, most significant first, are `s`.
pub open spec fn from_be32(s: Seq<u8>) -> int {
    s[0] * 0x100_0000 + s[1] * 0x1_0000 + s[2] * 0x100 + s[3]
}

/// The four bytes of `x`, least significant first.
pub open spec fn le32(x: u32) -> Seq<u8> {
    seq![
        (x % 256) as u8,
        ((x / 0x100) % 256) as u8,
        ((x / 0x1_0000) % 256) as u8,
        ((x / 0x100_0000) % 256) as u8,
    ]
}

/// The number whose four bytes, least significant first, are `s`.
pub open spec fn from_le32(s: Seq<u8>) -> int {
    s[0] + s[1] * 0x100 + s[2] * 0x1_0000 + s[3] * 0x100_0000
}

/// The eight bytes of `x`, least significant first.
pub open spec fn le64(x: u64) -> Seq<u8> {
    le32((x % 0x1_0000_0000) as u32) + le32((x / 0x1_0000_0000) as u32)
}

/// The number whose eight bytes, least significant first, are `s`.
pub open spec fn from_le64(s: Seq<u8>) -> int {
    from_le32(s.subrange(0, 4)) + from_le32(s.subrange(4, 8)) * 0x1_0000_0000
}

proof fn lemma_digits_of(x: u32)
    ensures
        ((x / 0x100_0000) % 256) * 0x100_0000 + ((x / 0x1_0000) % 256) * 0x1_0000 + ((x / 0x100)
            % 256) * 0x100 + (x % 256) == x,
{
    let d3: u32 = (x / 0x100_0000) % 256;
    let d2: u32 = (x / 0x1_0000) % 256;
    let d1: u32 = (x / 0x100) % 256;
    let d0: u32 = x % 256;
    assert(d3 * 0x100_0000 + d2 * 0x1_0000 + d1 * 0x100 + d0 == x) by (bit_vector)
        requires
            d3 == (x / 0x100_0000) % 256,
            d2 == (x / 0x1_0000) % 256,
            d1 == (x / 0x100) % 256,
            d0 == x % 256,
    ;
}

proof fn lemma_number_of(b0: u8, b1: u8, b2: u8, b3: u8) -> (x: u32)
    ensures
        x == b0 + b1 * 0x100 + b2 * 0x1_0000 + b3 * 0x100_0000,
        x % 256 == b0,
        (x / 0x100) % 256 == b1,
        (x / 0x1_0000) % 256 == b2,
        (x / 0x100_0000) % 256 == b3,
{
    let x: u32 = (b0 as u32 + (b1 as u32) * 0x100 + (b2 as u32) * 0x1_0000 + (b3 as u32)
        * 0x100_0000) as u32;
    assert(x % 256 == b0 as u32 && (x / 0x100) % 256 == b1 as u32 && (x / 0x1_0000) % 256
        == b2 as u32 && (x / 0x100_0000) % 256 == b3 as u32) by (bit_vector)
        requires
            x == (b0 as u32) + (b1 as u32) * 0x100 + (b2 as u32) * 0x1_0000 + (b3 as u32)
                * 0x100_0000,
    ;
    x
}

/// Reading back the big-endian bytes of a number gives the number.
pub proof fn lemma_be32_round_trip(x: u32)
    ensures
        be32(x).len() == 4,
        from_be32(be32(x)) == x,
{
    lemma_digits_of(x);
}

/// Reading back the little-endian bytes of a 32-bit number gives the number.
pub proof fn lemma_le32_round_trip(x: u32)
    ensures
        le32(x).len() == 4,
        from_le32(le32(x)) == x,
{
    lemma_digits_of(x);
}

/// Four bytes read least significant first stay under 2^32, and writing the
/// number read gives the four bytes again.
pub proof fn lemma_from_le32_bytes(s: Seq<u8>)
    requires
        s.len() == 4,
    ensures
        0 <= from_le32(s) <= u32::MAX,
        le32(from_le32(s) as u32) == s,
{
    let x = lemma_number_of(s[0], s[1], s[2], s[3]);
    assert(x == from_le32(s));
    assert(le32(x) =~= s);
}

/// Four bytes read most significant first stay under 2^32, and writing the
/// number read gives the four bytes again.
pub proof fn lemma_from_be32_bytes(s: Seq<u8>)
    requires
        s.len() == 4,
    ensures
        0 <= from_be32(s) <= u32::MAX,
        be32(from_be32(s) as u32) == s,
{
    let x = lemma_number_of(s[3], s[2], s[1], s[0]);
    assert(x == from_be32(s));
    assert(be32(x) =~= s);
}

/// Reading back the little-endian bytes of a 64-bit number gives the number.
pub proof fn lemma_le64_round_trip(x: u64)
    ensures
        le64(x).len() == 8,
        from_le64(le64(x)) == x,
{
    let lo = (x % 0x1_0000_0000) as u32;
    let hi = (x / 0x1_0000_0000) as u32;
    lemma_le32_round_trip(lo);
    lemma_le32_round_trip(hi);
    assert(le64(x).subrange(0, 4) =~= le32(lo));
    assert(le64(x).subrange(4, 8) =~= le32(hi));
    vstd::arithmetic::div_mod::lemma_fundamental_div_mod(x as int, 0x1_0000_0000);
}

/// Eight bytes read least significant first stay under 2^64, and writing the
/// number read gives the eight bytes again.
pub proof fn lemma_from_le64_bytes(s: Seq<u8>)
    requires
        s.len() == 8,
    ensures
        0 <= from_le64(s) <= u64::MAX,
        le64(from_le64(s) as u64) == s,
{
    let lo = s.subrange(0, 4);
    let hi = s.subrange(4, 8);
    lemma_from_le32_bytes(lo);
    lemma_from_le32_bytes(hi);
    let l = from_le32(lo);
    let h = from_le32(hi);
    let x = from_le64(s);
    assert(x == h * 0x1_0000_0000 + l);
    vstd::arithmetic::div_mod::lemma_fundamental_div_mod_converse(x, 0x1_0000_0000, h, l);
    assert(le64(x as u64) =~= lo + hi);
    assert(lo + hi =~= s);
}

/// Appends the four bytes of `x`, most significant first.
pub fn push_be32(out: &mut Vec<u8>, x: u32)
    ensures
        final(out)@ == old(out)@ + be32(x),
{
    out.push(((x / 0x100_0000) % 256) as u8);
    out.push(((x / 0x1_0000) % 256) as u8);
    out.push(((x / 0x100) % 256) as u8);
    out.push((x % 256) as u8);
    assert(out@ =~= old(out)@ + be32(x));
}

/// Appends the four bytes of `x`, least significant first.
pub fn push_le32(out: &mut Vec<u8>, x: u32)
    ensures
        final(out)@ == old(out)@ + le32(x),
{
    out.push((x % 256) as u8);
    out.push(((x / 0x100) % 256) as u8);
    out.push(((x / 0x1_0000) % 256) as u8);
    out.push(((x / 0x100_0000) % 256) as u8);
    assert(out@ =~= old(out)@ + le32(x));
}

/// Appends the eight bytes of `x`, least significant first.
pub fn push_le64(out: &mut Vec<u8>, x: u64)
    ensures
        final(out)@ == old(out)@ + le64(x),
{
    let ghost before = out@;
    push_le32(out, (x % 0x1_0000_0000) as u32);
    push_le32(out, (x / 0x1_0000_0000) as u32);
    assert(out@ =~= before + le64(x));
}

/// The number whose bytes, most significant first, stand at `at..at + 4`.
pub fn read_be32(data: &[u8], at: usize) -> (x: u32)
    requires
        at + 4 <= data@.len(),
    ensures
        x == from_be32(data@.subrange(at as int, at + 4)),
{
    let b0: u32 = data[at] as u32;
    let b1: u32 = data[at + 1] as u32;
    let b2: u32 = data[at + 2] as u32;
    let b3: u32 = data[at + 3] as u32;
    b0 * 0x100_0000 + b1 * 0x1_0000 + b2 * 0x100 + b3
}

/// The number whose bytes, least significant first, stand at `at..at + 4`.
pub fn read_le32(data: &[u8], at: usize) -> (x: u32)
    requires
        at + 4 <= data@.len(),
    ensures
        x == from_le32(data@.subrange(at as int, at + 4)),
{
    let b0: u32 = data[at] as u32;
    let b1: u32 = data[at + 1] as u32;
    let b2: u32 = data[at + 2] as u32;
    let b3: u32 = data[at + 3] as u32;
    b0 + b1 * 0x100 + b2 * 0x1_0000 + b3 * 0x100_0000
}

/// The number whose bytes, least significant first, stand at `at..at + 8`.
pub fn read_le64(data: &[u8], at: usize) -> (x: u64)
    requires
        at + 8 <= data@.len(),
    ensures
        x == from_le64(data@.subrange(at as int, at + 8)),
{
    let n: usize = data.len();
    assert(at + 8 <= n);
    let lo: u64 = read_le32(data, at) as u64;
    let hi: u64 = read_le32(data, at + 4) as u64;
    proof {
        let s = data@.subrange(at as int, at + 8);
        assert(s.subrange(0, 4) =~= data@.subrange(at as int, at + 4));
        assert(s.subrange(4, 8) =~= data@.subrange(at + 4, at + 8));
    }
    lo + hi * 0x1_0000_0000
}

} // verus!
