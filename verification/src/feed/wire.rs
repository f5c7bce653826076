//! Fixed-width integers in byte sequences: big-endian `u16`/`u64`, little-endian `u32`/`u64`.
use vstd::prelude::*;

verus! {

pub open spec fn be16(hi: u8, lo: u8) -> u16 {
    ((hi as u16) << 8u16) | (lo as u16)
}

/// Big-endian `u16` at `s[i..i + 2]`.
pub open spec fn be16_at(s: Seq<u8>, i: int) -> u16 {
    be16(s[i], s[i + 1])
}

pub open spec fn le32(b0: u8, b1: u8, b2: u8, b3: u8) -> u32 {
    (b0 as u32) | ((b1 as u32) << 8u32) | ((b2 as u32) << 16u32) | ((b3 as u32) << 24u32)
}

/// Little-endian `u32` at `s[i..i + 4]`.
pub open spec fn le32_at(s: Seq<u8>, i: int) -> u32 {
    le32(s[i], s[i + 1], s[i + 2], s[i + 3])
}

pub open spec fn le64(b0: u8, b1: u8, b2: u8, b3: u8, b4: u8, b5: u8, b6: u8, b7: u8) -> u64 {
    (b0 as u64) | ((b1 as u64) << 8u64) | ((b2 as u64) << 16u64) | ((b3 as u64) << 24u64) | ((b4 as u64)
        << 32u64) | ((b5 as u64) << 40u64) | ((b6 as u64) << 48u64) | ((b7 as u64) << 56u64)
}

/// Little-endian `u64` at `s[i..i + 8]`.
pub open spec fn le64_at(s: Seq<u8>, i: int) -> u64 {
    le64(s[i], s[i + 1], s[i + 2], s[i + 3], s[i + 4], s[i + 5], s[i + 6], s[i + 7])
}

/// Big-endian `u64` at `s[i..i + 8]`.
pub open spec fn be64_at(s: Seq<u8>, i: int) -> u64 {
    le64(s[i + 7], s[i + 6], s[i + 5], s[i + 4], s[i + 3], s[i + 2], s[i + 1], s[i])
}

/// Bytes of `x`, big-endian.
pub open spec fn be16_bytes(x: u16) -> Seq<u8> {
    seq![(x >> 8u16) as u8, x as u8]
}

/// Bytes of `x`, little-endian.
pub open spec fn le32_bytes(x: u32) -> Seq<u8> {
    seq![x as u8, (x >> 8u32) as u8, (x >> 16u32) as u8, (x >> 24u32) as u8]
}

/// Bytes of `x`, little-endian.
pub open spec fn le64_bytes(x: u64) -> Seq<u8> {
    seq![
        x as u8,
        (x >> 8u64) as u8,
        (x >> 16u64) as u8,
        (x >> 24u64) as u8,
        (x >> 32u64) as u8,
        (x >> 40u64) as u8,
        (x >> 48u64) as u8,
        (x >> 56u64) as u8,
    ]
}

/// Bytes of `x`, big-endian.
pub open spec fn be64_bytes(x: u64) -> Seq<u8> {
    le64_bytes(x).reverse()
}

proof fn lemma_be16_bits(x: u16)
    by (bit_vector)
    ensures
        (((((x >> 8u16) as u8) as u16) << 8u16) | ((x as u8) as u16)) == x,
{
}

proof fn lemma_le32_bits(x: u32)
    by (bit_vector)
    ensures
        (((x as u8) as u32) | ((((x >> 8u32) as u8) as u32) << 8u32) | ((((x >> 16u32) as u8) as u32) << 16u32)
            | ((((x >> 24u32) as u8) as u32) << 24u32)) == x,
{
}

proof fn lemma_le64_bits(x: u64)
    by (bit_vector)
    ensures
        (((x as u8) as u64) | ((((x >> 8u64) as u8) as u64) << 8u64) | ((((x >> 16u64) as u8) as u64) << 16u64)
            | ((((x >> 24u64) as u8) as u64) << 24u64) | ((((x >> 32u64) as u8) as u64) << 32u64) | ((((x
            >> 40u64) as u8) as u64) << 40u64) | ((((x >> 48u64) as u8) as u64) << 48u64) | ((((x >> 56u64)
            as u8) as u64) << 56u64)) == x,
{
}

/// Reading back the bytes of `x` gives `x`.
pub proof fn lemma_be16_roundtrip(x: u16)
    ensures
        be16_at(be16_bytes(x), 0) == x,
{
    lemma_be16_bits(x);
}

/// Reading back the bytes of `x` gives `x`.
pub proof fn lemma_le32_roundtrip(x: u32)
    ensures
        le32_at(le32_bytes(x), 0) == x,
{
    lemma_le32_bits(x);
}

/// Reading back the bytes of `x` gives `x`.
pub proof fn lemma_le64_roundtrip(x: u64)
    ensures
        le64_at(le64_bytes(x), 0) == x,
{
    lemma_le64_bits(x);
}

/// Reading back the bytes of `x` gives `x`.
pub proof fn lemma_be64_roundtrip(x: u64)
    ensures
        be64_at(be64_bytes(x), 0) == x,
{
    lemma_le64_bits(x);
    let b = le64_bytes(x);
    assert(be64_bytes(x)[7] == b[0]);
    assert(be64_bytes(x)[6] == b[1]);
    assert(be64_bytes(x)[5] == b[2]);
    assert(be64_bytes(x)[4] == b[3]);
    assert(be64_bytes(x)[3] == b[4]);
    assert(be64_bytes(x)[2] == b[5]);
    assert(be64_bytes(x)[1] == b[6]);
    assert(be64_bytes(x)[0] == b[7]);
}

/// Big-endian `u16` at `b[i..i + 2]`.
pub fn read_be16(b: &[u8], i: usize) -> (r: u16)
    requires
        i + 2 <= b@.len(),
    ensures
        r == be16_at(b@, i as int),
{
    ((b[i] as u16) << 8u16) | (b[i + 1] as u16)
}

/// Little-endian `u32` at `b[i..i + 4]`.
pub fn read_le32(b: &[u8], i: usize) -> (r: u32)
    requires
        i + 4 <= b@.len(),
    ensures
        r == le32_at(b@, i as int),
{
    (b[i] as u32) | ((b[i + 1] as u32) << 8u32) | ((b[i + 2] as u32) << 16u32) | ((b[i + 3] as u32) << 24u32)
}

/// Little-endian `u64` at `b[i..i + 8]`.
pub fn read_le64(b: &[u8], i: usize) -> (r: u64)
    requires
        i + 8 <= b@.len(),
    ensures
        r == le64_at(b@, i as int),
{
    (b[i] as u64) | ((b[i + 1] as u64) << 8u64) | ((b[i + 2] as u64) << 16u64) | ((b[i + 3] as u64) << 24u64)
        | ((b[i + 4] as u64) << 32u64) | ((b[i + 5] as u64) << 40u64) | ((b[i + 6] as u64) << 48u64) | ((b[i
        + 7] as u64) << 56u64)
}

/// Big-endian `u64` at `b[i..i + 8]`.
pub fn read_be64(b: &[u8], i: usize) -> (r: u64)
    requires
        i + 8 <= b@.len(),
    ensures
        r == be64_at(b@, i as int),
{
    let _n = b.len();
    (b[i + 7] as u64) | ((b[i + 6] as u64) << 8u64) | ((b[i + 5] as u64) << 16u64) | ((b[i + 4] as u64) << 24u64)
        | ((b[i + 3] as u64) << 32u64) | ((b[i + 2] as u64) << 40u64) | ((b[i + 1] as u64) << 48u64) | ((b[i]
        as u64) << 56u64)
}

/// Append the big-endian bytes of `x`.
pub fn push_be16(out: &mut Vec<u8>, x: u16)
    ensures
        final(out)@ == old(out)@ + be16_bytes(x),
{
    out.push((x >> 8u16) as u8);
    out.push(x as u8);
    assert(final(out)@ =~= old(out)@ + be16_bytes(x)) by {
        assert(out@ =~= old(out)@ + be16_bytes(x));
    }
}

/// Append the little-endian bytes of `x`.
pub fn push_le32(out: &mut Vec<u8>, x: u32)
    ensures
        final(out)@ == old(out)@ + le32_bytes(x),
{
    out.push(x as u8);
    out.push((x >> 8u32) as u8);
    out.push((x >> 16u32) as u8);
    out.push((x >> 24u32) as u8);
    assert(out@ =~= old(out)@ + le32_bytes(x));
}

/// Append the little-endian bytes of `x`.
pub fn push_le64(out: &mut Vec<u8>, x: u64)
    ensures
        final(out)@ == old(out)@ + le64_bytes(x),
{
    out.push(x as u8);
    out.push((x >> 8u64) as u8);
    out.push((x >> 16u64) as u8);
    out.push((x >> 24u64) as u8);
    out.push((x >> 32u64) as u8);
    out.push((x >> 40u64) as u8);
    out.push((x >> 48u64) as u8);
    out.push((x >> 56u64) as u8);
    assert(out@ =~= old(out)@ + le64_bytes(x));
}

/// Append the big-endian bytes of `x`.
pub fn push_be64(out: &mut Vec<u8>, x: u64)
    ensures
        final(out)@ == old(out)@ + be64_bytes(x),
{
    out.push((x >> 56u64) as u8);
    out.push((x >> 48u64) as u8);
    out.push((x >> 40u64) as u8);
    out.push((x >> 32u64) as u8);
    out.push((x >> 24u64) as u8);
    out.push((x >> 16u64) as u8);
    out.push((x >> 8u64) as u8);
    out.push(x as u8);
    assert(out@ =~= old(out)@ + be64_bytes(x));
}

/// Append all of `src`.
pub fn push_all(out: &mut Vec<u8>, src: &[u8])
    ensures
        final(out)@ == old(out)@ + src@,
{
    let mut i: usize = 0;
    while i < src.len()
        invariant
            i <= src@.len(),
            out@ == old(out)@ + src@.take(i as int),
        decreases src@.len() - i,
    {
        out.push(src[i]);
        i = i + 1;
        assert(out@ =~= old(out)@ + src@.take(i as int));
    }
    assert(src@.take(src@.len() as int) =~= src@);
}

} // verus!
