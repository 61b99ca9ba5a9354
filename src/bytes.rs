//! Little- and big-endian integers read from a byte buffer.

use vstd::prelude::*;

verus! {

/// The 16-bit little-endian integer at `p`.
pub open spec fn u16_le(b: Seq<u8>, p: int) -> u16 {
    (b[p] as u16) | ((b[p + 1] as u16) << 8u16)
}

/// The 32-bit little-endian integer at `p`.
pub open spec fn u32_le(b: Seq<u8>, p: int) -> u32 {
    (b[p] as u32) | ((b[p + 1] as u32) << 8u32) | ((b[p + 2] as u32) << 16u32) | ((b[p
        + 3] as u32) << 24u32)
}

/// The 48-bit big-endian integer at `p`.
pub open spec fn u48_be(b: Seq<u8>, p: int) -> u64 {
    ((b[p] as u64) << 40u64) | ((b[p + 1] as u64) << 32u64) | ((b[p + 2] as u64) << 24u64) | ((b[p
        + 3] as u64) << 16u64) | ((b[p + 4] as u64) << 8u64) | (b[p + 5] as u64)
}

/// Reads a 16-bit little-endian integer.
pub fn read_u16_le(b: &[u8], p: usize) -> (r: u16)
    requires
        p + 2 <= b@.len(),
    ensures
        r == u16_le(b@, p as int),
{
    (b[p] as u16) | ((b[p + 1] as u16) << 8u16)
}

/// Reads a 32-bit little-endian integer.
pub fn read_u32_le(b: &[u8], p: usize) -> (r: u32)
    requires
        p + 4 <= b@.len(),
    ensures
        r == u32_le(b@, p as int),
{
    (b[p] as u32) | ((b[p + 1] as u32) << 8u32) | ((b[p + 2] as u32) << 16u32) | ((b[p
        + 3] as u32) << 24u32)
}

/// Reads a 48-bit big-endian integer.
pub fn read_u48_be(b: &[u8], p: usize) -> (r: u64)
    requires
        p + 6 <= b@.len(),
    ensures
        r == u48_be(b@, p as int),
{
    ((b[p] as u64) << 40u64) | ((b[p + 1] as u64) << 32u64) | ((b[p + 2] as u64) << 24u64) | ((b[p
        + 3] as u64) << 16u64) | ((b[p + 4] as u64) << 8u64) | (b[p + 5] as u64)
}

/// The four little-endian bytes of a 32-bit integer.
pub open spec fn le32_bytes(x: u32) -> Seq<u8> {
    seq![(x & 0xff) as u8, ((x >> 8u32) & 0xff) as u8, ((x >> 16u32) & 0xff) as u8, ((x
        >> 24u32) & 0xff) as u8]
}

/// The six big-endian bytes of a 48-bit integer.
pub open spec fn be48_bytes(x: u64) -> Seq<u8> {
    seq![((x >> 40u64) & 0xff) as u8, ((x >> 32u64) & 0xff) as u8, ((x >> 24u64) & 0xff) as u8,
        ((x >> 16u64) & 0xff) as u8, ((x >> 8u64) & 0xff) as u8, (x & 0xff) as u8]
}

pub proof fn lemma_u32_round_trip(x: u32, b: Seq<u8>, p: int)
    requires
        0 <= p,
        p + 4 <= b.len(),
        b.subrange(p, p + 4) == le32_bytes(x),
    ensures
        u32_le(b, p) == x,
{
    assert(b[p] == b.subrange(p, p + 4)[0]);
    assert(b[p + 1] == b.subrange(p, p + 4)[1]);
    assert(b[p + 2] == b.subrange(p, p + 4)[2]);
    assert(b[p + 3] == b.subrange(p, p + 4)[3]);
    let b0 = (x & 0xff) as u8;
    let b1 = ((x >> 8u32) & 0xff) as u8;
    let b2 = ((x >> 16u32) & 0xff) as u8;
    let b3 = ((x >> 24u32) & 0xff) as u8;
    assert((b0 as u32) | ((b1 as u32) << 8u32) | ((b2 as u32) << 16u32) | ((b3 as u32) << 24u32)
        == x) by (bit_vector)
        requires
            b0 == (x & 0xff) as u8,
            b1 == ((x >> 8u32) & 0xff) as u8,
            b2 == ((x >> 16u32) & 0xff) as u8,
            b3 == ((x >> 24u32) & 0xff) as u8,
    ;
}

pub proof fn lemma_u48_round_trip(x: u64, b: Seq<u8>, p: int)
    requires
        x < 0x1_0000_0000_0000,
        0 <= p,
        p + 6 <= b.len(),
        b.subrange(p, p + 6) == be48_bytes(x),
    ensures
        u48_be(b, p) == x,
{
    let s = b.subrange(p, p + 6);
    assert(b[p] == s[0] && b[p + 1] == s[1] && b[p + 2] == s[2]);
    assert(b[p + 3] == s[3] && b[p + 4] == s[4] && b[p + 5] == s[5]);
    let b0 = ((x >> 40u64) & 0xff) as u8;
    let b1 = ((x >> 32u64) & 0xff) as u8;
    let b2 = ((x >> 24u64) & 0xff) as u8;
    let b3 = ((x >> 16u64) & 0xff) as u8;
    let b4 = ((x >> 8u64) & 0xff) as u8;
    let b5 = (x & 0xff) as u8;
    assert(((b0 as u64) << 40u64) | ((b1 as u64) << 32u64) | ((b2 as u64) << 24u64) | ((b3
        as u64) << 16u64) | ((b4 as u64) << 8u64) | (b5 as u64) == x) by (bit_vector)
        requires
            x < 0x1_0000_0000_0000,
            b0 == ((x >> 40u64) & 0xff) as u8,
            b1 == ((x >> 32u64) & 0xff) as u8,
            b2 == ((x >> 24u64) & 0xff) as u8,
            b3 == ((x >> 16u64) & 0xff) as u8,
            b4 == ((x >> 8u64) & 0xff) as u8,
            b5 == (x & 0xff) as u8,
    ;
}

} // verus!
