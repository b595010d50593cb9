//! A 128-bit block as an integer and as sixteen bytes.
//!
//! The cipher is defined on byte strings; callers hold blocks as `u128`. The
//! byte string of a block lists its bytes from the most significant to the
//! least, which is the order in which published test vectors are written.
//! A buffer, on the other hand, holds each block with its least significant
//! byte first.
use vstd::prelude::*;

verus! {

/// Byte `i` of `x`, byte 0 being the least significant.
pub open spec fn le_byte(x: u128, i: int) -> u8 {
    ((x >> ((8 * i) as u128)) & 0xff) as u8
}

/// The sixteen bytes of `x`, most significant first.
pub open spec fn block_bytes(x: u128) -> Seq<u8> {
    Seq::new(16, |i: int| le_byte(x, 15 - i))
}

/// The block whose bytes, most significant first, are `s[0] .. s[15]`.
pub open spec fn block_of(s: Seq<u8>) -> u128 {
    (s[0] as u128) << 120 | (s[1] as u128) << 112 | (s[2] as u128) << 104 | (s[3] as u128) << 96
        | (s[4] as u128) << 88 | (s[5] as u128) << 80 | (s[6] as u128) << 72 | (s[7] as u128) << 64
        | (s[8] as u128) << 56 | (s[9] as u128) << 48 | (s[10] as u128) << 40 | (s[11] as u128)
        << 32 | (s[12] as u128) << 24 | (s[13] as u128) << 16 | (s[14] as u128) << 8 | (
    s[15] as u128)
}

/// The block whose bytes, least significant first, are `s[0] .. s[15]`.
pub open spec fn le_value(s: Seq<u8>) -> u128 {
    block_of(s.reverse())
}

/// A block is the block of its bytes.
pub proof fn lemma_block_of_bytes(x: u128)
    ensures
        block_of(block_bytes(x)) == x,
{
    assert((((x >> 120) & 0xff) as u8 as u128) << 120 | (((x >> 112) & 0xff) as u8 as u128) << 112
        | (((x >> 104) & 0xff) as u8 as u128) << 104 | (((x >> 96) & 0xff) as u8 as u128) << 96 | (((
    x >> 88) & 0xff) as u8 as u128) << 88 | (((x >> 80) & 0xff) as u8 as u128) << 80 | (((x >> 72)
        & 0xff) as u8 as u128) << 72 | (((x >> 64) & 0xff) as u8 as u128) << 64 | (((x >> 56)
        & 0xff) as u8 as u128) << 56 | (((x >> 48) & 0xff) as u8 as u128) << 48 | (((x >> 40)
        & 0xff) as u8 as u128) << 40 | (((x >> 32) & 0xff) as u8 as u128) << 32 | (((x >> 24)
        & 0xff) as u8 as u128) << 24 | (((x >> 16) & 0xff) as u8 as u128) << 16 | (((x >> 8)
        & 0xff) as u8 as u128) << 8 | (((x >> 0) & 0xff) as u8 as u128) == x) by (bit_vector);
}

/// The bytes of the block of sixteen bytes are those bytes.
pub proof fn lemma_bytes_of_block(s: Seq<u8>)
    requires
        s.len() == 16,
    ensures
        block_bytes(block_of(s)) == s,
{
    let x = block_of(s);
    let (b0, b1, b2, b3) = (s[0], s[1], s[2], s[3]);
    let (b4, b5, b6, b7) = (s[4], s[5], s[6], s[7]);
    let (b8, b9, b10, b11) = (s[8], s[9], s[10], s[11]);
    let (b12, b13, b14, b15) = (s[12], s[13], s[14], s[15]);
    assert({
        &&& ((x >> 120) & 0xff) as u8 == b0
        &&& ((x >> 112) & 0xff) as u8 == b1
        &&& ((x >> 104) & 0xff) as u8 == b2
        &&& ((x >> 96) & 0xff) as u8 == b3
        &&& ((x >> 88) & 0xff) as u8 == b4
        &&& ((x >> 80) & 0xff) as u8 == b5
        &&& ((x >> 72) & 0xff) as u8 == b6
        &&& ((x >> 64) & 0xff) as u8 == b7
        &&& ((x >> 56) & 0xff) as u8 == b8
        &&& ((x >> 48) & 0xff) as u8 == b9
        &&& ((x >> 40) & 0xff) as u8 == b10
        &&& ((x >> 32) & 0xff) as u8 == b11
        &&& ((x >> 24) & 0xff) as u8 == b12
        &&& ((x >> 16) & 0xff) as u8 == b13
        &&& ((x >> 8) & 0xff) as u8 == b14
        &&& ((x >> 0) & 0xff) as u8 == b15
    }) by (bit_vector)
        requires
            x == (b0 as u128) << 120 | (b1 as u128) << 112 | (b2 as u128) << 104 | (b3 as u128)
                << 96 | (b4 as u128) << 88 | (b5 as u128) << 80 | (b6 as u128) << 72 | (b7 as u128)
                << 64 | (b8 as u128) << 56 | (b9 as u128) << 48 | (b10 as u128) << 40 | (
            b11 as u128) << 32 | (b12 as u128) << 24 | (b13 as u128) << 16 | (b14 as u128) << 8 | (
            b15 as u128),
    ;
    assert(block_bytes(x) =~= s);
}

/// Splits a block into its bytes, most significant first.
pub fn block_to_bytes(x: u128) -> (b: [u8; 16])
    ensures
        b@ == block_bytes(x),
{
    let b: [u8; 16] = [
        ((x >> 120) & 0xff) as u8,
        ((x >> 112) & 0xff) as u8,
        ((x >> 104) & 0xff) as u8,
        ((x >> 96) & 0xff) as u8,
        ((x >> 88) & 0xff) as u8,
        ((x >> 80) & 0xff) as u8,
        ((x >> 72) & 0xff) as u8,
        ((x >> 64) & 0xff) as u8,
        ((x >> 56) & 0xff) as u8,
        ((x >> 48) & 0xff) as u8,
        ((x >> 40) & 0xff) as u8,
        ((x >> 32) & 0xff) as u8,
        ((x >> 24) & 0xff) as u8,
        ((x >> 16) & 0xff) as u8,
        ((x >> 8) & 0xff) as u8,
        ((x >> 0) & 0xff) as u8,
    ];
    assert(b@ =~= block_bytes(x));
    b
}

/// Joins sixteen bytes, most significant first, into a block.
pub fn bytes_to_block(b: &[u8; 16]) -> (x: u128)
    ensures
        x == block_of(b@),
{
    (b[0] as u128) << 120 | (b[1] as u128) << 112 | (b[2] as u128) << 104 | (b[3] as u128) << 96 | (
    b[4] as u128) << 88 | (b[5] as u128) << 80 | (b[6] as u128) << 72 | (b[7] as u128) << 64 | (
    b[8] as u128) << 56 | (b[9] as u128) << 48 | (b[10] as u128) << 40 | (b[11] as u128) << 32 | (
    b[12] as u128) << 24 | (b[13] as u128) << 16 | (b[14] as u128) << 8 | (b[15] as u128)
}

/// Reads a block from sixteen bytes, least significant first.
pub fn le_bytes_to_block(s: &[u8]) -> (x: u128)
    requires
        s@.len() == 16,
    ensures
        x == le_value(s@),
{
    let b: [u8; 16] = [
        s[15],
        s[14],
        s[13],
        s[12],
        s[11],
        s[10],
        s[9],
        s[8],
        s[7],
        s[6],
        s[5],
        s[4],
        s[3],
        s[2],
        s[1],
        s[0],
    ];
    assert(b@ =~= s@.reverse());
    bytes_to_block(&b)
}

} // verus!
