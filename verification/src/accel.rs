//! The arithmetic of the accelerated backend.
//!
//! The accelerated backend drives the processor's AES instructions and
//! stands outside this library. The instructions hold a block in a 128-bit
//! register with the first byte of its byte string in the lowest lane, so a
//! block enters and leaves a register with its bytes reversed. One
//! instruction assists the key expansion: its result holds, in the top 32
//! bits, the word that starts the next round key. What is done with that
//! result is plain arithmetic, and is here.
use crate::block::{
    block_bytes, block_of, block_to_bytes, bytes_to_block, le_byte, lemma_block_of_bytes,
    lemma_bytes_of_block,
};
use crate::rijndael::{
    assist_word, cascade, key_schedule, lemma_cascade_bytes, lemma_round_key_step, rcon, round_key,
};
use vstd::prelude::*;

verus! {

/// The sixteen bytes of a register, lowest lane first.
pub open spec fn register_bytes(x: u128) -> Seq<u8> {
    Seq::new(16, |i: int| le_byte(x, i))
}

/// A block with its bytes in the opposite order: the image of a block in a
/// register, and the block of an image.
pub open spec fn reversed(x: u128) -> u128 {
    block_of(block_bytes(x).reverse())
}

/// Reading a value lowest lane first is reading its reversal most
/// significant byte first, and reversing twice changes nothing.
pub proof fn lemma_reversed(x: u128)
    ensures
        register_bytes(reversed(x)) == block_bytes(x),
        block_bytes(reversed(x)) == register_bytes(x),
        reversed(reversed(x)) == x,
{
    let s = block_bytes(x);
    lemma_bytes_of_block(s.reverse());
    assert(register_bytes(x) =~= s.reverse());
    assert(block_bytes(reversed(x)) =~= register_bytes(x));
    assert(register_bytes(reversed(x)) =~= block_bytes(reversed(x)).reverse());
    assert(s.reverse().reverse() =~= s);
    lemma_block_of_bytes(x);
}

/// Reverses the bytes of a block.
pub fn reverse_bytes(x: u128) -> (r: u128)
    ensures
        r == reversed(x),
{
    let b: [u8; 16] = block_to_bytes(x);
    let flipped: [u8; 16] = [
        b[15],
        b[14],
        b[13],
        b[12],
        b[11],
        b[10],
        b[9],
        b[8],
        b[7],
        b[6],
        b[5],
        b[4],
        b[3],
        b[2],
        b[1],
        b[0],
    ];
    assert(flipped@ =~= block_bytes(x).reverse());
    bytes_to_block(&flipped)
}

/// The top 32 bits of a register in each of its four lanes.
pub open spec fn broadcast_top(x: u128) -> u128 {
    let w = x >> 96;
    w | (w << 32) | (w << 64) | (w << 96)
}

/// What the key expansion makes of a round key in a register (`xmm1`) and
/// of the assisting instruction's result for it (`xmm2`): three times the
/// register takes itself, shifted up by one lane; then it takes the top
/// lane of the result, in every lane.
pub open spec fn assisted(xmm1: u128, xmm2: u128) -> u128 {
    let a = xmm1 ^ (xmm1 << 32);
    let b = a ^ (a << 32);
    let c = b ^ (b << 32);
    c ^ broadcast_top(xmm2)
}

/// The bytes of `assisted`, lowest lane first: the lowest lane takes the top
/// lane of `xmm2`, and each further lane takes the lane below it.
proof fn lemma_assisted_bytes(xmm1: u128, xmm2: u128)
    ensures
        forall|j: int|
            0 <= j < 4 ==> #[trigger] register_bytes(assisted(xmm1, xmm2))[j] == register_bytes(
                xmm1,
            )[j] ^ register_bytes(xmm2)[12 + j],
        forall|j: int|
            4 <= j < 16 ==> #[trigger] register_bytes(assisted(xmm1, xmm2))[j] == register_bytes(
                xmm1,
            )[j] ^ register_bytes(assisted(xmm1, xmm2))[j - 4],
{
    let n = assisted(xmm1, xmm2);
    assert forall|j: int| 0 <= j < 4 implies #[trigger] register_bytes(n)[j] == register_bytes(
        xmm1,
    )[j] ^ register_bytes(xmm2)[12 + j] by {
        let s = (8 * j) as u128;
        let up = (96 + s) as u128;
        assert(((n >> s) & 0xff) as u8 == (((xmm1 >> s) & 0xff) as u8) ^ (((xmm2 >> up)
            & 0xff) as u8)) by (bit_vector)
            requires
                n == assisted(xmm1, xmm2),
                s == 0 || s == 8 || s == 16 || s == 24,
                up == 96 + s,
        ;
    }
    assert forall|j: int| 4 <= j < 16 implies #[trigger] register_bytes(n)[j] == register_bytes(
        xmm1,
    )[j] ^ register_bytes(n)[j - 4] by {
        let s = (8 * j) as u128;
        let down = (s - 32) as u128;
        assert(((n >> s) & 0xff) as u8 == (((xmm1 >> s) & 0xff) as u8) ^ (((n >> down)
            & 0xff) as u8)) by (bit_vector)
            requires
                n == assisted(xmm1, xmm2),
                32 <= s < 128,
                s % 8 == 0,
                down == s - 32,
        ;
    }
}

/// Makes the next round key, in a register, of a round key in a register
/// (`xmm1`) and of the assisting instruction's result for it (`xmm2`). Read
/// lowest lane first, the result is the cascade of `xmm1` from the top lane
/// of `xmm2`.
pub fn key_expansion_assist(xmm1: u128, xmm2: u128) -> (next: u128)
    ensures
        next == assisted(xmm1, xmm2),
        register_bytes(next) == cascade(
            register_bytes(xmm1),
            register_bytes(xmm2).subrange(12, 16),
        ),
{
    let a: u128 = xmm1 ^ (xmm1 << 32);
    let b: u128 = a ^ (a << 32);
    let c: u128 = b ^ (b << 32);
    let w: u128 = xmm2 >> 96;
    let next: u128 = c ^ (w | (w << 32) | (w << 64) | (w << 96));
    proof {
        lemma_assisted_cascade(xmm1, xmm2);
    }
    next
}

/// Read lowest lane first, `assisted` is the cascade of `xmm1` from the top
/// lane of `xmm2`.
pub proof fn lemma_assisted_cascade(xmm1: u128, xmm2: u128)
    ensures
        register_bytes(assisted(xmm1, xmm2)) == cascade(
            register_bytes(xmm1),
            register_bytes(xmm2).subrange(12, 16),
        ),
{
    let prev = register_bytes(xmm1);
    let t = register_bytes(xmm2).subrange(12, 16);
    let next = register_bytes(assisted(xmm1, xmm2));
    let want = cascade(prev, t);
    lemma_assisted_bytes(xmm1, xmm2);
    lemma_cascade_bytes(prev, t);
    assert forall|j: int| 0 <= j < 16 implies next[j] == want[j] by {
        lemma_bytes_agree(prev, t, next, want, j);
    }
    assert(next =~= want);
}

/// Two byte strings that both start from `t` and both take, in each further
/// lane, the lane below, agree.
proof fn lemma_bytes_agree(prev: Seq<u8>, t: Seq<u8>, a: Seq<u8>, b: Seq<u8>, j: int)
    requires
        prev.len() == 16,
        t.len() == 4,
        a.len() == 16,
        b.len() == 16,
        0 <= j < 16,
        forall|k: int| 0 <= k < 4 ==> #[trigger] a[k] == prev[k] ^ t[k],
        forall|k: int| 4 <= k < 16 ==> #[trigger] a[k] == prev[k] ^ a[k - 4],
        forall|k: int| 0 <= k < 4 ==> #[trigger] b[k] == prev[k] ^ t[k],
        forall|k: int| 4 <= k < 16 ==> #[trigger] b[k] == prev[k] ^ b[k - 4],
    ensures
        a[j] == b[j],
    decreases j,
{
    if j >= 4 {
        lemma_bytes_agree(prev, t, a, b, j - 4);
    }
}

/// The accelerated key expansion takes the steps of the schedule: where
/// `xmm2` holds in its top lane the word that starts round key `r`, which is
/// what the assisting instruction returns for round key `r - 1` and the
/// round constant of `r`, the cascade makes round key `r` of round key
/// `r - 1`, both taken through a register.
pub proof fn lemma_assisted_round_key(key: u128, r: int, xmm2: u128)
    requires
        1 <= r <= 10,
        register_bytes(xmm2).subrange(12, 16) == assist_word(
            block_bytes(key_schedule(key)[r - 1]),
            rcon(r),
        ),
    ensures
        reversed(assisted(reversed(key_schedule(key)[r - 1]), xmm2)) == key_schedule(key)[r],
{
    reveal(key_schedule);
    let kb = block_bytes(key);
    let before = key_schedule(key)[r - 1];
    let xmm1 = reversed(before);
    lemma_round_key_step(kb, r - 1);
    lemma_round_key_step(kb, r);
    lemma_bytes_of_block(round_key(kb, r - 1));
    assert(block_bytes(before) == round_key(kb, r - 1));
    lemma_reversed(before);
    lemma_assisted_cascade(xmm1, xmm2);
    let next = assisted(xmm1, xmm2);
    assert(register_bytes(next) == round_key(kb, r));
    lemma_reversed(next);
    assert(block_bytes(reversed(next)) == round_key(kb, r));
    lemma_block_of_bytes(reversed(next));
}

} // verus!
