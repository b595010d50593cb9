//! AES-128 as mathematics: the cipher on a state of sixteen bytes, and the
//! expansion of a key into eleven round keys, word by word and, what is the
//! same, round key by round key.
//!
//! A state is a sequence of sixteen bytes read as a 4 x 4 matrix, column by
//! column: the entry in row `r` and column `c` is byte `r + 4 * c`.
use crate::block::{block_bytes, block_of, lemma_block_of_bytes};
use crate::gf256::{gf_mul, xtime};
use crate::sbox::sub_byte;
use vstd::prelude::*;

verus! {

/// The number of round keys.
pub const ROUND_KEYS: usize = 11;

/// Each byte of the state replaced by its substitution.
pub open spec fn sub_bytes(s: Seq<u8>) -> Seq<u8> {
    Seq::new(16, |i: int| sub_byte(s[i]))
}

/// Row `r` of the state rotated left by `r` columns.
pub open spec fn shift_rows(s: Seq<u8>) -> Seq<u8> {
    Seq::new(16, |i: int| s[i % 4 + 4 * ((i / 4 + i % 4) % 4)])
}

/// The entry in row `r` and column `k` of the mixing matrix: the circulant
/// matrix whose first row is `2 3 1 1`.
pub open spec fn mix_coefficient(r: int, k: int) -> u8 {
    let d = (k - r + 4) % 4;
    if d == 0 {
        2
    } else if d == 1 {
        3
    } else {
        1
    }
}

/// The entry in row `r` of the product of the mixing matrix and column `c`
/// of the state.
#[verifier::opaque]
pub open spec fn mix_entry(s: Seq<u8>, r: int, c: int) -> u8 {
    gf_mul(s[4 * c], mix_coefficient(r, 0)) ^ gf_mul(s[4 * c + 1], mix_coefficient(r, 1)) ^ gf_mul(
        s[4 * c + 2],
        mix_coefficient(r, 2),
    ) ^ gf_mul(s[4 * c + 3], mix_coefficient(r, 3))
}

/// Each column of the state multiplied by the mixing matrix.
pub open spec fn mix_columns(s: Seq<u8>) -> Seq<u8> {
    Seq::new(16, |i: int| mix_entry(s, i % 4, i / 4))
}

/// The round key added to the state.
pub open spec fn add_round_key(s: Seq<u8>, k: Seq<u8>) -> Seq<u8> {
    Seq::new(16, |i: int| s[i] ^ k[i])
}

/// One full round.
pub open spec fn round(s: Seq<u8>, k: Seq<u8>) -> Seq<u8> {
    add_round_key(mix_columns(shift_rows(sub_bytes(s))), k)
}

/// The last round, which mixes no columns.
pub open spec fn final_round(s: Seq<u8>, k: Seq<u8>) -> Seq<u8> {
    add_round_key(shift_rows(sub_bytes(s)), k)
}

/// The state after the initial key addition and `n` full rounds.
pub open spec fn rounds(input: Seq<u8>, keys: Seq<Seq<u8>>, n: nat) -> Seq<u8>
    decreases n,
{
    if n == 0 {
        add_round_key(input, keys[0])
    } else {
        round(rounds(input, keys, (n - 1) as nat), keys[n as int])
    }
}

/// The cipher: the initial key addition, nine full rounds and the last round.
pub open spec fn encrypt_block(input: Seq<u8>, keys: Seq<Seq<u8>>) -> Seq<u8> {
    final_round(rounds(input, keys, 9), keys[10])
}

/// The round constant of round `i`, for `i >= 1`: `x^(i - 1)` in the field.
pub open spec fn rcon(i: int) -> u8
    decreases i,
{
    if i <= 1 {
        1
    } else {
        xtime(rcon(i - 1))
    }
}

/// A four-byte word rotated left by one byte.
pub open spec fn rot_word(w: Seq<u8>) -> Seq<u8> {
    seq![w[1], w[2], w[3], w[0]]
}

/// Each byte of a word replaced by its substitution.
pub open spec fn sub_word(w: Seq<u8>) -> Seq<u8> {
    Seq::new(4, |i: int| sub_byte(w[i]))
}

/// The sum of two words.
pub open spec fn xor_word(a: Seq<u8>, b: Seq<u8>) -> Seq<u8> {
    Seq::new(4, |i: int| a[i] ^ b[i])
}

/// Word `i` of the expanded key, for a key of sixteen bytes.
pub open spec fn key_word(key: Seq<u8>, i: int) -> Seq<u8>
    decreases i,
{
    if i < 4 {
        key.subrange(4 * i, 4 * i + 4)
    } else {
        let before = key_word(key, i - 1);
        let t = if i % 4 == 0 {
            xor_word(sub_word(rot_word(before)), seq![rcon(i / 4), 0, 0, 0])
        } else {
            before
        };
        xor_word(key_word(key, i - 4), t)
    }
}

/// Round key `r`: the words `4 * r .. 4 * r + 4` of the expanded key.
pub open spec fn round_key(key: Seq<u8>, r: int) -> Seq<u8> {
    key_word(key, 4 * r) + key_word(key, 4 * r + 1) + key_word(key, 4 * r + 2) + key_word(
        key,
        4 * r + 3,
    )
}

/// The eleven round keys of `key`, as blocks.
#[verifier::opaque]
pub open spec fn key_schedule(key: u128) -> Seq<u128> {
    Seq::new(ROUND_KEYS as nat, |r: int| block_of(round_key(block_bytes(key), r)))
}

/// The byte strings of eleven round keys held as blocks.
pub open spec fn round_key_bytes(round_keys: Seq<u128>) -> Seq<Seq<u8>> {
    Seq::new(ROUND_KEYS as nat, |r: int| block_bytes(round_keys[r]))
}

/// The cipher on blocks.
#[verifier::opaque]
pub open spec fn cipher_spec(state: u128, round_keys: Seq<u128>) -> u128 {
    block_of(encrypt_block(block_bytes(state), round_key_bytes(round_keys)))
}

/// The word that starts a round key: the last word of the round key `prev`
/// before it, rotated and substituted, with the round constant `rc` added
/// to its first byte.
pub open spec fn assist_word(prev: Seq<u8>, rc: u8) -> Seq<u8> {
    seq![sub_byte(prev[13]) ^ rc, sub_byte(prev[14]), sub_byte(prev[15]), sub_byte(prev[12])]
}

/// The cascade that makes a round key of the one before it and of a word
/// `t`: the first word takes `t`, and each further word takes the word
/// before it.
pub open spec fn cascade(prev: Seq<u8>, t: Seq<u8>) -> Seq<u8> {
    let w0 = xor_word(prev.subrange(0, 4), t);
    let w1 = xor_word(prev.subrange(4, 8), w0);
    let w2 = xor_word(prev.subrange(8, 12), w1);
    let w3 = xor_word(prev.subrange(12, 16), w2);
    w0 + w1 + w2 + w3
}

/// The round key that follows `prev`, for the round constant `rc`.
pub open spec fn next_round_key(prev: Seq<u8>, rc: u8) -> Seq<u8> {
    cascade(prev, assist_word(prev, rc))
}

/// Every word of the expanded key has four bytes.
pub proof fn lemma_key_word_len(key: Seq<u8>, i: int)
    requires
        key.len() == 16,
        0 <= i,
    ensures
        key_word(key, i).len() == 4,
    decreases i,
{
    if i >= 4 {
        lemma_key_word_len(key, i - 1);
        lemma_key_word_len(key, i - 4);
    }
}

/// Round key 0 is the key, and each later round key follows from the one
/// before it.
pub proof fn lemma_round_key_step(key: Seq<u8>, r: int)
    requires
        key.len() == 16,
        0 <= r,
    ensures
        round_key(key, r).len() == 16,
        r == 0 ==> round_key(key, r) == key,
        r >= 1 ==> round_key(key, r) == next_round_key(round_key(key, r - 1), rcon(r)),
{
    lemma_key_word_len(key, 4 * r);
    lemma_key_word_len(key, 4 * r + 1);
    lemma_key_word_len(key, 4 * r + 2);
    lemma_key_word_len(key, 4 * r + 3);
    if r == 0 {
        assert(round_key(key, 0) =~= key);
    } else {
        let prev = round_key(key, r - 1);
        lemma_key_word_len(key, 4 * r - 4);
        lemma_key_word_len(key, 4 * r - 3);
        lemma_key_word_len(key, 4 * r - 2);
        lemma_key_word_len(key, 4 * r - 1);
        assert(prev.subrange(0, 4) =~= key_word(key, 4 * r - 4));
        assert(prev.subrange(4, 8) =~= key_word(key, 4 * r - 3));
        assert(prev.subrange(8, 12) =~= key_word(key, 4 * r - 2));
        assert(prev.subrange(12, 16) =~= key_word(key, 4 * r - 1));
        let last = key_word(key, 4 * r - 1);
        let t = assist_word(prev, rcon(r));
        let b1 = sub_byte(prev[14]);
        let b2 = sub_byte(prev[15]);
        let b3 = sub_byte(prev[12]);
        assert(b1 ^ 0 == b1 && b2 ^ 0 == b2 && b3 ^ 0 == b3) by (bit_vector);
        assert(xor_word(sub_word(rot_word(last)), seq![rcon((4 * r) / 4), 0, 0, 0]) =~= t);
        assert(round_key(key, r) =~= next_round_key(prev, rcon(r)));
    }
}

/// The bytes of a cascade, one by one.
pub proof fn lemma_cascade_bytes(prev: Seq<u8>, t: Seq<u8>)
    requires
        prev.len() == 16,
        t.len() == 4,
    ensures
        cascade(prev, t).len() == 16,
        forall|j: int| 0 <= j < 4 ==> #[trigger] cascade(prev, t)[j] == prev[j] ^ t[j],
        forall|j: int|
            4 <= j < 16 ==> #[trigger] cascade(prev, t)[j] == prev[j] ^ cascade(prev, t)[j - 4],
{
    let w0 = xor_word(prev.subrange(0, 4), t);
    let w1 = xor_word(prev.subrange(4, 8), w0);
    let w2 = xor_word(prev.subrange(8, 12), w1);
    let w3 = xor_word(prev.subrange(12, 16), w2);
    let next = cascade(prev, t);
    assert(next == w0 + w1 + w2 + w3);
    assert forall|j: int| 0 <= j < 16 implies #[trigger] next[j] == (if j < 4 {
        w0[j]
    } else if j < 8 {
        w1[j - 4]
    } else if j < 12 {
        w2[j - 8]
    } else {
        w3[j - 12]
    }) by {}
    assert forall|j: int| 0 <= j < 4 implies #[trigger] next[j] == prev[j] ^ t[j] by {
        assert(next[j] == w0[j]);
        assert(prev.subrange(0, 4)[j] == prev[j]);
    }
    assert forall|j: int| 4 <= j < 16 implies #[trigger] next[j] == prev[j] ^ next[j - 4] by {
        if j < 8 {
            assert(next[j] == w1[j - 4]);
            assert(prev.subrange(4, 8)[j - 4] == prev[j]);
        } else if j < 12 {
            assert(next[j] == w2[j - 8]);
            assert(prev.subrange(8, 12)[j - 8] == prev[j]);
        } else {
            assert(next[j] == w3[j - 12]);
            assert(prev.subrange(12, 16)[j - 12] == prev[j]);
        }
    }
}

/// The schedule holds eleven round keys, and the first of them is the key.
pub proof fn lemma_schedule_starts_with_key(key: u128)
    ensures
        key_schedule(key).len() == 11,
        key_schedule(key)[0] == key,
{
    reveal(key_schedule);
    lemma_round_key_step(block_bytes(key), 0);
    lemma_block_of_bytes(key);
}

} // verus!
