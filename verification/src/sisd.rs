//! The portable backend: key expansion and the cipher, one byte at a time.
use crate::block::{block_bytes, block_of, block_to_bytes, bytes_to_block, lemma_block_of_bytes};
use crate::gf256::{gf_mul, times_x, xtime};
use crate::rijndael::{
    add_round_key, assist_word, cipher_spec, key_schedule, lemma_cascade_bytes,
    lemma_round_key_step, mix_coefficient, mix_columns, mix_entry, next_round_key, rcon, round_key,
    round_key_bytes, rounds, shift_rows, sub_bytes,
};
use crate::sbox::{sub_byte, substitute};
use vstd::prelude::*;

verus! {

/// The round constants of rounds 1 to 10.
pub const RCON: [u8; 10] = [0x01, 0x02, 0x04, 0x08, 0x10, 0x20, 0x40, 0x80, 0x1b, 0x36];

/// The table of round constants holds the powers of `x`.
pub proof fn lemma_rcon_table(r: int)
    requires
        1 <= r <= 10,
    ensures
        RCON[r - 1] == rcon(r),
{
    assert(xtime(0x01) == 0x02 && xtime(0x02) == 0x04 && xtime(0x04) == 0x08 && xtime(0x08) == 0x10
        && xtime(0x10) == 0x20 && xtime(0x20) == 0x40 && xtime(0x40) == 0x80 && xtime(0x80) == 0x1b
        && xtime(0x1b) == 0x36) by (bit_vector);
    reveal_with_fuel(rcon, 11);
}

/// Computes the round key that follows `prev`.
fn expand_round_key(prev: &[u8; 16], rc: u8) -> (next: [u8; 16])
    ensures
        next@ == next_round_key(prev@, rc),
{
    let mut next: [u8; 16] = [0u8; 16];
    next[0] = prev[0] ^ substitute(prev[13]) ^ rc;
    next[1] = prev[1] ^ substitute(prev[14]);
    next[2] = prev[2] ^ substitute(prev[15]);
    next[3] = prev[3] ^ substitute(prev[12]);
    proof {
        let (p, s, c) = (prev[0], sub_byte(prev[13]), rc);
        assert(p ^ s ^ c == p ^ (s ^ c)) by (bit_vector);
        lemma_cascade_bytes(prev@, assist_word(prev@, rc));
        assert(next@[0] == next_round_key(prev@, rc)[0]);
        assert(next@[1] == next_round_key(prev@, rc)[1]);
        assert(next@[2] == next_round_key(prev@, rc)[2]);
        assert(next@[3] == next_round_key(prev@, rc)[3]);
    }
    let mut i: usize = 4;
    while i < 16
        invariant
            4 <= i <= 16,
            next_round_key(prev@, rc).len() == 16,
            forall|j: int|
                4 <= j < 16 ==> #[trigger] next_round_key(prev@, rc)[j] == prev@[j]
                    ^ next_round_key(prev@, rc)[j - 4],
            forall|j: int| 0 <= j < i ==> next@[j] == next_round_key(prev@, rc)[j],
        decreases 16 - i,
    {
        next[i] = prev[i] ^ next[i - 4];
        i += 1;
    }
    assert(next@ =~= next_round_key(prev@, rc));
    next
}

/// Expands one 128-bit key into the eleven round keys: the key itself, then
/// ten keys that each follow from the one before.
pub fn key_expansion(key: u128) -> (round_keys: [u128; 11])
    ensures
        round_keys@ == key_schedule(key),
        round_keys@.len() == 11,
        round_keys@[0] == key,
{
    let ghost kb = block_bytes(key);
    let ghost schedule = key_schedule(key);
    proof {
        reveal(key_schedule);
    }
    let mut round_keys: [u128; 11] = [0u128; 11];
    let mut prev: [u8; 16] = block_to_bytes(key);
    round_keys[0] = key;
    proof {
        assert(schedule.len() == 11);
        assert(schedule[0] == key && prev@ == round_key(kb, 0)) by {
            lemma_round_key_step(kb, 0);
            lemma_block_of_bytes(key);
        }
    }
    let mut r: usize = 1;
    while r < 11
        invariant
            1 <= r <= 11,
            kb.len() == 16,
            schedule.len() == 11,
            forall|j: int| 0 <= j < 11 ==> #[trigger] schedule[j] == block_of(round_key(kb, j)),
            prev@ == round_key(kb, r - 1),
            forall|j: int| 0 <= j < r ==> round_keys@[j] == schedule[j],
        decreases 11 - r,
    {
        proof {
            lemma_rcon_table(r as int);
            lemma_round_key_step(kb, r as int);
        }
        let next: [u8; 16] = expand_round_key(&prev, RCON[r - 1]);
        let k: u128 = bytes_to_block(&next);
        round_keys[r] = k;
        prev = next;
        r += 1;
    }
    assert(round_keys@ =~= schedule);
    round_keys
}

/// The four entries of a mixed column, computed with one doubling each.
proof fn lemma_mix_column(a0: u8, a1: u8, a2: u8, a3: u8)
    by (bit_vector)
    ensures
        gf_mul(a0, 2) ^ gf_mul(a1, 3) ^ gf_mul(a2, 1) ^ gf_mul(a3, 1) == a0 ^ (a0 ^ a1 ^ a2 ^ a3)
            ^ xtime(a0 ^ a1),
        gf_mul(a0, 1) ^ gf_mul(a1, 2) ^ gf_mul(a2, 3) ^ gf_mul(a3, 1) == a1 ^ (a0 ^ a1 ^ a2 ^ a3)
            ^ xtime(a1 ^ a2),
        gf_mul(a0, 1) ^ gf_mul(a1, 1) ^ gf_mul(a2, 2) ^ gf_mul(a3, 3) == a2 ^ (a0 ^ a1 ^ a2 ^ a3)
            ^ xtime(a2 ^ a3),
        gf_mul(a0, 3) ^ gf_mul(a1, 1) ^ gf_mul(a2, 1) ^ gf_mul(a3, 2) == a3 ^ (a0 ^ a1 ^ a2 ^ a3)
            ^ xtime(a3 ^ a0),
{
}

/// Mixes one column.
fn mix_column(a0: u8, a1: u8, a2: u8, a3: u8) -> (m: (u8, u8, u8, u8))
    ensures
        m.0 == gf_mul(a0, 2) ^ gf_mul(a1, 3) ^ gf_mul(a2, 1) ^ gf_mul(a3, 1),
        m.1 == gf_mul(a0, 1) ^ gf_mul(a1, 2) ^ gf_mul(a2, 3) ^ gf_mul(a3, 1),
        m.2 == gf_mul(a0, 1) ^ gf_mul(a1, 1) ^ gf_mul(a2, 2) ^ gf_mul(a3, 3),
        m.3 == gf_mul(a0, 3) ^ gf_mul(a1, 1) ^ gf_mul(a2, 1) ^ gf_mul(a3, 2),
{
    proof {
        lemma_mix_column(a0, a1, a2, a3);
    }
    let t: u8 = a0 ^ a1 ^ a2 ^ a3;
    (
        a0 ^ t ^ times_x(a0 ^ a1),
        a1 ^ t ^ times_x(a1 ^ a2),
        a2 ^ t ^ times_x(a2 ^ a3),
        a3 ^ t ^ times_x(a3 ^ a0),
    )
}

/// The entries of column `c` of the mixed state, with the coefficients of
/// the mixing matrix written out.
proof fn lemma_mixed_column(s: Seq<u8>, c: int)
    requires
        0 <= c < 4,
    ensures
        mix_columns(s)[4 * c] == gf_mul(s[4 * c], 2) ^ gf_mul(s[4 * c + 1], 3) ^ gf_mul(
            s[4 * c + 2],
            1,
        ) ^ gf_mul(s[4 * c + 3], 1),
        mix_columns(s)[4 * c + 1] == gf_mul(s[4 * c], 1) ^ gf_mul(s[4 * c + 1], 2) ^ gf_mul(
            s[4 * c + 2],
            3,
        ) ^ gf_mul(s[4 * c + 3], 1),
        mix_columns(s)[4 * c + 2] == gf_mul(s[4 * c], 1) ^ gf_mul(s[4 * c + 1], 1) ^ gf_mul(
            s[4 * c + 2],
            2,
        ) ^ gf_mul(s[4 * c + 3], 3),
        mix_columns(s)[4 * c + 3] == gf_mul(s[4 * c], 3) ^ gf_mul(s[4 * c + 1], 1) ^ gf_mul(
            s[4 * c + 2],
            1,
        ) ^ gf_mul(s[4 * c + 3], 2),
{
    let m = mix_columns(s);
    assert(m[4 * c] == mix_entry(s, 0, c) && m[4 * c + 1] == mix_entry(s, 1, c) && m[4 * c + 2]
        == mix_entry(s, 2, c) && m[4 * c + 3] == mix_entry(s, 3, c)) by {
        assert((4 * c) % 4 == 0 && (4 * c) / 4 == c);
        assert((4 * c + 1) % 4 == 1 && (4 * c + 1) / 4 == c);
        assert((4 * c + 2) % 4 == 2 && (4 * c + 2) / 4 == c);
        assert((4 * c + 3) % 4 == 3 && (4 * c + 3) / 4 == c);
    }
    lemma_mix_entries(s, c);
}

/// The entries of the product of the mixing matrix and column `c`, with the
/// coefficients written out.
proof fn lemma_mix_entries(s: Seq<u8>, c: int)
    ensures
        mix_entry(s, 0, c) == gf_mul(s[4 * c], 2) ^ gf_mul(s[4 * c + 1], 3) ^ gf_mul(
            s[4 * c + 2],
            1,
        ) ^ gf_mul(s[4 * c + 3], 1),
        mix_entry(s, 1, c) == gf_mul(s[4 * c], 1) ^ gf_mul(s[4 * c + 1], 2) ^ gf_mul(
            s[4 * c + 2],
            3,
        ) ^ gf_mul(s[4 * c + 3], 1),
        mix_entry(s, 2, c) == gf_mul(s[4 * c], 1) ^ gf_mul(s[4 * c + 1], 1) ^ gf_mul(
            s[4 * c + 2],
            2,
        ) ^ gf_mul(s[4 * c + 3], 3),
        mix_entry(s, 3, c) == gf_mul(s[4 * c], 3) ^ gf_mul(s[4 * c + 1], 1) ^ gf_mul(
            s[4 * c + 2],
            1,
        ) ^ gf_mul(s[4 * c + 3], 2),
{
    reveal(mix_entry);
    assert(mix_coefficient(0, 0) == 2 && mix_coefficient(0, 1) == 3 && mix_coefficient(0, 2) == 1
        && mix_coefficient(0, 3) == 1);
    assert(mix_coefficient(1, 0) == 1 && mix_coefficient(1, 1) == 2 && mix_coefficient(1, 2) == 3
        && mix_coefficient(1, 3) == 1);
    assert(mix_coefficient(2, 0) == 1 && mix_coefficient(2, 1) == 1 && mix_coefficient(2, 2) == 2
        && mix_coefficient(2, 3) == 3);
    assert(mix_coefficient(3, 0) == 3 && mix_coefficient(3, 1) == 1 && mix_coefficient(3, 2) == 1
        && mix_coefficient(3, 3) == 2);
}

/// Where each byte of the state comes from when the rows are rotated.
proof fn lemma_shifted_rows(s: Seq<u8>)
    ensures
        shift_rows(s) =~= seq![
            s[0],
            s[5],
            s[10],
            s[15],
            s[4],
            s[9],
            s[14],
            s[3],
            s[8],
            s[13],
            s[2],
            s[7],
            s[12],
            s[1],
            s[6],
            s[11],
        ],
{
    let t = shift_rows(s);
    assert(t[0] == s[0] && t[1] == s[5] && t[2] == s[10] && t[3] == s[15]);
    assert(t[4] == s[4] && t[5] == s[9] && t[6] == s[14] && t[7] == s[3]);
    assert(t[8] == s[8] && t[9] == s[13] && t[10] == s[2] && t[11] == s[7]);
    assert(t[12] == s[12] && t[13] == s[1] && t[14] == s[6] && t[15] == s[11]);
}

/// Substitutes every byte of the state and rotates its rows.
fn substitute_and_shift(s: &[u8; 16]) -> (out: [u8; 16])
    ensures
        out@ == shift_rows(sub_bytes(s@)),
{
    let out: [u8; 16] = [
        substitute(s[0]),
        substitute(s[5]),
        substitute(s[10]),
        substitute(s[15]),
        substitute(s[4]),
        substitute(s[9]),
        substitute(s[14]),
        substitute(s[3]),
        substitute(s[8]),
        substitute(s[13]),
        substitute(s[2]),
        substitute(s[7]),
        substitute(s[12]),
        substitute(s[1]),
        substitute(s[6]),
        substitute(s[11]),
    ];
    proof {
        lemma_shifted_rows(sub_bytes(s@));
        assert(out@ =~= shift_rows(sub_bytes(s@)));
    }
    out
}

/// Multiplies every column of the state by the mixing matrix.
fn mix(s: &[u8; 16]) -> (out: [u8; 16])
    ensures
        out@ == mix_columns(s@),
{
    let mut out: [u8; 16] = [0u8; 16];
    let mut c: usize = 0;
    while c < 4
        invariant
            c <= 4,
            forall|j: int| 0 <= j < 4 * c ==> out@[j] == mix_columns(s@)[j],
        decreases 4 - c,
    {
        let m: (u8, u8, u8, u8) = mix_column(s[4 * c], s[4 * c + 1], s[4 * c + 2], s[4 * c + 3]);
        proof {
            lemma_mixed_column(s@, c as int);
        }
        out[4 * c] = m.0;
        out[4 * c + 1] = m.1;
        out[4 * c + 2] = m.2;
        out[4 * c + 3] = m.3;
        c += 1;
    }
    assert(out@ =~= mix_columns(s@));
    out
}

/// Adds a round key, held as a block, to the state.
fn add_key(s: &[u8; 16], k: u128) -> (out: [u8; 16])
    ensures
        out@ == add_round_key(s@, block_bytes(k)),
{
    let kb: [u8; 16] = block_to_bytes(k);
    let mut out: [u8; 16] = [0u8; 16];
    let mut i: usize = 0;
    while i < 16
        invariant
            i <= 16,
            kb@ == block_bytes(k),
            forall|j: int| 0 <= j < i ==> out@[j] == s@[j] ^ kb@[j],
        decreases 16 - i,
    {
        out[i] = s[i] ^ kb[i];
        i += 1;
    }
    assert(out@ =~= add_round_key(s@, block_bytes(k)));
    out
}

/// Enciphers one block under eleven round keys: the first key is added to
/// the state, nine full rounds follow, and a last round without the column
/// mixing.
pub fn cipher(state: u128, round_keys: &[u128]) -> (out: u128)
    requires
        round_keys@.len() == 11,
    ensures
        out == cipher_spec(state, round_keys@),
{
    let ghost input = block_bytes(state);
    let ghost keys = round_key_bytes(round_keys@);
    proof {
        reveal(cipher_spec);
    }
    let start: [u8; 16] = block_to_bytes(state);
    let mut s: [u8; 16] = add_key(&start, round_keys[0]);
    let mut i: usize = 1;
    while i < 10
        invariant
            1 <= i <= 10,
            round_keys@.len() == 11,
            keys == round_key_bytes(round_keys@),
            s@ == rounds(input, keys, (i - 1) as nat),
        decreases 10 - i,
    {
        let shifted: [u8; 16] = substitute_and_shift(&s);
        let mixed: [u8; 16] = mix(&shifted);
        s = add_key(&mixed, round_keys[i]);
        i += 1;
    }
    let shifted: [u8; 16] = substitute_and_shift(&s);
    let last: [u8; 16] = add_key(&shifted, round_keys[10]);
    bytes_to_block(&last)
}

} // verus!
