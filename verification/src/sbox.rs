//! The substitution box: inversion in GF(2^8) followed by an affine map over
//! GF(2).
//!
//! The box is stored as sixteen 128-bit rows of sixteen entries each, entry
//! `lo` of a row in bits `8 * lo .. 8 * lo + 8`. In that form the whole table
//! is checked against the definition by the bit-vector solver.
use crate::gf256::{gf_inv, gf_mul, lemma_inverse_is};
use vstd::prelude::*;

verus! {

/// `b` rotated left by `n` bits, for `0 < n < 8`.
pub open spec fn rotl8(b: u8, n: u8) -> u8 {
    (b << n) | (b >> ((8 - n) as u8))
}

/// The affine map of the substitution: bit `i` of the result is the sum of
/// the bits `i`, `i + 4`, `i + 5`, `i + 6` and `i + 7` (modulo 8) of `b` and
/// of bit `i` of `0x63`.
pub open spec fn affine(b: u8) -> u8 {
    b ^ rotl8(b, 1) ^ rotl8(b, 2) ^ rotl8(b, 3) ^ rotl8(b, 4) ^ 0x63
}

/// The inverse of `affine`.
pub open spec fn affine_inv(s: u8) -> u8 {
    rotl8(s, 1) ^ rotl8(s, 3) ^ rotl8(s, 6) ^ 0x05
}

/// The substitution of one byte.
pub open spec fn sub_byte(a: u8) -> u8 {
    affine(gf_inv(a))
}

// The sixteen rows of the table. Row `hi` holds the substitutions of the
// bytes `16 * hi .. 16 * hi + 16`, that of `16 * hi` in its lowest byte.
pub const SBOX_ROW_0: u128 = 0x76abd7fe2b670130c56f6bf27b777c63;
pub const SBOX_ROW_1: u128 = 0xc072a49cafa2d4adf04759fa7dc982ca;
pub const SBOX_ROW_2: u128 = 0x1531d871f1e5a534ccf73f362693fdb7;
pub const SBOX_ROW_3: u128 = 0x75b227ebe28012079a059618c323c704;
pub const SBOX_ROW_4: u128 = 0x842fe329b3d63b52a05a6e1b1a2c8309;
pub const SBOX_ROW_5: u128 = 0xcf584c4a39becb6a5bb1fc20ed00d153;
pub const SBOX_ROW_6: u128 = 0xa89f3c507f02f94585334d43fbaaefd0;
pub const SBOX_ROW_7: u128 = 0xd2f3ff1021dab6bcf5389d928f40a351;
pub const SBOX_ROW_8: u128 = 0x73195d643d7ea7c41744975fec130ccd;
pub const SBOX_ROW_9: u128 = 0xdb0b5ede14b8ee4688902a22dc4f8160;
pub const SBOX_ROW_A: u128 = 0x79e4959162acd3c25c2406490a3a32e0;
pub const SBOX_ROW_B: u128 = 0x08ae7a65eaf4566ca94ed58d6d37c8e7;
pub const SBOX_ROW_C: u128 = 0x8a8bbd4b1f74dde8c6b4a61c2e2578ba;
pub const SBOX_ROW_D: u128 = 0x9e1dc186b95735610ef6034866b53e70;
pub const SBOX_ROW_E: u128 = 0xdf2855cee9871e9b948ed9691198f8e1;
pub const SBOX_ROW_F: u128 = 0x16bb54b00f2d99416842e6bf0d89a18c;

/// The table, row by row.
pub const SBOX_ROWS: [u128; 16] = [
    SBOX_ROW_0,
    SBOX_ROW_1,
    SBOX_ROW_2,
    SBOX_ROW_3,
    SBOX_ROW_4,
    SBOX_ROW_5,
    SBOX_ROW_6,
    SBOX_ROW_7,
    SBOX_ROW_8,
    SBOX_ROW_9,
    SBOX_ROW_A,
    SBOX_ROW_B,
    SBOX_ROW_C,
    SBOX_ROW_D,
    SBOX_ROW_E,
    SBOX_ROW_F,
];

/// The row of the table that holds the entries `16 * hi .. 16 * hi + 16`.
pub open spec fn sbox_row(hi: u8) -> u128 {
    if hi == 0 {
        SBOX_ROW_0
    } else if hi == 1 {
        SBOX_ROW_1
    } else if hi == 2 {
        SBOX_ROW_2
    } else if hi == 3 {
        SBOX_ROW_3
    } else if hi == 4 {
        SBOX_ROW_4
    } else if hi == 5 {
        SBOX_ROW_5
    } else if hi == 6 {
        SBOX_ROW_6
    } else if hi == 7 {
        SBOX_ROW_7
    } else if hi == 8 {
        SBOX_ROW_8
    } else if hi == 9 {
        SBOX_ROW_9
    } else if hi == 10 {
        SBOX_ROW_A
    } else if hi == 11 {
        SBOX_ROW_B
    } else if hi == 12 {
        SBOX_ROW_C
    } else if hi == 13 {
        SBOX_ROW_D
    } else if hi == 14 {
        SBOX_ROW_E
    } else {
        SBOX_ROW_F
    }
}

/// Entry `lo` of a row.
pub open spec fn row_entry(row: u128, lo: u8) -> u8 {
    ((row >> ((8 * (lo & 15)) as u128)) & 0xff) as u8
}

/// The table's entry for `a`.
pub open spec fn sbox_entry(a: u8) -> u8 {
    row_entry(sbox_row(a >> 4), a & 15)
}

/// `b` is what inversion makes of `a`.
pub open spec fn inverts(a: u8, b: u8) -> bool {
    if a == 0 {
        b == 0
    } else {
        gf_mul(a, b) == 1
    }
}

/// Every entry of the table comes, by the affine map, from the inverse of
/// its index.
proof fn lemma_table_inverts(a: u8)
    by (bit_vector)
    ensures
        inverts(a, affine_inv(sbox_entry(a))),
        affine(affine_inv(sbox_entry(a))) == sbox_entry(a),
{
}

/// The table holds the substitution.
pub proof fn lemma_sbox_entry(a: u8)
    ensures
        sbox_entry(a) == sub_byte(a),
{
    let b = affine_inv(sbox_entry(a));
    lemma_table_inverts(a);
    if a != 0 {
        lemma_inverse_is(a, b);
    }
}

/// Looks the substitution of `a` up in the table.
pub fn substitute(a: u8) -> (s: u8)
    ensures
        s == sub_byte(a),
{
    let hi: u8 = a >> 4;
    let lo: u8 = a & 15;
    proof {
        assert(hi < 16 && lo < 16 && lo & 15 == lo) by (bit_vector)
            requires
                hi == a >> 4,
                lo == a & 15,
        ;
    }
    let row: u128 = SBOX_ROWS[hi as usize];
    proof {
        assert(row == sbox_row(hi));
        lemma_sbox_entry(a);
    }
    let shift: u128 = 8 * (lo as u128);
    ((row >> shift) & 0xff) as u8
}

} // verus!
