//! Arithmetic in GF(2^8), the field of 256 elements that the cipher computes in.
//!
//! A byte stands for a polynomial of degree below eight over GF(2), bit `k`
//! being the coefficient of `x^k`. Addition is `^`; multiplication is taken
//! modulo `x^8 + x^4 + x^3 + x + 1`.
use vstd::prelude::*;

verus! {

/// The product of `a` and the polynomial `x`, reduced.
pub open spec fn xtime(a: u8) -> u8 {
    if a & 0x80 != 0 {
        (a << 1) ^ 0x1b
    } else {
        a << 1
    }
}

/// `a` if `b` has the bit `bit`, else zero: one partial product of `gf_mul`.
pub open spec fn partial(a: u8, b: u8, bit: u8) -> u8 {
    if b & bit != 0 {
        a
    } else {
        0
    }
}

/// The product of `a` and `b` in the field: the sum of `a * x^k` over the
/// bits `k` of `b`.
pub open spec fn gf_mul(a: u8, b: u8) -> u8 {
    let a1 = xtime(a);
    let a2 = xtime(a1);
    let a3 = xtime(a2);
    let a4 = xtime(a3);
    let a5 = xtime(a4);
    let a6 = xtime(a5);
    let a7 = xtime(a6);
    partial(a, b, 0x01) ^ partial(a1, b, 0x02) ^ partial(a2, b, 0x04) ^ partial(a3, b, 0x08)
        ^ partial(a4, b, 0x10) ^ partial(a5, b, 0x20) ^ partial(a6, b, 0x40) ^ partial(
        a7,
        b,
        0x80,
    )
}

/// The multiplicative inverse of `a`, with zero taken to zero.
pub open spec fn gf_inv(a: u8) -> u8 {
    if a == 0 {
        0
    } else {
        choose|b: u8| gf_mul(a, b) == 1
    }
}

/// A nonzero element has at most one inverse.
pub proof fn lemma_inverse_unique(a: u8, b: u8, c: u8)
    by (bit_vector)
    requires
        gf_mul(a, b) == 1,
        gf_mul(a, c) == 1,
    ensures
        b == c,
{
}

/// Whoever exhibits an inverse of a nonzero `a` has found `gf_inv(a)`.
pub proof fn lemma_inverse_is(a: u8, b: u8)
    requires
        gf_mul(a, b) == 1,
    ensures
        a != 0,
        gf_inv(a) == b,
{
    assert(a != 0) by (bit_vector)
        requires
            gf_mul(a, b) == 1,
    ;
    let c = choose|c: u8| gf_mul(a, c) == 1;
    lemma_inverse_unique(a, b, c);
}

/// Multiplies by `x`.
pub fn times_x(a: u8) -> (r: u8)
    ensures
        r == xtime(a),
{
    if a & 0x80 != 0 {
        (a << 1) ^ 0x1b
    } else {
        a << 1
    }
}

} // verus!
