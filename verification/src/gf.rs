//! Arithmetic in the field of 256 elements, reduced by
//! x^8 + x^4 + x^3 + x + 1.

use vstd::prelude::*;
use crate::gf_laws::{lemma_inv_is_pow_254, lemma_mul_one, lemma_pow_add};

verus! {

/// The product of `a` and the polynomial x.
pub open spec fn xtime(a: u8) -> u8 {
    if a & 0x80 != 0 {
        (a << 1) ^ 0x1b
    } else {
        a << 1
    }
}

/// The sum, over the lowest `n` bits of `b` that are set, of `a` times the
/// power of x that the bit stands for.
pub open spec fn gf_mul_bits(a: u8, b: u8, n: nat) -> u8
    decreases n,
{
    if n == 0 {
        0
    } else {
        (if b & 1 != 0 {
            a
        } else {
            0u8
        }) ^ gf_mul_bits(xtime(a), b >> 1, (n - 1) as nat)
    }
}

/// The product of `a` and `b` in the field.
pub open spec fn gf_mul(a: u8, b: u8) -> u8 {
    gf_mul_bits(a, b, 8)
}

/// The `n`-th power of `a` in the field.
pub open spec fn gf_pow(a: u8, n: nat) -> u8
    decreases n,
{
    if n == 0 {
        1
    } else {
        gf_mul(a, gf_pow(a, (n - 1) as nat))
    }
}

/// The multiplicative inverse of `a` in the field: the byte whose product
/// with `a` is one. Zero has none, and zero stands in for it.
pub open spec fn gf_inv(a: u8) -> u8 {
    if a == 0 {
        0
    } else {
        choose|b: u8| gf_mul(a, b) == 1
    }
}

/// Exclusive-or may be regrouped, and zero is its neutral element.
proof fn lemma_xor_regroup(x: u8, y: u8, z: u8)
    by (bit_vector)
    ensures
        (x ^ y) ^ z == x ^ (y ^ z),
        x ^ 0 == x,
        0 ^ x == x,
{
}

/// Doubles `a` in the field.
pub fn double(a: u8) -> (d: u8)
    ensures
        d == xtime(a),
{
    if a & 0x80 != 0 {
        (a << 1) ^ 0x1b
    } else {
        a << 1
    }
}

/// Multiplies `a` by `b` in the field.
pub fn g_mul(a: u8, b: u8) -> (p: u8)
    ensures
        p == gf_mul(a, b),
{
    let mut a: u8 = a;
    let mut b: u8 = b;
    let mut p: u8 = 0;
    let ghost product = gf_mul(a, b);
    proof {
        lemma_xor_regroup(product, 0, 0);
    }
    let mut i: u8 = 0;
    while i < 8
        invariant
            i <= 8,
            p ^ gf_mul_bits(a, b, (8 - i) as nat) == product,
        decreases 8 - i,
    {
        let ghost rest = gf_mul_bits(xtime(a), b >> 1, (7 - i) as nat);
        proof {
            lemma_xor_regroup(p, a, rest);
            lemma_xor_regroup(rest, 0, 0);
        }
        if b & 1 != 0 {
            p ^= a;
        }
        let high_bit_set = a & 0x80 != 0;
        a <<= 1;
        if high_bit_set {
            a ^= 0x1b;
        }
        b >>= 1;
        i += 1;
    }
    proof {
        lemma_xor_regroup(p, 0, 0);
    }
    p
}

/// Computes the inverse of `a`, zero for zero, as the 254th power of `a`:
/// the product of its powers with exponents 2, 4, 8, up to 128.
pub fn g_inv(a: u8) -> (inv: u8)
    ensures
        inv == gf_inv(a),
{
    proof {
        lemma_mul_one(a);
        assert(gf_pow(a, 1) == gf_mul(a, gf_pow(a, 0)));
        lemma_pow_add(a, 1, 1);
    }
    let mut square: u8 = g_mul(a, a);
    let mut product: u8 = square;
    let mut exponent: u8 = 2;
    while exponent < 128
        invariant
            exponent == 2 || exponent == 4 || exponent == 8 || exponent == 16 || exponent == 32
                || exponent == 64 || exponent == 128,
            square == gf_pow(a, exponent as nat),
            product == gf_pow(a, (2 * exponent - 2) as nat),
        decreases 128 - exponent,
    {
        proof {
            lemma_pow_add(a, exponent as nat, exponent as nat);
            lemma_pow_add(a, (2 * exponent - 2) as nat, (2 * exponent) as nat);
        }
        square = g_mul(square, square);
        product = g_mul(product, square);
        exponent = 2 * exponent;
    }
    proof {
        lemma_inv_is_pow_254(a);
    }
    product
}

} // verus!
