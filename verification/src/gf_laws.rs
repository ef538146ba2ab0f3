//! Laws of the field arithmetic: the product distributes over
//! exclusive-or, is associative and commutative, has one as its neutral
//! element, and every byte but zero has exactly one inverse, its 254th
//! power.

use vstd::prelude::*;
use crate::gf::{gf_inv, gf_mul, gf_mul_bits, gf_pow, xtime};

verus! {

/// Facts about exclusive-or on bytes.
proof fn lemma_xor(s: u8, t: u8, u: u8, v: u8)
    by (bit_vector)
    ensures
        (s ^ t) ^ (u ^ v) == (s ^ u) ^ (t ^ v),
        s ^ s == 0,
        s ^ 0 == s,
        0 ^ s == s,
{
}

/// Facts about the lowest bit and the shifts of a byte.
proof fn lemma_bits(b: u8, c: u8)
    by (bit_vector)
    ensures
        ((b ^ c) & 1 != 0) == ((b & 1 != 0) != (c & 1 != 0)),
        (b ^ c) >> 1 == (b >> 1) ^ (c >> 1),
        b >> 1 == b / 2,
        b < 128 ==> (b << 1) & 1 == 0 && (b << 1) >> 1 == b,
        b == (b & 0x7f) ^ (b & 0x80),
        (b & 0x7f) < 128,
        b & 0x80 == 0 || b & 0x80 == 0x80,
        b & 0x80 == 0 ==> b < 128,
        0u8 & 1 == 0,
        0u8 >> 1 == 0,
        1u8 & 1 == 1,
        1u8 >> 1 == 0,
{
}

/// Doubling distributes over exclusive-or.
pub proof fn lemma_xtime_xor(a: u8, b: u8)
    by (bit_vector)
    ensures
        xtime(a ^ b) == xtime(a) ^ xtime(b),
        xtime(0) == 0,
        b < 128 ==> xtime(b) == b << 1,
{
}

/// A product with zero on the right is zero.
pub proof fn lemma_mul_bits_zero(a: u8, n: nat)
    ensures
        gf_mul_bits(a, 0, n) == 0,
    decreases n,
{
    if n > 0 {
        lemma_bits(0, 0);
        lemma_xor(0, 0, 0, 0);
        lemma_mul_bits_zero(xtime(a), (n - 1) as nat);
    }
}

/// One is neutral on the right.
pub proof fn lemma_mul_one(a: u8)
    ensures
        gf_mul(a, 1) == a,
{
    lemma_bits(1, 1);
    lemma_xor(a, 0, 0, 0);
    lemma_mul_bits_zero(xtime(a), 7);
}

/// One is neutral on the left.
pub proof fn lemma_mul_one_left(b: u8)
    by (bit_vector)
    ensures
        gf_mul(1, b) == b,
{
}

/// Doubling the left factor doubles the product.
pub proof fn lemma_mul_bits_xtime_left(a: u8, b: u8, n: nat)
    ensures
        gf_mul_bits(xtime(a), b, n) == xtime(gf_mul_bits(a, b, n)),
    decreases n,
{
    lemma_xtime_xor(0, 0);
    if n > 0 {
        let rest = gf_mul_bits(xtime(a), b >> 1, (n - 1) as nat);
        lemma_mul_bits_xtime_left(xtime(a), b >> 1, (n - 1) as nat);
        if b & 1 != 0 {
            lemma_xtime_xor(a, rest);
        } else {
            lemma_xtime_xor(0, rest);
        }
    }
}

/// The product distributes over exclusive-or in its right factor.
pub proof fn lemma_mul_bits_xor_right(a: u8, b: u8, c: u8, n: nat)
    ensures
        gf_mul_bits(a, b ^ c, n) == gf_mul_bits(a, b, n) ^ gf_mul_bits(a, c, n),
    decreases n,
{
    if n == 0 {
        lemma_xor(0, 0, 0, 0);
    } else {
        let m = (n - 1) as nat;
        lemma_bits(b, c);
        lemma_mul_bits_xor_right(xtime(a), b >> 1, c >> 1, m);
        let rb = gf_mul_bits(xtime(a), b >> 1, m);
        let rc = gf_mul_bits(xtime(a), c >> 1, m);
        let tb = if b & 1 != 0 {
            a
        } else {
            0u8
        };
        let tc = if c & 1 != 0 {
            a
        } else {
            0u8
        };
        lemma_xor(tb, rb, tc, rc);
        lemma_xor(a, 0, 0, 0);
    }
}

/// The product distributes over exclusive-or in its right factor.
pub proof fn lemma_mul_xor_right(a: u8, b: u8, c: u8)
    ensures
        gf_mul(a, b ^ c) == gf_mul(a, b) ^ gf_mul(a, c),
{
    lemma_mul_bits_xor_right(a, b, c, 8);
}

/// Two to the power `n`.
spec fn two_pow(n: nat) -> int
    decreases n,
{
    if n == 0 {
        1
    } else {
        2 * two_pow((n - 1) as nat)
    }
}

/// A right factor below two to the `n` has no bit beyond the lowest `n`.
proof fn lemma_mul_bits_small(a: u8, b: u8, n: nat)
    requires
        b < two_pow(n),
    ensures
        gf_mul_bits(a, b, n + 1) == gf_mul_bits(a, b, n),
    decreases n,
{
    lemma_bits(b, b);
    if n == 0 {
        lemma_bits(0, 0);
        lemma_xor(0, 0, 0, 0);
        assert(gf_mul_bits(xtime(a), 0, 0) == 0);
    } else {
        lemma_mul_bits_small(xtime(a), b >> 1, (n - 1) as nat);
    }
}

/// Doubling a right factor that has its highest bit clear doubles the
/// product.
proof fn lemma_mul_shift_right_factor(a: u8, b: u8)
    requires
        b < 128,
    ensures
        gf_mul(a, b << 1) == xtime(gf_mul(a, b)),
{
    lemma_bits(b, b);
    let rest = gf_mul_bits(xtime(a), b, 7);
    assert(gf_mul(a, b << 1) == 0u8 ^ rest);
    lemma_xor(rest, 0, 0, 0);
    lemma_mul_bits_xtime_left(a, b, 7);
    assert(two_pow(7) == 128) by {
        reveal_with_fuel(two_pow, 8);
    }
    lemma_mul_bits_small(a, b, 7);
}

/// The product with the polynomial x^7 doubled is the product with the
/// remainder of x^8.
proof fn lemma_mul_reduction(a: u8)
    ensures
        gf_mul(a, 0x1b) == xtime(gf_mul(a, 0x80)),
{
    let x1 = xtime(a);
    let x2 = xtime(x1);
    let x3 = xtime(x2);
    let x4 = xtime(x3);
    let x5 = xtime(x4);
    let x6 = xtime(x5);
    let x7 = xtime(x6);
    assert(1u8 << 1 == 2 && 2u8 << 1 == 4 && 4u8 << 1 == 8 && 8u8 << 1 == 0x10 && 0x10u8 << 1
        == 0x20 && 0x20u8 << 1 == 0x40 && 0x40u8 << 1 == 0x80 && 0x1bu8 == 0x10 ^ 0x0b && 0x0bu8
        == 0x08 ^ 0x03 && 0x03u8 == 0x02 ^ 0x01) by (bit_vector);
    lemma_mul_one(a);
    lemma_mul_shift_right_factor(a, 1);
    lemma_mul_shift_right_factor(a, 2);
    lemma_mul_shift_right_factor(a, 4);
    lemma_mul_shift_right_factor(a, 8);
    lemma_mul_shift_right_factor(a, 0x10);
    lemma_mul_shift_right_factor(a, 0x20);
    lemma_mul_shift_right_factor(a, 0x40);
    assert(gf_mul(a, 0x80) == x7);
    lemma_mul_xor_right(a, 0x10, 0x0b);
    lemma_mul_xor_right(a, 0x08, 0x03);
    lemma_mul_xor_right(a, 0x02, 0x01);
    assert(gf_mul(a, 0x1b) == x4 ^ (x3 ^ (x1 ^ a)));
    assert(xtime(x7) == x4 ^ (x3 ^ (x1 ^ a))) by (bit_vector)
        requires
            x1 == xtime(a),
            x2 == xtime(x1),
            x3 == xtime(x2),
            x4 == xtime(x3),
            x5 == xtime(x4),
            x6 == xtime(x5),
            x7 == xtime(x6),
    ;
}

/// Doubling the right factor doubles the product.
pub proof fn lemma_mul_xtime_right(a: u8, b: u8)
    ensures
        gf_mul(a, xtime(b)) == xtime(gf_mul(a, b)),
{
    let lo = b & 0x7f;
    let hi = b & 0x80;
    lemma_bits(b, b);
    lemma_xtime_xor(lo, hi);
    lemma_mul_xor_right(a, lo, hi);
    lemma_mul_xor_right(a, xtime(lo), xtime(hi));
    lemma_xtime_xor(gf_mul(a, lo), gf_mul(a, hi));
    lemma_xtime_xor(lo, lo);
    lemma_mul_shift_right_factor(a, lo);
    if hi == 0 {
        lemma_xtime_xor(0, 0);
        lemma_mul_bits_zero(a, 8);
    } else {
        assert(xtime(0x80) == 0x1b) by (bit_vector);
        lemma_mul_reduction(a);
    }
}

/// The product of a product with the lowest `n` bits of `c` is the product
/// of `a` with what `b` and those bits give.
proof fn lemma_mul_bits_assoc(a: u8, b: u8, c: u8, n: nat)
    ensures
        gf_mul_bits(gf_mul(a, b), c, n) == gf_mul(a, gf_mul_bits(b, c, n)),
    decreases n,
{
    lemma_mul_bits_zero(a, 8);
    if n > 0 {
        let m = (n - 1) as nat;
        lemma_mul_xtime_right(a, b);
        lemma_mul_bits_assoc(a, xtime(b), c >> 1, m);
        let tb = if c & 1 != 0 {
            b
        } else {
            0u8
        };
        lemma_mul_xor_right(a, tb, gf_mul_bits(xtime(b), c >> 1, m));
    }
}

/// The product is associative.
pub proof fn lemma_mul_assoc(a: u8, b: u8, c: u8)
    ensures
        gf_mul(gf_mul(a, b), c) == gf_mul(a, gf_mul(b, c)),
{
    lemma_mul_bits_assoc(a, b, c, 8);
}

/// A power whose exponent is a sum is the product of the powers.
pub proof fn lemma_pow_add(a: u8, m: nat, n: nat)
    ensures
        gf_pow(a, m + n) == gf_mul(gf_pow(a, m), gf_pow(a, n)),
    decreases m,
{
    if m == 0 {
        lemma_mul_one_left(gf_pow(a, n));
    } else {
        let k = (m - 1) as nat;
        lemma_pow_add(a, k, n);
        assert(gf_pow(a, m + n) == gf_mul(a, gf_pow(a, (k + n) as nat)));
        lemma_mul_assoc(a, gf_pow(a, k), gf_pow(a, n));
    }
}

/// The product distributes over exclusive-or in its left factor.
pub proof fn lemma_mul_bits_xor_left(a: u8, c: u8, b: u8, n: nat)
    ensures
        gf_mul_bits(a ^ c, b, n) == gf_mul_bits(a, b, n) ^ gf_mul_bits(c, b, n),
    decreases n,
{
    lemma_xor(0, 0, 0, 0);
    if n > 0 {
        let m = (n - 1) as nat;
        lemma_xtime_xor(a, c);
        lemma_mul_bits_xor_left(xtime(a), xtime(c), b >> 1, m);
        let ra = gf_mul_bits(xtime(a), b >> 1, m);
        let rc = gf_mul_bits(xtime(c), b >> 1, m);
        if b & 1 != 0 {
            lemma_xor(a, ra, c, rc);
        } else {
            lemma_xor(0, ra, 0, rc);
        }
    }
}

/// A product with zero on the left is zero.
pub proof fn lemma_mul_bits_zero_left(b: u8, n: nat)
    ensures
        gf_mul_bits(0, b, n) == 0,
    decreases n,
{
    if n > 0 {
        lemma_xtime_xor(0, 0);
        lemma_xor(0, 0, 0, 0);
        lemma_mul_bits_zero_left(b >> 1, (n - 1) as nat);
    }
}

/// Facts about a byte as its lowest bit and the rest doubled.
proof fn lemma_low_bit(b: u8)
    by (bit_vector)
    ensures
        b == (b & 1) ^ xtime(b >> 1),
        b & 1 == 0 || b & 1 == 1,
{
}

/// The sum over the lowest `n` bits of `b`, for a `b` that has no other
/// bits, is the product with the factors exchanged.
proof fn lemma_mul_bits_commutes(a: u8, b: u8, n: nat)
    requires
        b < two_pow(n),
    ensures
        gf_mul_bits(a, b, n) == gf_mul(b, a),
    decreases n,
{
    if n == 0 {
        lemma_mul_bits_zero_left(a, 8);
    } else {
        let m = (n - 1) as nat;
        let rest = b >> 1;
        lemma_bits(b, b);
        lemma_low_bit(b);
        lemma_mul_bits_commutes(a, rest, m);
        lemma_mul_bits_xtime_left(a, rest, m);
        lemma_mul_bits_xtime_left(rest, a, 8);
        lemma_mul_bits_xor_left(b & 1, xtime(rest), a, 8);
        lemma_mul_one_left(a);
        lemma_mul_bits_zero_left(a, 8);
    }
}

/// The product does not depend on the order of its factors.
pub proof fn lemma_mul_commutes(a: u8, b: u8)
    ensures
        gf_mul(a, b) == gf_mul(b, a),
{
    assert(two_pow(8) == 256) by {
        reveal_with_fuel(two_pow, 9);
    }
    lemma_mul_bits_commutes(a, b, 8);
}

/// A byte has at most one inverse.
pub proof fn lemma_inverse_unique(a: u8, b: u8, c: u8)
    requires
        gf_mul(a, b) == 1,
        gf_mul(a, c) == 1,
    ensures
        b == c,
{
    lemma_mul_one(b);
    lemma_mul_one_left(c);
    lemma_mul_commutes(a, b);
    lemma_mul_assoc(b, a, c);
}

/// Where `e2` is the square of `a`, each of `e4` to `e128` the square of
/// the one before, and `e6` to `e254` the running products of these, the
/// product of `a` and `e254` is one.
#[verifier::rlimit(100)]
proof fn lemma_inverse_chain(
    a: u8,
    e2: u8,
    e4: u8,
    e8: u8,
    e16: u8,
    e32: u8,
    e64: u8,
    e128: u8,
    e6: u8,
    e14: u8,
    e30: u8,
    e62: u8,
    e126: u8,
    e254: u8,
)
    by (bit_vector)
    requires
        a != 0,
        e2 == gf_mul(a, a),
        e4 == gf_mul(e2, e2),
        e8 == gf_mul(e4, e4),
        e16 == gf_mul(e8, e8),
        e32 == gf_mul(e16, e16),
        e64 == gf_mul(e32, e32),
        e128 == gf_mul(e64, e64),
        e6 == gf_mul(e2, e4),
        e14 == gf_mul(e6, e8),
        e30 == gf_mul(e14, e16),
        e62 == gf_mul(e30, e32),
        e126 == gf_mul(e62, e64),
        e254 == gf_mul(e126, e128),
    ensures
        gf_mul(a, e254) == 1,
{
}

/// The 254th power of a byte other than zero is an inverse of it.
pub proof fn lemma_pow_254_inverts(a: u8)
    requires
        a != 0,
    ensures
        gf_mul(a, gf_pow(a, 254)) == 1,
{
    lemma_mul_one(a);
    assert(gf_pow(a, 1) == gf_mul(a, gf_pow(a, 0)));
    lemma_pow_add(a, 1, 1);
    lemma_pow_add(a, 2, 2);
    lemma_pow_add(a, 4, 4);
    lemma_pow_add(a, 8, 8);
    lemma_pow_add(a, 16, 16);
    lemma_pow_add(a, 32, 32);
    lemma_pow_add(a, 64, 64);
    lemma_pow_add(a, 2, 4);
    lemma_pow_add(a, 6, 8);
    lemma_pow_add(a, 14, 16);
    lemma_pow_add(a, 30, 32);
    lemma_pow_add(a, 62, 64);
    lemma_pow_add(a, 126, 128);
    lemma_inverse_chain(
        a,
        gf_pow(a, 2),
        gf_pow(a, 4),
        gf_pow(a, 8),
        gf_pow(a, 16),
        gf_pow(a, 32),
        gf_pow(a, 64),
        gf_pow(a, 128),
        gf_pow(a, 6),
        gf_pow(a, 14),
        gf_pow(a, 30),
        gf_pow(a, 62),
        gf_pow(a, 126),
        gf_pow(a, 254),
    );
}

/// Every byte other than zero has an inverse, and the inverse is its 254th
/// power; the 254th power of zero is zero.
pub proof fn lemma_inv_is_pow_254(a: u8)
    ensures
        gf_inv(a) == gf_pow(a, 254),
        a != 0 ==> gf_mul(a, gf_inv(a)) == 1,
{
    if a == 0 {
        lemma_mul_bits_zero_left(gf_pow(a, 253), 8);
    } else {
        lemma_pow_254_inverts(a);
        lemma_inverse_unique(a, gf_inv(a), gf_pow(a, 254));
    }
}

} // verus!
