//! IEEE 754 single-precision data by their 32-bit encodings.
//!
//! An encoding has a sign bit, eight bits of biased exponent and 23 bits of
//! fraction. Every datum that is not a NaN is placed on the integer line by
//! `ordinate`: a finite datum at its value times 2^149 (an integer, since
//! the least positive datum is 2^-149), the two infinities at plus and minus
//! 2^277, beyond every finite datum. The ordered comparisons are stated over
//! that line.

use vstd::prelude::*;
use vstd::arithmetic::power2::pow2;
use vstd::arithmetic::power2::lemma_pow2_pos;
use vstd::arithmetic::power2::lemma_pow2_unfold;
use vstd::arithmetic::power2::lemma_pow2_strictly_increases;

verus! {

/// The encoding of positive infinity: exponent field all ones, fraction zero.
pub const INFINITY_BITS: u32 = 0x7f80_0000;

/// The least encoding with the sign bit set (that of negative zero).
pub const SIGN_BIT: u32 = 0x8000_0000;

/// The encoding without its sign bit.
pub open spec fn magnitude_bits(bits: u32) -> nat {
    (bits % 0x8000_0000) as nat
}

/// Whether the sign bit is set.
pub open spec fn sign_set(bits: u32) -> bool {
    bits >= 0x8000_0000
}

/// The biased exponent, 0 to 255.
pub open spec fn exponent_field(bits: u32) -> nat {
    (bits / 0x80_0000 % 0x100) as nat
}

/// The 23 fraction bits.
pub open spec fn fraction_field(bits: u32) -> nat {
    (bits % 0x80_0000) as nat
}

/// A NaN has an exponent field of all ones and a fraction that is not zero.
pub open spec fn nan(bits: u32) -> bool {
    exponent_field(bits) == 255 && fraction_field(bits) != 0
}

/// The absolute value times 2^149. A subnormal datum (exponent field 0) is
/// its fraction; a normal one has the implicit leading bit and is scaled by
/// its exponent. An infinity lands on 2^277.
pub open spec fn magnitude(bits: u32) -> nat {
    if exponent_field(bits) == 0 {
        fraction_field(bits)
    } else {
        (0x80_0000 + fraction_field(bits)) * pow2((exponent_field(bits) - 1) as nat)
    }
}

/// The place of a datum that is not a NaN on the integer line.
pub open spec fn ordinate(bits: u32) -> int {
    if sign_set(bits) {
        -(magnitude(bits) as int)
    } else {
        magnitude(bits) as int
    }
}

/// IEEE 754 `<`: false if either side is a NaN, else the order of the values.
/// The two zeros are equal, so neither is less than the other.
pub open spec fn lt(a: u32, b: u32) -> bool {
    !nan(a) && !nan(b) && ordinate(a) < ordinate(b)
}

/// IEEE 754 `>`: false if either side is a NaN, else the order of the values.
pub open spec fn gt(a: u32, b: u32) -> bool {
    !nan(a) && !nan(b) && ordinate(a) > ordinate(b)
}

/// The fields of an encoding in terms of its magnitude bits.
pub proof fn lemma_fields(bits: u32)
    ensures
        magnitude_bits(bits) == exponent_field(bits) * 0x80_0000 + fraction_field(bits),
        exponent_field(bits) <= 255,
        fraction_field(bits) < 0x80_0000,
        nan(bits) <==> magnitude_bits(bits) > INFINITY_BITS,
{
    assert(bits % 0x8000_0000 == (bits / 0x80_0000 % 0x100) * 0x80_0000 + bits % 0x80_0000
        && bits / 0x80_0000 % 0x100 <= 255 && bits % 0x80_0000 < 0x80_0000) by (bit_vector);
}

/// The encoding read as a sign-and-magnitude integer: the low 31 bits,
/// negated where the sign bit is set. Both zeros have rank 0.
pub open spec fn rank(bits: u32) -> int {
    if sign_set(bits) {
        -(magnitude_bits(bits) as int)
    } else {
        magnitude_bits(bits) as int
    }
}

/// A larger magnitude encoding is a larger magnitude: the format lays its
/// fields out so that the integer order of the low 31 bits is the order of
/// the absolute values.
pub proof fn lemma_magnitude_increases(a: u32, b: u32)
    requires
        magnitude_bits(a) < magnitude_bits(b),
    ensures
        magnitude(a) < magnitude(b),
{
    lemma_fields(a);
    lemma_fields(b);
    let ea = exponent_field(a);
    let eb = exponent_field(b);
    let fa = fraction_field(a);
    let fb = fraction_field(b);
    if ea == eb {
        if ea != 0 {
            let p = pow2((ea - 1) as nat);
            lemma_pow2_pos((ea - 1) as nat);
            assert((0x80_0000 + fa) * p < (0x80_0000 + fb) * p) by (nonlinear_arith)
                requires
                    fa < fb,
                    p > 0,
            ;
        }
    } else {
        assert(ea < eb) by (nonlinear_arith)
            requires
                ea * 0x80_0000 + fa < eb * 0x80_0000 + fb,
                fa < 0x80_0000,
                fb < 0x80_0000,
                ea != eb,
        ;
        let q = pow2((eb - 1) as nat);
        lemma_pow2_pos((eb - 1) as nat);
        assert(0x80_0000 * q <= (0x80_0000 + fb) * q) by (nonlinear_arith)
            requires
                q > 0,
        ;
        if ea == 0 {
            assert(0x80_0000 <= 0x80_0000 * q) by (nonlinear_arith)
                requires
                    q > 0,
            ;
        } else {
            let p = pow2((ea - 1) as nat);
            lemma_pow2_pos((ea - 1) as nat);
            lemma_pow2_unfold(ea);
            if ea < eb - 1 {
                lemma_pow2_strictly_increases(ea, (eb - 1) as nat);
            }
            assert((0x80_0000 + fa) * p < 0x80_0000 * q) by (nonlinear_arith)
                requires
                    fa < 0x80_0000,
                    p > 0,
                    2 * p <= q,
            ;
        }
    }
}

/// Only the two zeros have magnitude zero.
pub proof fn lemma_magnitude_zero(bits: u32)
    ensures
        magnitude(bits) == 0 <==> magnitude_bits(bits) == 0,
{
    lemma_fields(bits);
    let e = exponent_field(bits);
    let f = fraction_field(bits);
    if e != 0 {
        let p = pow2((e - 1) as nat);
        lemma_pow2_pos((e - 1) as nat);
        assert((0x80_0000 + f) * p > 0) by (nonlinear_arith)
            requires
                p > 0,
        ;
    }
}

/// The order of the values is the order of the ranks, so two data can be
/// compared on their encodings alone.
pub proof fn lemma_rank_orders(a: u32, b: u32)
    ensures
        ordinate(a) < ordinate(b) <==> rank(a) < rank(b),
{
    lemma_magnitude_zero(a);
    lemma_magnitude_zero(b);
    if magnitude_bits(a) < magnitude_bits(b) {
        lemma_magnitude_increases(a, b);
    } else if magnitude_bits(b) < magnitude_bits(a) {
        lemma_magnitude_increases(b, a);
    } else {
        lemma_fields(a);
        lemma_fields(b);
        assert(exponent_field(a) == exponent_field(b) && fraction_field(a) == fraction_field(b))
            by (nonlinear_arith)
            requires
                exponent_field(a) * 0x80_0000 + fraction_field(a) == exponent_field(b) * 0x80_0000
                    + fraction_field(b),
                fraction_field(a) < 0x80_0000,
                fraction_field(b) < 0x80_0000,
        ;
    }
}

/// Whether the encoding is a NaN.
pub fn is_nan(bits: u32) -> (r: bool)
    ensures
        r == nan(bits),
{
    proof {
        lemma_fields(bits);
    }
    bits % SIGN_BIT > INFINITY_BITS
}

/// IEEE 754 `<` on two encodings.
pub fn less_than(a: u32, b: u32) -> (r: bool)
    ensures
        r == lt(a, b),
{
    if is_nan(a) || is_nan(b) {
        return false;
    }
    proof {
        lemma_rank_orders(a, b);
    }
    let ma: u32 = a % SIGN_BIT;
    let mb: u32 = b % SIGN_BIT;
    if a >= SIGN_BIT {
        if b >= SIGN_BIT {
            mb < ma
        } else {
            ma != 0 || mb != 0
        }
    } else {
        if b >= SIGN_BIT {
            false
        } else {
            ma < mb
        }
    }
}

/// IEEE 754 `>` on two encodings.
pub fn greater_than(a: u32, b: u32) -> (r: bool)
    ensures
        r == gt(a, b),
{
    less_than(b, a)
}

} // verus!
