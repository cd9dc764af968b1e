//! Order of double-precision values, decided on their bit patterns.
//!
//! A binary64 pattern holds a sign bit, an eleven-bit exponent field and a
//! 52-bit fraction field. Every finite value is a whole number of units of
//! `2^-1074`, the smallest subnormal, and the order of the values is the
//! order of these whole numbers. An infinity is given the count that the
//! same formula yields, which lies beyond every finite one. A NaN is
//! neither below nor above anything.

use vstd::arithmetic::power2::{lemma_pow2_pos, lemma_pow2_strictly_increases, lemma_pow2_unfold, pow2};
use vstd::prelude::*;

verus! {

/// Every bit but the sign bit.
pub const MAGNITUDE_MASK: u64 = 0x7FFF_FFFF_FFFF_FFFF;

/// The magnitude pattern of an infinity; a larger one is a NaN.
pub const INFINITY: u64 = 0x7FF0_0000_0000_0000;

/// The pattern of positive zero.
pub const ZERO: u64 = 0;

/// The pattern with its sign bit cleared.
pub open spec fn magnitude_bits(bits: u64) -> u64 {
    bits & MAGNITUDE_MASK
}

/// The sign bit is set.
pub open spec fn is_negative(bits: u64) -> bool {
    bits & 0x8000_0000_0000_0000 != 0
}

/// The biased exponent, `0..=2047`.
pub open spec fn exponent_field(bits: u64) -> int {
    ((bits >> 52) & 0x7FF) as int
}

/// The stored fraction, `0..2^52`.
pub open spec fn fraction_field(bits: u64) -> int {
    (bits & 0xF_FFFF_FFFF_FFFF) as int
}

/// The pattern stands for no number.
pub open spec fn is_nan(bits: u64) -> bool {
    exponent_field(bits) == 2047 && fraction_field(bits) != 0
}

/// The fraction alone for a subnormal, the fraction with the hidden leading
/// bit otherwise.
pub open spec fn significand(bits: u64) -> int {
    if exponent_field(bits) == 0 {
        fraction_field(bits)
    } else {
        0x10_0000_0000_0000 + fraction_field(bits)
    }
}

/// The power of two, counted from `2^-1074`, that the significand is
/// multiplied by.
pub open spec fn shift(bits: u64) -> nat {
    if exponent_field(bits) <= 1 {
        0
    } else {
        (exponent_field(bits) - 1) as nat
    }
}

/// The absolute value in units of `2^-1074`.
pub open spec fn magnitude(bits: u64) -> nat {
    (significand(bits) * pow2(shift(bits))) as nat
}

/// The value in units of `2^-1074`.
pub open spec fn units(bits: u64) -> int {
    if is_negative(bits) {
        -(magnitude(bits) as int)
    } else {
        magnitude(bits) as int
    }
}

/// `a <= b` as numbers.
pub open spec fn less_or_equal(a: u64, b: u64) -> bool {
    !is_nan(a) && !is_nan(b) && units(a) <= units(b)
}

/// `a < b` as numbers.
pub open spec fn less_than(a: u64, b: u64) -> bool {
    !is_nan(a) && !is_nan(b) && units(a) < units(b)
}

proof fn lemma_fields(bits: u64)
    ensures
        0 <= exponent_field(bits) <= 2047,
        0 <= fraction_field(bits) < 0x10_0000_0000_0000,
        magnitude_bits(bits) == exponent_field(bits) * 0x10_0000_0000_0000 + fraction_field(bits),
        is_negative(bits) <==> bits > MAGNITUDE_MASK,
        is_nan(bits) <==> magnitude_bits(bits) > INFINITY,
{
    assert(((bits >> 52) & 0x7FF) <= 2047) by (bit_vector);
    assert((bits & 0xF_FFFF_FFFF_FFFF) < 0x10_0000_0000_0000) by (bit_vector);
    assert((bits & 0x7FFF_FFFF_FFFF_FFFF) == ((bits >> 52) & 0x7FF) * 0x10_0000_0000_0000 + (bits
        & 0xF_FFFF_FFFF_FFFF)) by (bit_vector);
    assert((bits & 0x8000_0000_0000_0000 != 0) <==> bits > 0x7FFF_FFFF_FFFF_FFFF) by (bit_vector);
}

/// Magnitudes are ordered as their patterns are.
pub proof fn lemma_magnitude_order(a: u64, b: u64)
    ensures
        magnitude_bits(a) < magnitude_bits(b) <==> magnitude(a) < magnitude(b),
        magnitude_bits(a) == magnitude_bits(b) <==> magnitude(a) == magnitude(b),
{
    lemma_fields(a);
    lemma_fields(b);
    if magnitude_bits(a) < magnitude_bits(b) {
        lemma_magnitude_increases(a, b);
    } else if magnitude_bits(b) < magnitude_bits(a) {
        lemma_magnitude_increases(b, a);
    }
}

proof fn lemma_magnitude_increases(a: u64, b: u64)
    requires
        magnitude_bits(a) < magnitude_bits(b),
    ensures
        magnitude(a) < magnitude(b),
{
    lemma_fields(a);
    lemma_fields(b);
    let sa = significand(a);
    let sb = significand(b);
    let pa = pow2(shift(a)) as int;
    let pb = pow2(shift(b)) as int;
    lemma_pow2_pos(shift(a));
    lemma_pow2_pos(shift(b));
    if shift(a) == shift(b) {
        assert(sa < sb);
        assert(sa * pa < sb * pb) by (nonlinear_arith)
            requires
                0 <= sa < sb,
                pa == pb,
                pa > 0,
        ;
    } else {
        assert(shift(a) < shift(b));
        lemma_pow2_unfold(shift(a) + 1);
        if shift(a) + 1 < shift(b) {
            lemma_pow2_strictly_increases(shift(a) + 1, shift(b));
        }
        assert(2 * pa <= pb);
        assert(sa * pa < sb * pb) by (nonlinear_arith)
            requires
                0 <= sa < 0x20_0000_0000_0000,
                sb >= 0x10_0000_0000_0000,
                pa > 0,
                2 * pa <= pb,
        ;
    }
}

proof fn lemma_zero()
    ensures
        magnitude_bits(ZERO) == 0,
        magnitude(ZERO) == 0,
        units(ZERO) == 0,
        !is_nan(ZERO),
{
    lemma_fields(ZERO);
    assert(0u64 & 0x7FFF_FFFF_FFFF_FFFF == 0) by (bit_vector);
    assert(significand(ZERO) == 0);
    assert(0 * pow2(shift(ZERO)) == 0);
}

/// Whether the pattern stands for no number.
pub fn is_not_a_number(bits: u64) -> (nan: bool)
    ensures
        nan == is_nan(bits),
{
    proof {
        lemma_fields(bits);
    }
    (bits & MAGNITUDE_MASK) > INFINITY
}

/// Whether `a <= b` as numbers. Zero of either sign is the same number, and
/// a NaN on either side makes the answer `false`.
pub fn is_less_or_equal(a: u64, b: u64) -> (holds: bool)
    ensures
        holds == less_or_equal(a, b),
{
    proof {
        lemma_fields(a);
        lemma_fields(b);
        lemma_magnitude_order(a, b);
        lemma_magnitude_order(a, ZERO);
        lemma_magnitude_order(b, ZERO);
        lemma_zero();
    }
    let magnitude_a = a & MAGNITUDE_MASK;
    let magnitude_b = b & MAGNITUDE_MASK;
    if magnitude_a > INFINITY || magnitude_b > INFINITY {
        false
    } else if a > MAGNITUDE_MASK {
        if b > MAGNITUDE_MASK {
            magnitude_b <= magnitude_a
        } else {
            true
        }
    } else {
        if b > MAGNITUDE_MASK {
            magnitude_a == 0 && magnitude_b == 0
        } else {
            magnitude_a <= magnitude_b
        }
    }
}

/// Whether `a < b` as numbers. A NaN on either side makes the answer
/// `false`.
pub fn is_less_than(a: u64, b: u64) -> (holds: bool)
    ensures
        holds == less_than(a, b),
{
    !is_not_a_number(a) && !is_not_a_number(b) && !is_less_or_equal(b, a)
}

} // verus!
