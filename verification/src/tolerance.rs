//! Membership of the cutting plane, decided on the bit pattern of a
//! single-precision height.
//!
//! A binary32 pattern holds a sign bit, an eight-bit exponent field and a
//! 23-bit fraction field. Its magnitude is `significand * 2^scale`, and a
//! vertex lies on the plane when that magnitude is strictly below `10^-8`.

use vstd::arithmetic::power2::{lemma2_to64, lemma2_to64_rest, lemma_pow2_strictly_increases, pow2};
use vstd::prelude::*;

verus! {

/// The smallest magnitude pattern that is no longer on the plane.
pub const PLANE_LIMIT: u32 = 0x322B_CC78;

/// The pattern with its sign bit cleared.
pub open spec fn magnitude_bits(bits: u32) -> u32 {
    bits & 0x7FFF_FFFF
}

/// The biased exponent, `0..=255`.
pub open spec fn exponent_field(bits: u32) -> int {
    ((bits >> 23) & 0xFF) as int
}

/// The stored fraction, `0..2^23`.
pub open spec fn fraction_field(bits: u32) -> int {
    (bits & 0x7F_FFFF) as int
}

/// The integer `m` with `|value| == m * 2^scale`: the fraction alone for a
/// subnormal, the fraction with the hidden leading bit otherwise.
pub open spec fn significand(bits: u32) -> int {
    if exponent_field(bits) == 0 {
        fraction_field(bits)
    } else {
        0x80_0000 + fraction_field(bits)
    }
}

/// The power of two that the significand is multiplied by.
pub open spec fn scale(bits: u32) -> int {
    (if exponent_field(bits) == 0 {
        1
    } else {
        exponent_field(bits)
    }) - 150
}

/// Neither an infinity nor a NaN.
pub open spec fn is_finite(bits: u32) -> bool {
    exponent_field(bits) != 255
}

/// The value is finite and `|value| * 10^8 < 1`, written without fractions:
/// `significand * 10^8 * 2^max(scale, 0) < 2^max(-scale, 0)`.
pub open spec fn within_tolerance(bits: u32) -> bool {
    let s = scale(bits);
    let up: nat = if s >= 0 { s as nat } else { 0 };
    let down: nat = if s < 0 { (-s) as nat } else { 0 };
    is_finite(bits) && significand(bits) * 100_000_000 * pow2(up) < pow2(down)
}

proof fn lemma_fields(bits: u32)
    ensures
        0 <= exponent_field(bits) <= 255,
        0 <= fraction_field(bits) < 0x80_0000,
        magnitude_bits(bits) == exponent_field(bits) * 0x80_0000 + fraction_field(bits),
{
    assert(((bits >> 23) & 0xFF) <= 255) by (bit_vector);
    assert((bits & 0x7F_FFFF) < 0x80_0000) by (bit_vector);
    assert((bits & 0x7FFF_FFFF) == ((bits >> 23) & 0xFF) * 0x80_0000 + (bits & 0x7F_FFFF))
        by (bit_vector);
}

/// A height is within the tolerance exactly when its magnitude pattern is
/// below [`PLANE_LIMIT`]: positive binary32 values are ordered as their
/// patterns are, and `PLANE_LIMIT` is the first of them that reaches `10^-8`.
pub proof fn lemma_tolerance_is_a_threshold(bits: u32)
    ensures
        within_tolerance(bits) <==> magnitude_bits(bits) < PLANE_LIMIT,
{
    lemma_fields(bits);
    lemma2_to64();
    lemma2_to64_rest();
    let e = exponent_field(bits);
    let m = significand(bits);
    let s = scale(bits);
    let up: nat = if s >= 0 { s as nat } else { 0 };
    let down: nat = if s < 0 { (-s) as nat } else { 0 };
    let lhs = m * 100_000_000 * pow2(up);
    if e == 255 {
        assert(magnitude_bits(bits) >= PLANE_LIMIT);
    } else if e >= 150 {
        let p = pow2(up);
        assert(p >= 1) by {
            if up > 0 {
                lemma_pow2_strictly_increases(0, up);
            }
        }
        assert(m * 100_000_000 * p >= 1) by (nonlinear_arith)
            requires
                m >= 0x80_0000,
                p >= 1,
        ;
        assert(pow2(down) == 1);
        assert(!within_tolerance(bits));
    } else {
        assert(lhs == m * 100_000_000) by (nonlinear_arith)
            requires
                lhs == m * 100_000_000 * pow2(up),
                pow2(up) == 1,
        ;
        if e > 100 {
            assert(pow2(down) <= pow2(49)) by {
                if down < 49 {
                    lemma_pow2_strictly_increases(down, 49);
                }
            }
            assert(!within_tolerance(bits));
        } else if e == 100 {
            assert(down == 50);
        } else {
            assert(pow2(down) >= pow2(51)) by {
                if down > 51 {
                    lemma_pow2_strictly_increases(51, down);
                }
            }
            assert(within_tolerance(bits));
        }
    }
}

/// Whether a vertex of this height lies on the cutting plane.
pub fn on_cutting_plane(z_bits: u32) -> (on_plane: bool)
    ensures
        on_plane == within_tolerance(z_bits),
{
    proof {
        lemma_tolerance_is_a_threshold(z_bits);
    }
    (z_bits & 0x7FFF_FFFF) < PLANE_LIMIT
}

} // verus!
