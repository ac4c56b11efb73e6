//! Spectral magnitudes as exact numbers.
//!
//! A transform hands its magnitudes over as single-precision numbers in the
//! IEEE 754 binary interchange format: one sign bit, eight exponent bits and
//! twenty-three fraction bits. This module reads such a bit pattern as the
//! integer number of steps of 2^-149 that it stands for, so that magnitudes are
//! compared and divided without rounding.
use vstd::arithmetic::power2::lemma2_to64;
use vstd::arithmetic::power2::lemma_pow2_pos;
use vstd::arithmetic::power2::lemma_pow2_strictly_increases;
use vstd::arithmetic::power2::lemma_pow2_unfold;
use vstd::arithmetic::power2::pow2;
use vstd::prelude::*;

verus! {

/// The number of values that the fraction field can hold: 2^23.
pub const FRACTION_SPAN: u32 = 0x80_0000;

/// The bit pattern of the largest finite number. Every pattern up to it
/// encodes a finite number that is not negative; the patterns above it encode
/// infinity, the results of invalid operations, and the negative numbers.
pub const LARGEST_FINITE: u32 = 0x7f7f_ffff;

/// Whether a bit pattern encodes a magnitude: a finite number, zero or above.
pub open spec fn is_magnitude_bits(bits: u32) -> bool {
    bits <= LARGEST_FINITE
}

/// The significand of the encoded number, with the implicit leading bit of a
/// normal number written out.
pub open spec fn significand(bits: u32) -> nat {
    if bits / FRACTION_SPAN == 0 {
        (bits % FRACTION_SPAN) as nat
    } else {
        (FRACTION_SPAN + bits % FRACTION_SPAN) as nat
    }
}

/// The power of two by which the significand is scaled, counted from the
/// smallest one, 2^-149. Subnormal numbers share the lowest power with the
/// smallest normal numbers.
pub open spec fn binade(bits: u32) -> nat {
    if bits / FRACTION_SPAN == 0 {
        0
    } else {
        (bits / FRACTION_SPAN - 1) as nat
    }
}

/// The encoded number in steps of 2^-149: the number that a magnitude's
/// bit pattern encodes is `magnitude_value(bits)` times 2^-149.
pub open spec fn magnitude_value(bits: u32) -> nat {
    significand(bits) * pow2(binade(bits))
}

/// Only the all-zero pattern encodes zero.
pub proof fn lemma_value_zero(bits: u32)
    ensures
        magnitude_value(bits) == 0 <==> bits == 0,
{
    lemma_pow2_pos(binade(bits));
    let scale = pow2(binade(bits)) as int;
    let digits = significand(bits) as int;
    if bits != 0 {
        assert(digits > 0);
        assert(digits * scale > 0) by (nonlinear_arith)
            requires
                digits > 0,
                scale > 0,
        ;
    } else {
        assert(digits * scale == 0) by (nonlinear_arith)
            requires
                digits == 0,
        ;
    }
}

/// A larger bit pattern encodes a larger number.
pub proof fn lemma_value_strictly_increasing(lower: u32, upper: u32)
    requires
        lower < upper,
    ensures
        magnitude_value(lower) < magnitude_value(upper),
{
    let low_digits = significand(lower) as int;
    let up_digits = significand(upper) as int;
    let low_scale = pow2(binade(lower)) as int;
    let up_scale = pow2(binade(upper)) as int;
    lemma_pow2_pos(binade(lower));
    lemma_pow2_pos(binade(upper));
    if lower / FRACTION_SPAN == upper / FRACTION_SPAN {
        assert(low_digits < up_digits);
        assert(low_digits * low_scale < up_digits * up_scale) by (nonlinear_arith)
            requires
                low_digits < up_digits,
                low_scale == up_scale,
                low_scale > 0,
        ;
    } else if lower / FRACTION_SPAN == 0 {
        assert(pow2(0) == 1) by {
            lemma2_to64();
        }
        assert(low_digits * low_scale < up_digits * up_scale) by (nonlinear_arith)
            requires
                low_digits < up_digits,
                low_scale == 1,
                up_scale >= 1,
                low_digits >= 0,
        ;
    } else {
        let next_scale = pow2(binade(lower) + 1) as int;
        lemma_pow2_unfold(binade(lower) + 1);
        assert(next_scale == 2 * low_scale);
        if binade(lower) + 1 < binade(upper) {
            lemma_pow2_strictly_increases(binade(lower) + 1, binade(upper));
        }
        assert(next_scale <= up_scale);
        assert(low_digits * low_scale < up_digits * up_scale) by (nonlinear_arith)
            requires
                low_digits < 2 * FRACTION_SPAN,
                up_digits >= FRACTION_SPAN,
                2 * low_scale <= up_scale,
                low_scale > 0,
        ;
    }
}

/// Comparing bit patterns compares the numbers that they encode.
pub proof fn lemma_value_order(left: u32, right: u32)
    ensures
        left <= right <==> magnitude_value(left) <= magnitude_value(right),
        left == right <==> magnitude_value(left) == magnitude_value(right),
{
    if left < right {
        lemma_value_strictly_increasing(left, right);
    }
    if right < left {
        lemma_value_strictly_increasing(right, left);
    }
}

/// Reads the significand out of a bit pattern.
pub fn significand_of(bits: u32) -> (digits: u32)
    ensures
        digits == significand(bits),
        digits < 2 * FRACTION_SPAN,
        bits >= FRACTION_SPAN ==> digits >= FRACTION_SPAN,
{
    if bits / FRACTION_SPAN == 0 {
        bits % FRACTION_SPAN
    } else {
        FRACTION_SPAN + bits % FRACTION_SPAN
    }
}

/// Reads the power of two out of a bit pattern.
pub fn binade_of(bits: u32) -> (power: u32)
    ensures
        power == binade(bits),
        power <= 510,
{
    if bits / FRACTION_SPAN == 0 {
        0
    } else {
        bits / FRACTION_SPAN - 1
    }
}

} // verus!
