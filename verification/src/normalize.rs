//! From a band peak to a colour channel: the peak's share of the largest peak
//! of its window, on the scale from 0 to 255.
use crate::magnitude::binade;
use crate::magnitude::binade_of;
use crate::magnitude::lemma_value_order;
use crate::magnitude::lemma_value_zero;
use crate::magnitude::magnitude_value;
use crate::magnitude::significand;
use crate::magnitude::significand_of;
use crate::magnitude::FRACTION_SPAN;
use vstd::arithmetic::div_mod::lemma_basic_div;
use vstd::arithmetic::div_mod::lemma_div_is_ordered;
use vstd::arithmetic::div_mod::lemma_div_multiples_vanish;
use vstd::arithmetic::div_mod::lemma_div_multiples_vanish_quotient;
use vstd::arithmetic::power2::lemma2_to64;
use vstd::arithmetic::power2::lemma2_to64_rest;
use vstd::arithmetic::power2::lemma_pow2_adds;
use vstd::arithmetic::power2::lemma_pow2_pos;
use vstd::arithmetic::power2::lemma_pow2_strictly_increases;
use vstd::arithmetic::power2::lemma_pow2_unfold;
use vstd::arithmetic::power2::pow2;
use vstd::prelude::*;

verus! {

/// A colour: the levels of red, green and blue.
pub type Color = (u8, u8, u8);

/// The brightest level of a colour channel.
pub const FULL_LEVEL: u8 = 255;

/// The largest gap between the powers of two of a peak and of its scale at
/// which the peak can still reach half a level.
pub const WIDEST_GAP: u32 = 33;

/// The quotient rounded to the nearest whole number, halves upwards.
pub open spec fn round_div(numerator: nat, denominator: nat) -> nat {
    (2 * numerator + denominator) / (2 * denominator)
}

/// The level of a channel whose band peaks at `peak` in a window whose
/// largest peak is `scale`: `255 * peak / scale`, rounded and kept within the
/// channel's range. A window without any energy is black.
pub open spec fn channel_level(peak: nat, scale: nat) -> nat {
    if scale == 0 {
        0
    } else if round_div(255 * peak, scale) > 255 {
        255
    } else {
        round_div(255 * peak, scale)
    }
}

/// A peak that is no larger than the scale needs no clamping.
pub proof fn lemma_level_in_range(peak: nat, scale: nat)
    requires
        peak <= scale,
        0 < scale,
    ensures
        round_div(255 * peak, scale) <= 255,
        channel_level(peak, scale) == round_div(255 * peak, scale),
{
    let numerator = (2 * (255 * peak) + scale) as int;
    let denominator = (2 * scale) as int;
    assert(numerator <= denominator * 255 + scale);
    lemma_div_is_ordered(numerator, denominator * 255 + scale, denominator);
    assert((denominator * 255 + scale) / denominator == 255) by (nonlinear_arith)
        requires
            0 < scale,
            denominator == 2 * scale,
    ;
}

/// A peak as large as the scale is at the full level.
pub proof fn lemma_level_saturates(peak: nat, scale: nat)
    requires
        scale <= peak,
        0 < scale,
    ensures
        channel_level(peak, scale) == 255,
{
    let numerator = (2 * (255 * peak) + scale) as int;
    let denominator = (2 * scale) as int;
    assert(denominator * 255 <= numerator);
    lemma_div_is_ordered(denominator * 255, numerator, denominator);
    lemma_div_multiples_vanish(255, denominator);
}

/// The level of a peak below the scale, from the two bit patterns: only the
/// distance between their powers of two matters.
pub proof fn lemma_level_from_bits(peak: u32, scale: u32)
    requires
        peak < scale,
    ensures
        binade(peak) <= binade(scale),
        0 < significand(scale),
        ({
            let gap = (binade(scale) - binade(peak)) as nat;
            let widened = significand(scale) * pow2(gap);
            channel_level(magnitude_value(peak), magnitude_value(scale))
                == (510 * significand(peak) + widened) / (2 * widened)
        }),
{
    let gap = (binade(scale) - binade(peak)) as nat;
    let unit = pow2(binade(peak)) as int;
    let spread = pow2(gap) as int;
    let peak_digits = significand(peak) as int;
    let scale_digits = significand(scale) as int;
    let widened = scale_digits * spread;
    lemma_pow2_pos(binade(peak));
    lemma_pow2_pos(gap);
    lemma_pow2_adds(gap, binade(peak));
    assert(pow2(binade(scale)) == spread * unit);
    assert(scale_digits * (spread * unit) == unit * widened) by (nonlinear_arith)
        requires
            widened == scale_digits * spread,
    ;
    assert(widened > 0) by (nonlinear_arith)
        requires
            widened == scale_digits * spread,
            scale_digits > 0,
            spread > 0,
    ;
    let peak_value = magnitude_value(peak);
    let scale_value = magnitude_value(scale);
    assert(scale_value == unit * widened);
    lemma_value_order(peak, scale);
    lemma_value_zero(scale);
    lemma_level_in_range(peak_value, scale_value);
    let above = 510 * peak_digits + widened;
    let below = 2 * widened;
    assert(2 * (255 * peak_value) + scale_value == unit * above) by (nonlinear_arith)
        requires
            peak_value == peak_digits * unit,
            scale_value == unit * widened,
            above == 510 * peak_digits + widened,
    ;
    assert(2 * scale_value == unit * below) by (nonlinear_arith)
        requires
            scale_value == unit * widened,
            below == 2 * widened,
    ;
    lemma_div_multiples_vanish_quotient(unit, above, below);
}

/// Doubles the digits `gap` times.
fn widen(digits: u64, gap: u32) -> (widened: u64)
    requires
        digits < 2 * FRACTION_SPAN,
        gap <= WIDEST_GAP,
    ensures
        widened == digits * pow2(gap as nat),
        widened < 0x200_0000_0000_0000,
{
    let mut widened: u64 = digits;
    let mut doubled: u32 = 0;
    proof {
        lemma2_to64();
    }
    while doubled < gap
        invariant
            doubled <= gap <= WIDEST_GAP,
            digits < 2 * FRACTION_SPAN,
            widened == digits * pow2(doubled as nat),
        decreases gap - doubled,
    {
        proof {
            lemma2_to64_rest();
            lemma_pow2_unfold((doubled + 1) as nat);
            if doubled + 1 < 33 {
                lemma_pow2_strictly_increases((doubled + 1) as nat, 33);
            }
            let before = pow2(doubled as nat) as int;
            let after = pow2((doubled + 1) as nat) as int;
            assert(2 * (digits * before) == digits * after
                && digits * after < 0x200_0000_0000_0000) by (nonlinear_arith)
                requires
                    after == 2 * before,
                    after <= 0x2_0000_0000,
                    0 <= digits < 0x100_0000,
            ;
        }
        widened = 2 * widened;
        doubled += 1;
    }
    proof {
        lemma2_to64_rest();
        if gap < 33 {
            lemma_pow2_strictly_increases(gap as nat, 33);
        }
        let spread = pow2(gap as nat) as int;
        assert(digits * spread < 0x200_0000_0000_0000) by (nonlinear_arith)
            requires
                spread <= 0x2_0000_0000,
                0 <= digits < 0x100_0000,
        ;
    }
    widened
}

/// The level of one colour channel, from the bit patterns of the band's peak
/// and of the window's largest peak.
pub fn channel(peak: u32, scale: u32) -> (level: u8)
    ensures
        level == channel_level(magnitude_value(peak), magnitude_value(scale)),
{
    proof {
        lemma_value_zero(scale);
        lemma_value_order(peak, scale);
    }
    if scale == 0 {
        return 0;
    }
    if peak >= scale {
        proof {
            lemma_level_saturates(magnitude_value(peak), magnitude_value(scale));
        }
        return FULL_LEVEL;
    }
    proof {
        lemma_level_from_bits(peak, scale);
    }
    let peak_digits: u64 = significand_of(peak) as u64;
    let scale_digits: u64 = significand_of(scale) as u64;
    let gap: u32 = binade_of(scale) - binade_of(peak);
    if gap > WIDEST_GAP {
        proof {
            let spread = pow2(gap as nat) as int;
            let widened = scale_digits * spread;
            lemma2_to64_rest();
            lemma_pow2_strictly_increases(33, gap as nat);
            assert(widened >= spread) by (nonlinear_arith)
                requires
                    widened == scale_digits * spread,
                    scale_digits >= 1,
                    spread > 0,
            ;
            lemma_basic_div(510 * peak_digits + widened, 2 * widened);
        }
        return 0;
    }
    let widened: u64 = widen(scale_digits, gap);
    proof {
        lemma_pow2_pos(gap as nat);
        let spread = pow2(gap as nat) as int;
        assert(widened > 0) by (nonlinear_arith)
            requires
                widened == scale_digits * spread,
                scale_digits >= 1,
                spread > 0,
        ;
        lemma_value_zero(scale);
        lemma_level_in_range(magnitude_value(peak), magnitude_value(scale));
    }
    let level: u64 = (510 * peak_digits + widened) / (2 * widened);
    level as u8
}

} // verus!
