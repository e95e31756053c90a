//! The numbers that patterns stand for, and that the order of patterns is theirs.

use vstd::arithmetic::power2::{lemma_pow2_pos, lemma_pow2_unfold, pow2};
use vstd::prelude::*;

use crate::float_bits::{F32, F64};

verus! {

/// The number that a magnitude with `width` fraction bits stands for, in units of the
/// smallest positive number: below the first exponent the fraction itself, above it the
/// fraction with its hidden bit, doubled with every exponent.
pub open spec fn magnitude_units(magnitude: int, width: nat) -> int {
    let one = pow2(width) as int;
    let exponent = magnitude / one;
    let fraction = magnitude % one;
    if exponent == 0 {
        fraction
    } else {
        (one + fraction) * pow2((exponent - 1) as nat)
    }
}

/// A single as a number, in units of the smallest positive one. Infinity counts as the
/// power of two behind the largest number.
pub open spec fn units(x: F32) -> int {
    if x.bits >= 0x8000_0000 {
        -magnitude_units(x.bits - 0x8000_0000, 23)
    } else {
        magnitude_units(x.bits as int, 23)
    }
}

/// A double as a number, in units of the smallest positive one.
pub open spec fn double_units(x: F64) -> int {
    if x.bits >= 0x8000_0000_0000_0000 {
        -magnitude_units(x.bits - 0x8000_0000_0000_0000, 52)
    } else {
        magnitude_units(x.bits as int, 52)
    }
}

/// The pattern stands for no number.
pub open spec fn unordered(x: F32) -> bool {
    0x7f80_0000 < x.bits < 0x8000_0000 || 0xff80_0000 < x.bits
}

/// Both are numbers, and the first is the smaller one.
pub open spec fn lies_below(a: F32, b: F32) -> bool {
    !unordered(a) && !unordered(b) && units(a) < units(b)
}

/// The pattern stands for no number.
pub open spec fn unordered_double(x: F64) -> bool {
    0x7ff0_0000_0000_0000 < x.bits < 0x8000_0000_0000_0000 || 0xfff0_0000_0000_0000 < x.bits
}

/// The next magnitude is a larger number.
proof fn lemma_next_magnitude(m: int, width: nat)
    requires
        0 <= m,
    ensures
        magnitude_units(m, width) < magnitude_units(m + 1, width),
        0 <= magnitude_units(m, width),
{
    let one = pow2(width) as int;
    lemma_pow2_pos(width);
    let e = m / one;
    let f = m % one;
    vstd::arithmetic::div_mod::lemma_fundamental_div_mod(m, one);
    vstd::arithmetic::div_mod::lemma_mod_bound(m, one);
    vstd::arithmetic::div_mod::lemma_div_pos_is_pos(m, one);
    if e > 0 {
        lemma_pow2_pos((e - 1) as nat);
    }
    assert(magnitude_units(m, width) >= 0) by (nonlinear_arith)
        requires
            e == 0 ==> magnitude_units(m, width) == f,
            e > 0 ==> magnitude_units(m, width) == (one + f) * pow2((e - 1) as nat),
            e >= 0,
            f >= 0,
            one > 0,
            e > 0 ==> pow2((e - 1) as nat) > 0,
    ;
    if f + 1 < one {
        assert(m + 1 == one * e + (f + 1));
        vstd::arithmetic::div_mod::lemma_fundamental_div_mod_converse(m + 1, one, e, f + 1);
        if e > 0 {
            let p = pow2((e - 1) as nat) as int;
            assert((one + f) * p < (one + (f + 1)) * p) by (nonlinear_arith)
                requires
                    p > 0,
            ;
        }
    } else {
        assert(one * (e + 1) == one * e + one) by (nonlinear_arith);
        assert(m + 1 == one * (e + 1) + 0);
        vstd::arithmetic::div_mod::lemma_fundamental_div_mod_converse(m + 1, one, e + 1, 0);
        let p = pow2(e as nat) as int;
        lemma_pow2_pos(e as nat);
        if e > 0 {
            lemma_pow2_unfold(e as nat);
            let half = pow2((e - 1) as nat) as int;
            assert((one + f) * half < (one + 0) * p) by (nonlinear_arith)
                requires
                    f < one,
                    half > 0,
                    p == 2 * half,
            ;
        } else {
            vstd::arithmetic::power2::lemma2_to64();
            assert(p == 1);
            assert((one + 0) * p == one) by (nonlinear_arith)
                requires
                    p == 1,
            ;
        }
    }
}

/// Magnitudes are ordered as their numbers are.
pub proof fn lemma_magnitudes_ordered(a: int, b: int, width: nat)
    requires
        0 <= a <= b,
    ensures
        0 <= magnitude_units(a, width) <= magnitude_units(b, width),
        a < b ==> magnitude_units(a, width) < magnitude_units(b, width),
        magnitude_units(0, width) == 0,
    decreases b - a,
{
    lemma_pow2_pos(width);
    let one = pow2(width) as int;
    vstd::arithmetic::div_mod::lemma_small_mod(0, pow2(width));
    assert(0int / one == 0) by (nonlinear_arith)
        requires
            one > 0,
    ;
    lemma_next_magnitude(a, width);
    if a < b {
        lemma_magnitudes_ordered(a + 1, b, width);
    }
}

/// Singles are compared as the numbers that they stand for: one is below another exactly
/// where its number is the smaller one. What stands for no number compares with nothing.
pub proof fn law_singles_compare_as_numbers(a: F32, b: F32)
    ensures
        a.nan() == unordered(a),
        a.below(b) == (!unordered(a) && !unordered(b) && units(a) < units(b)),
        a.at_most(b) == (!unordered(a) && !unordered(b) && units(a) <= units(b)),
        a.finite() == (-units(F32 { bits: 0x7f80_0000 }) < units(a) < units(
            F32 { bits: 0x7f80_0000 },
        )),
{
    let ma = a.bits as int % 0x8000_0000;
    let mb = b.bits as int % 0x8000_0000;
    lemma_magnitudes_ordered(0, ma, 23);
    lemma_magnitudes_ordered(0, mb, 23);
    if ma <= mb {
        lemma_magnitudes_ordered(ma, mb, 23);
    } else {
        lemma_magnitudes_ordered(mb, ma, 23);
    }
    if ma < 0x7f80_0000 {
        lemma_magnitudes_ordered(ma, 0x7f80_0000, 23);
    } else {
        lemma_magnitudes_ordered(0x7f80_0000, ma, 23);
    }
}

/// Doubles are compared as the numbers that they stand for.
pub proof fn law_doubles_compare_as_numbers(a: F64, b: F64)
    ensures
        a.nan() == unordered_double(a),
        a.below(b) == (!unordered_double(a) && !unordered_double(b) && double_units(a)
            < double_units(b)),
        a.at_most(b) == (!unordered_double(a) && !unordered_double(b) && double_units(a)
            <= double_units(b)),
{
    let ma = a.bits as int % 0x8000_0000_0000_0000;
    let mb = b.bits as int % 0x8000_0000_0000_0000;
    lemma_magnitudes_ordered(0, ma, 52);
    lemma_magnitudes_ordered(0, mb, 52);
    if ma <= mb {
        lemma_magnitudes_ordered(ma, mb, 52);
    } else {
        lemma_magnitudes_ordered(mb, ma, 52);
    }
}

} // verus!
