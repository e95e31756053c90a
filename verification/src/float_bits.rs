//! IEEE 754 values held by their bit patterns, with their order.
//!
//! A pattern is a sign bit followed by the magnitude. Among numbers the
//! magnitudes are ordered as the integers are, so that the order of two
//! values is that of their magnitudes with signs applied. A pattern whose
//! magnitude lies above that of infinity is not a number and is unordered.

use vstd::arithmetic::power2::{
    lemma2_to64, lemma2_to64_rest, lemma_pow2_adds, lemma_pow2_pos, lemma_pow2_strictly_increases,
    lemma_pow2_unfold, pow2,
};
use vstd::bits::lemma_u64_shl_is_mul;
use vstd::prelude::*;

verus! {

pub const F32_SIGN: u32 = 0x8000_0000;

pub const F32_INFINITY: u32 = 0x7f80_0000;

/// The largest finite single.
pub const F32_MAX: u32 = 0x7f7f_ffff;

pub const F64_SIGN: u64 = 0x8000_0000_0000_0000;

pub const F64_INFINITY: u64 = 0x7ff0_0000_0000_0000;

/// The double 1.0.
pub const F64_ONE: u64 = 0x3ff0_0000_0000_0000;

/// The double 1.5.
pub const F64_ONE_AND_HALF: u64 = 0x3ff8_0000_0000_0000;

/// One more than the largest fraction field of a double.
pub const F64_HIDDEN_BIT: u64 = 0x10_0000_0000_0000;

/// Every integer up to this one is a double.
pub const F64_EXACT_INTEGERS: u64 = 0x20_0000_0000_0000;

/// A single precision value.
#[derive(Clone, Copy, PartialEq, Eq, Structural, Debug)]
pub struct F32 {
    pub bits: u32,
}

/// A double precision value.
#[derive(Clone, Copy, PartialEq, Eq, Structural, Debug)]
pub struct F64 {
    pub bits: u64,
}

impl F32 {
    pub open spec fn magnitude(self) -> int {
        if self.bits >= F32_SIGN {
            self.bits - F32_SIGN
        } else {
            self.bits as int
        }
    }

    /// Not a number.
    pub open spec fn nan(self) -> bool {
        self.magnitude() > F32_INFINITY
    }

    pub open spec fn finite(self) -> bool {
        self.magnitude() < F32_INFINITY
    }

    /// The place of a number among numbers: both zeros share one.
    pub open spec fn rank(self) -> int {
        if self.bits >= F32_SIGN {
            -self.magnitude()
        } else {
            self.magnitude()
        }
    }

    /// `self < other`.
    pub open spec fn below(self, other: F32) -> bool {
        !self.nan() && !other.nan() && self.rank() < other.rank()
    }

    /// `self <= other`.
    pub open spec fn at_most(self, other: F32) -> bool {
        !self.nan() && !other.nan() && self.rank() <= other.rank()
    }

    pub fn is_nan(self) -> (result: bool)
        ensures
            result == self.nan(),
    {
        if self.bits >= F32_SIGN {
            self.bits - F32_SIGN > F32_INFINITY
        } else {
            self.bits > F32_INFINITY
        }
    }

    pub fn is_finite(self) -> (result: bool)
        ensures
            result == self.finite(),
    {
        if self.bits >= F32_SIGN {
            self.bits - F32_SIGN < F32_INFINITY
        } else {
            self.bits < F32_INFINITY
        }
    }

    pub fn rank_value(self) -> (rank: i64)
        ensures
            rank == self.rank(),
    {
        if self.bits >= F32_SIGN {
            -((self.bits - F32_SIGN) as i64)
        } else {
            self.bits as i64
        }
    }

    pub fn lt(self, other: F32) -> (result: bool)
        ensures
            result == self.below(other),
    {
        !self.is_nan() && !other.is_nan() && self.rank_value() < other.rank_value()
    }

    pub fn le(self, other: F32) -> (result: bool)
        ensures
            result == self.at_most(other),
    {
        !self.is_nan() && !other.is_nan() && self.rank_value() <= other.rank_value()
    }
}

impl F64 {
    pub open spec fn magnitude(self) -> int {
        if self.bits >= F64_SIGN {
            self.bits - F64_SIGN
        } else {
            self.bits as int
        }
    }

    /// Not a number.
    pub open spec fn nan(self) -> bool {
        self.magnitude() > F64_INFINITY
    }

    pub open spec fn finite(self) -> bool {
        self.magnitude() < F64_INFINITY
    }

    /// The place of a number among numbers: both zeros share one.
    pub open spec fn rank(self) -> int {
        if self.bits >= F64_SIGN {
            -self.magnitude()
        } else {
            self.magnitude()
        }
    }

    /// `self < other`.
    pub open spec fn below(self, other: F64) -> bool {
        !self.nan() && !other.nan() && self.rank() < other.rank()
    }

    /// `self <= other`.
    pub open spec fn at_most(self, other: F64) -> bool {
        !self.nan() && !other.nan() && self.rank() <= other.rank()
    }

    pub fn is_nan(self) -> (result: bool)
        ensures
            result == self.nan(),
    {
        if self.bits >= F64_SIGN {
            self.bits - F64_SIGN > F64_INFINITY
        } else {
            self.bits > F64_INFINITY
        }
    }

    pub fn is_finite(self) -> (result: bool)
        ensures
            result == self.finite(),
    {
        if self.bits >= F64_SIGN {
            self.bits - F64_SIGN < F64_INFINITY
        } else {
            self.bits < F64_INFINITY
        }
    }

    pub fn rank_value(self) -> (rank: i128)
        ensures
            rank == self.rank(),
    {
        if self.bits >= F64_SIGN {
            -((self.bits - F64_SIGN) as i128)
        } else {
            self.bits as i128
        }
    }

    pub fn lt(self, other: F64) -> (result: bool)
        ensures
            result == self.below(other),
    {
        !self.is_nan() && !other.is_nan() && self.rank_value() < other.rank_value()
    }

    pub fn le(self, other: F64) -> (result: bool)
        ensures
            result == self.at_most(other),
    {
        !self.is_nan() && !other.is_nan() && self.rank_value() <= other.rank_value()
    }
}

/// For a bound from 1.0 on: the power of two below it.
pub open spec fn f64_exponent(bound: F64) -> int {
    bound.bits as int / F64_HIDDEN_BIT as int - 1023
}

/// For a bound from 1.0 on: its 53 significant bits as an integer, so that the
/// bound is `f64_significand(bound) * 2^(f64_exponent(bound) - 52)`.
pub open spec fn f64_significand(bound: F64) -> int {
    F64_HIDDEN_BIT as int + bound.bits as int % F64_HIDDEN_BIT as int
}

/// Whether the double nearest to `numerator / denominator` is at most `bound`,
/// for a finite bound from 1.0 on. The quotient rounds to the bound or below it
/// while it lies below the middle between the bound and the next double; in
/// the middle it goes to whichever of the two has an even significand.
pub open spec fn quotient_within(numerator: int, denominator: int, bound: F64) -> bool {
    let scaled = numerator * pow2(53);
    let middle = denominator * (2 * f64_significand(bound) + 1) * pow2(
        f64_exponent(bound) as nat,
    );
    scaled < middle || (scaled == middle && f64_significand(bound) % 2 == 0)
}

/// A quotient up to one is within every bound, and so is one that was, over a larger
/// denominator.
pub proof fn lemma_quotient_within(numerator: int, denominator: int, bound: F64)
    requires
        0 <= numerator,
        0 < denominator,
        F64_ONE <= bound.bits < F64_INFINITY,
    ensures
        numerator <= denominator ==> quotient_within(numerator, denominator, bound),
        quotient_within(numerator, denominator, bound) ==> quotient_within(
            numerator,
            denominator + 1,
            bound,
        ),
{
    let odd = 2 * f64_significand(bound) + 1;
    let power = pow2(f64_exponent(bound) as nat) as int;
    lemma2_to64_rest();
    lemma_pow2_pos(f64_exponent(bound) as nat);
    assert(denominator * odd * power + odd * power == (denominator + 1) * odd * power)
        by (nonlinear_arith);
    assert(odd * power >= 0x20_0000_0000_0001) by (nonlinear_arith)
        requires
            odd >= 0x20_0000_0000_0001,
            power >= 1,
    ;
    assert(denominator * odd * power == denominator * (odd * power)) by (nonlinear_arith);
    if numerator <= denominator {
        assert(numerator * 0x20_0000_0000_0000 < denominator * (odd * power)) by (nonlinear_arith)
            requires
                0 <= numerator <= denominator,
                0 < denominator,
                odd * power >= 0x20_0000_0000_0001,
        ;
    }
}

/// The step between doubles of the size of `n`.
pub open spec fn double_step(n: int) -> int
    decreases n,
{
    if n < F64_EXACT_INTEGERS {
        1
    } else {
        2 * double_step(n / 2)
    }
}

/// The double nearest to a natural number, which is a natural number too. In the middle
/// between two it is the one with an even significand.
pub open spec fn nearest_double(n: int) -> int {
    let step = double_step(n);
    let down = n / step;
    if 2 * (n % step) < step || (2 * (n % step) == step && down % 2 == 0) {
        down * step
    } else {
        (down + 1) * step
    }
}

proof fn lemma_double_step(n: int)
    requires
        n >= 0,
    ensures
        double_step(n) >= 1,
        n / double_step(n) < F64_EXACT_INTEGERS,
        n >= F64_EXACT_INTEGERS ==> double_step(n) <= n,
    decreases n,
{
    if n >= F64_EXACT_INTEGERS {
        lemma_double_step(n / 2);
        let half = double_step(n / 2);
        vstd::arithmetic::div_mod::lemma_div_denominator(n, 2, half);
        assert(n / (2 * half) == n / 2 / half);
    } else {
        vstd::arithmetic::div_mod::lemma_div_basics(n);
    }
}

/// The double nearest to a number from 1 to below 2^64 is positive and at most 2^64, and a
/// number up to 2^53 is a double itself.
pub proof fn lemma_nearest_double(n: int)
    requires
        0 <= n <= u64::MAX,
    ensures
        0 <= nearest_double(n) <= 0x1_0000_0000_0000_0000,
        n > 0 ==> nearest_double(n) > 0,
        n <= F64_EXACT_INTEGERS ==> nearest_double(n) == n,
{
    lemma_double_step(n);
    let step = double_step(n);
    let down = n / step;
    vstd::arithmetic::div_mod::lemma_fundamental_div_mod(n, step);
    vstd::arithmetic::div_mod::lemma_mod_bound(n, step);
    vstd::arithmetic::div_mod::lemma_div_pos_is_pos(n, step);
    assert(step * down == down * step && (down + 1) * step == down * step + step)
        by (nonlinear_arith);
    if n < F64_EXACT_INTEGERS {
        assert(step == 1);
        assert(n % 1 == 0 && n / 1 == n);
        assert(down * 1 == down);
    } else {
        assert(down >= 1) by (nonlinear_arith)
            requires
                step <= n,
                n < down * step + step,
                step >= 1,
        ;
        assert(down * step > 0) by (nonlinear_arith)
            requires
                down >= 1,
                step >= 1,
        ;
        lemma_step_is_power(n);
        if n == F64_EXACT_INTEGERS {
            assert(double_step(n / 2) == 1);
            assert(step == 2);
            assert(n % 2 == 0 && n / 2 * 2 == n);
        }
    }
}

/// No double of a number up to 2^64 lies beyond 2^64.
proof fn lemma_step_is_power(n: int)
    requires
        F64_EXACT_INTEGERS <= n <= u64::MAX,
    ensures
        (n / double_step(n) + 1) * double_step(n) <= 0x1_0000_0000_0000_0000,
{
    lemma2_to64();
    lemma_step_divides(n, 11);
    let step = double_step(n);
    let down = n / step;
    let whole = 0x1_0000_0000_0000_0000int;
    vstd::arithmetic::div_mod::lemma_fundamental_div_mod(n, step);
    vstd::arithmetic::div_mod::lemma_mod_bound(n, step);
    assert(0x800int % step == 0);
    let parts = 0x800int / step;
    vstd::arithmetic::div_mod::lemma_fundamental_div_mod(0x800, step);
    let blocks = parts * 0x20_0000_0000_0000int;
    assert(blocks * step == whole) by (nonlinear_arith)
        requires
            blocks == parts * 0x20_0000_0000_0000int,
            step * parts == 0x800,
            whole == 0x800 * 0x20_0000_0000_0000int,
    ;
    assert(down < blocks) by (nonlinear_arith)
        requires
            step * down <= n,
            n < whole,
            blocks * step == whole,
            step >= 1,
    ;
    assert((down + 1) * step <= blocks * step) by (nonlinear_arith)
        requires
            down + 1 <= blocks,
            step >= 1,
    ;
}

/// The step of a number below `2^(53 + k)` divides `2^k`.
proof fn lemma_step_divides(n: int, k: nat)
    requires
        0 <= n < 0x20_0000_0000_0000 * pow2(k),
        k <= 11,
    ensures
        double_step(n) >= 1,
        pow2(k) % double_step(n) as nat == 0,
        0x800int % double_step(n) == 0,
    decreases k,
{
    lemma2_to64();
    lemma_pow2_pos(k);
    if n < F64_EXACT_INTEGERS {
        assert(pow2(k) % 1 == 0);
    } else {
        if k == 0 {
            assert(false);
        }
        lemma_pow2_unfold(k);
        let before = (k - 1) as nat;
        lemma_step_divides(n / 2, before);
        let half = double_step(n / 2);
        vstd::arithmetic::div_mod::lemma_fundamental_div_mod(pow2(before) as int, half);
        let parts = pow2(before) as int / half;
        assert(pow2(k) as int == parts * (2 * half)) by (nonlinear_arith)
            requires
                pow2(k) == 2 * pow2(before),
                pow2(before) == half * parts,
        ;
        vstd::arithmetic::div_mod::lemma_mod_multiples_basic(parts, 2 * half);
        let rest = pow2((11 - k) as nat) as int;
        lemma_pow2_adds(k, (11 - k) as nat);
        assert(0x800int == (parts * rest) * (2 * half)) by (nonlinear_arith)
            requires
                0x800int == pow2(k) * rest,
                pow2(k) as int == parts * (2 * half),
        ;
        vstd::arithmetic::div_mod::lemma_mod_multiples_basic(parts * rest, 2 * half);
    }
}

/// A number as a double.
fn as_double(n: u64) -> (value: u128)
    ensures
        value == nearest_double(n as int),
{
    let mut step: u64 = 1;
    let mut left: u64 = n;
    proof {
        assert(n * 1 == n) by (nonlinear_arith);
    }
    while left >= F64_EXACT_INTEGERS
        invariant
            1 <= step <= 0x1000,
            left * step <= n,
            double_step(n as int) == step * double_step(left as int),
        decreases left,
    {
        proof {
            assert(step <= 0x800) by (nonlinear_arith)
                requires
                    left >= 0x20_0000_0000_0000,
                    left * step <= 0xffff_ffff_ffff_ffff,
            ;
            assert((left as int / 2) * (step * 2) <= left * step) by (nonlinear_arith)
                requires
                    (left as int / 2) * 2 <= left,
                    step >= 1,
            ;
            let rest = double_step(left as int / 2);
            assert(step * (2 * rest) == (step * 2) * rest) by (nonlinear_arith);
        }
        left = left / 2;
        step = step * 2;
    }
    proof {
        assert(step * 1 == step);
    }
    let down: u64 = n / step;
    let rest: u64 = n % step;
    proof {
        lemma_nearest_double(n as int);
    }
    if 2 * rest < step || (2 * rest == step && down % 2 == 0) {
        down as u128 * step as u128
    } else {
        (down as u128 + 1) * step as u128
    }
}

/// Whether the double nearest to `numerator / denominator` is at most `bound`, for
/// integers up to 2^64.
fn wide_quotient_at_most(numerator: u128, denominator: u128, bound: F64) -> (result: bool)
    requires
        numerator <= 0x1_0000_0000_0000_0000,
        0 < denominator <= 0x1_0000_0000_0000_0000,
        F64_ONE <= bound.bits < F64_INFINITY,
    ensures
        result == quotient_within(numerator as int, denominator as int, bound),
{
    let exponent: u64 = bound.bits / F64_HIDDEN_BIT - 1023;
    let significand: u64 = F64_HIDDEN_BIT + bound.bits % F64_HIDDEN_BIT;
    let odd: u64 = 2 * significand + 1;
    proof {
        lemma2_to64();
        lemma2_to64_rest();
        lemma_pow2_pos(exponent as nat);
        assert(denominator * odd <= 0x1_0000_0000_0000_0000 * 0x40_0000_0000_0000)
            by (nonlinear_arith)
            requires
                denominator <= 0x1_0000_0000_0000_0000,
                odd <= 0x40_0000_0000_0000,
        ;
        assert(denominator * odd >= odd) by (nonlinear_arith)
            requires
                denominator >= 1,
                odd >= 0,
        ;
    }
    let middle: u128 = denominator * (odd as u128);
    if exponent > 53 {
        let ghost extra = (exponent - 53) as nat;
        proof {
            lemma_pow2_adds(53, extra);
            lemma_pow2_pos(extra);
        }
        if exponent > 64 || middle > 0x1_0000_0000_0000_0000 {
            proof {
                if exponent > 64 {
                    lemma_pow2_adds(12, (extra - 12) as nat);
                    lemma_pow2_pos((extra - 12) as nat);
                    assert(middle * pow2(extra) > numerator) by (nonlinear_arith)
                        requires
                            numerator <= 0x1_0000_0000_0000_0000,
                            middle > 0x20_0000_0000_0000,
                            pow2(extra) == 0x1000 * pow2((extra - 12) as nat),
                            pow2((extra - 12) as nat) >= 1,
                    ;
                } else {
                    assert(middle * pow2(extra) > numerator) by (nonlinear_arith)
                        requires
                            numerator <= 0x1_0000_0000_0000_0000,
                            middle > 0x1_0000_0000_0000_0000,
                            pow2(extra) >= 1,
                    ;
                }
                assert(numerator * pow2(53) < denominator * odd * pow2(exponent as nat))
                    by (nonlinear_arith)
                    requires
                        middle == denominator * odd,
                        middle * pow2(extra) > numerator,
                        pow2(exponent as nat) == pow2(53) * pow2(extra),
                        pow2(53) > 0,
                ;
            }
            return true;
        }
        let shift: u64 = exponent - 53;
        proof {
            lemma_pow2_strictly_increases(shift as nat, 12);
            lemma_u64_shl_is_mul(1, shift);
            assert(middle * pow2(extra) <= 0x1_0000_0000_0000_0000 * 0x1000) by (nonlinear_arith)
                requires
                    middle <= 0x1_0000_0000_0000_0000,
                    pow2(extra) <= 0x1000,
            ;
        }
        let factor: u64 = 1u64 << shift;
        let raised: u128 = middle * (factor as u128);
        proof {
            let low = pow2(53) as int;
            assert(denominator * odd * pow2(exponent as nat) == raised * low) by (nonlinear_arith)
                requires
                    raised == denominator * odd * factor,
                    pow2(exponent as nat) == low * factor,
            ;
            assert(numerator < raised <==> numerator * low < raised * low) by (nonlinear_arith)
                requires
                    low > 0,
            ;
            assert(numerator == raised <==> numerator * low == raised * low) by (nonlinear_arith)
                requires
                    low > 0,
            ;
        }
        numerator < raised || (numerator == raised && significand % 2 == 0)
    } else {
        let shift: u64 = 53 - exponent;
        proof {
            lemma_pow2_strictly_increases(shift as nat, 54);
            lemma_u64_shl_is_mul(1, shift);
            lemma_pow2_adds(exponent as nat, shift as nat);
        }
        let factor: u64 = 1u64 << shift;
        proof {
            assert(numerator * factor <= 0x1_0000_0000_0000_0000 * 0x40_0000_0000_0000)
                by (nonlinear_arith)
                requires
                    numerator <= 0x1_0000_0000_0000_0000,
                    factor <= 0x40_0000_0000_0000,
            ;
        }
        let scaled: u128 = numerator * (factor as u128);
        proof {
            let low = pow2(exponent as nat) as int;
            assert(numerator * pow2(53) == (numerator * factor) * low) by (nonlinear_arith)
                requires
                    pow2(53) == low * factor,
            ;
            assert(scaled < middle <==> scaled * low < middle * low) by (nonlinear_arith)
                requires
                    low > 0,
            ;
            assert(scaled == middle <==> scaled * low == middle * low) by (nonlinear_arith)
                requires
                    low > 0,
            ;
        }
        scaled < middle || (scaled == middle && significand % 2 == 0)
    }
}

/// Whether the double nearest to `numerator / denominator` is at most `bound`.
pub fn quotient_at_most(numerator: u64, denominator: u64, bound: F64) -> (result: bool)
    requires
        0 < denominator,
        F64_ONE <= bound.bits < F64_INFINITY,
    ensures
        result == quotient_within(numerator as int, denominator as int, bound),
{
    wide_quotient_at_most(numerator as u128, denominator as u128, bound)
}

/// Whether the quotient of two numbers as doubles is at most `bound`.
pub fn ratio_at_most(numerator: u64, denominator: u64, bound: F64) -> (result: bool)
    requires
        0 < denominator,
        F64_ONE <= bound.bits < F64_INFINITY,
    ensures
        result == quotient_within(
            nearest_double(numerator as int),
            nearest_double(denominator as int),
            bound,
        ),
{
    proof {
        lemma_nearest_double(numerator as int);
        lemma_nearest_double(denominator as int);
    }
    wide_quotient_at_most(as_double(numerator), as_double(denominator), bound)
}

} // verus!
