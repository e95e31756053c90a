//! Saturating and rounding arithmetic on unsigned machine integers.

use vstd::prelude::*;

verus! {

/// `value`, or `usize::MAX` where `value` is larger.
pub open spec fn capped(value: int) -> int {
    if value > usize::MAX {
        usize::MAX as int
    } else {
        value
    }
}

/// `value`, or `u64::MAX` where `value` is larger.
pub open spec fn capped_u64(value: int) -> int {
    if value > u64::MAX {
        u64::MAX as int
    } else {
        value
    }
}

/// `value`, or 0 where `value` is negative.
pub open spec fn floored(value: int) -> int {
    if value < 0 {
        0
    } else {
        value
    }
}

pub open spec fn least(a: int, b: int) -> int {
    if a <= b {
        a
    } else {
        b
    }
}

pub open spec fn greatest(a: int, b: int) -> int {
    if a >= b {
        a
    } else {
        b
    }
}

/// The number of blocks of `block` items that hold `items` items.
pub open spec fn blocks_for(items: int, block: int) -> int {
    if items % block == 0 {
        items / block
    } else {
        items / block + 1
    }
}

pub proof fn lemma_product_bounds(a: int, b: int, bound: int)
    requires
        0 <= a <= bound,
        0 <= b <= bound,
    ensures
        0 <= a * b <= bound * bound,
{
    assert(0 <= a * b <= bound * bound) by (nonlinear_arith)
        requires
            0 <= a <= bound,
            0 <= b <= bound,
    ;
}

/// The product, or `usize::MAX` where it does not fit.
pub fn sat_mul(a: usize, b: usize) -> (product: usize)
    ensures
        product == capped(a * b),
{
    proof {
        lemma_product_bounds(a as int, b as int, 0xffff_ffff_ffff_ffff);
    }
    let wide: u128 = (a as u128) * (b as u128);
    if wide > usize::MAX as u128 {
        usize::MAX
    } else {
        wide as usize
    }
}

/// The product, or `u64::MAX` where it does not fit.
pub fn sat_mul_u64(a: u64, b: u64) -> (product: u64)
    ensures
        product == capped_u64(a * b),
{
    proof {
        lemma_product_bounds(a as int, b as int, 0xffff_ffff_ffff_ffff);
    }
    let wide: u128 = (a as u128) * (b as u128);
    if wide > u64::MAX as u128 {
        u64::MAX
    } else {
        wide as u64
    }
}

/// Whether `a * b` is `product`.
pub fn product_is(a: usize, b: usize, product: usize) -> (result: bool)
    ensures
        result == (a * b == product),
{
    proof {
        lemma_product_bounds(a as int, b as int, 0xffff_ffff_ffff_ffff);
    }
    (a as u128) * (b as u128) == product as u128
}

pub fn min_usize(a: usize, b: usize) -> (m: usize)
    ensures
        m == least(a as int, b as int),
{
    if a <= b {
        a
    } else {
        b
    }
}

pub fn max_usize(a: usize, b: usize) -> (m: usize)
    ensures
        m == greatest(a as int, b as int),
{
    if a >= b {
        a
    } else {
        b
    }
}

pub fn max_u64(a: u64, b: u64) -> (m: u64)
    ensures
        m == greatest(a as int, b as int),
{
    if a >= b {
        a
    } else {
        b
    }
}

/// The number of blocks of `block` items that hold `items` items.
pub fn div_ceil(items: usize, block: usize) -> (blocks: usize)
    requires
        block > 0,
    ensures
        blocks == blocks_for(items as int, block as int),
{
    let whole: usize = items / block;
    if items % block == 0 {
        whole
    } else {
        proof {
            assert(whole < usize::MAX) by (nonlinear_arith)
                requires
                    whole == items / block,
                    items % block != 0,
                    block > 0,
                    items <= usize::MAX,
            ;
        }
        whole + 1
    }
}

/// The number of blocks of `block` items that hold `items` items.
pub fn div_ceil_u64(items: u64, block: u64) -> (blocks: u64)
    requires
        block > 0,
    ensures
        blocks == blocks_for(items as int, block as int),
{
    let whole: u64 = items / block;
    if items % block == 0 {
        whole
    } else {
        proof {
            assert(whole < u64::MAX) by (nonlinear_arith)
                requires
                    whole == items / block,
                    items % block != 0,
                    block > 0,
                    items <= u64::MAX,
            ;
        }
        whole + 1
    }
}

/// The blocks hold the items, and one block fewer would not.
pub proof fn lemma_blocks_for(items: int, block: int)
    requires
        items >= 0,
        block > 0,
    ensures
        0 <= blocks_for(items, block),
        items <= blocks_for(items, block) * block < items + block,
{
    let whole = items / block;
    vstd::arithmetic::div_mod::lemma_fundamental_div_mod(items, block);
    vstd::arithmetic::div_mod::lemma_mod_bound(items, block);
    assert(whole >= 0) by (nonlinear_arith)
        requires
            whole == items / block,
            items >= 0,
            block > 0,
    ;
    assert(whole * block == block * whole) by (nonlinear_arith);
    assert((whole + 1) * block == whole * block + block) by (nonlinear_arith);
}

} // verus!
