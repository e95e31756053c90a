//! What the bits of a direction hash say about two sketches.

use vstd::arithmetic::power2::{lemma_pow2_adds, lemma_pow2_pos, lemma_pow2_unfold, pow2};
use vstd::prelude::*;

use crate::float_bits::F32;
use crate::float_value::{law_singles_compare_as_numbers, units, unordered};
use crate::sketch::direction_hash;

verus! {

/// Bit `i` of a number.
pub open spec fn bit_set(number: int, i: int) -> bool {
    number / (pow2(i as nat) as int) % 2 == 1
}

/// `to - from` is a number that is not negative: neither is unordered, `to` is not the
/// smaller one, and the two are not the same infinity.
pub open spec fn does_not_fall(from: F32, to: F32) -> bool {
    &&& !unordered(from) && !unordered(to)
    &&& units(from) <= units(to)
    &&& from.bits == to.bits ==> from.bits != 0x7f80_0000 && from.bits != 0xff80_0000
}

/// A hash of `n` bits is below the `n`-th power of two, and bit `i` is that of the
/// projections at `i`.
proof fn lemma_hash_bits(p: Seq<F32>, c: Seq<F32>, n: int, i: int)
    requires
        0 <= i < n,
    ensures
        0 <= direction_hash(p, c, n) < pow2(n as nat),
        bit_set(direction_hash(p, c, n), i) == does_not_fall(p[i], c[i]),
    decreases n,
{
    let rest = direction_hash(p, c, n - 1);
    let top = pow2((n - 1) as nat) as int;
    let unit = pow2(i as nat) as int;
    lemma_pow2_unfold(n as nat);
    lemma_pow2_pos(i as nat);
    lemma_pow2_pos((n - 1) as nat);
    law_singles_compare_as_numbers(p[n - 1], c[n - 1]);
    if n == 1 {
        vstd::arithmetic::power2::lemma2_to64();
        assert(direction_hash(p, c, 0) == 0);
        assert(0int / unit == 0 && 1int / unit == 1);
    } else {
        lemma_hash_bits(p, c, n - 1, if i < n - 1 {
            i
        } else {
            0
        });
        if i == n - 1 {
            assert(rest / unit == 0) by (nonlinear_arith)
                requires
                    0 <= rest < unit,
            ;
            assert((rest + unit) / unit == 1) by (nonlinear_arith)
                requires
                    0 <= rest < unit,
            ;
        } else {
            let lift = pow2((n - 1 - i) as nat) as int;
            lemma_pow2_adds(i as nat, (n - 1 - i) as nat);
            lemma_pow2_unfold((n - 1 - i) as nat);
            vstd::arithmetic::div_mod::lemma_hoist_over_denominator(rest, lift, unit as nat);
            assert(rest + top == rest + lift * unit) by (nonlinear_arith)
                requires
                    top == unit * lift,
            ;
        }
    }
}

/// Bit `i` of a direction hash is set exactly where the `i`-th projection does not fall
/// on the way from `p` to `c`, as numbers of either sign. No bit behind the last one is set.
pub proof fn law_hash_bits_tell_the_direction(p: Seq<F32>, c: Seq<F32>, bits: int)
    requires
        0 <= bits,
    ensures
        0 <= direction_hash(p, c, bits) < pow2(bits as nat),
        forall|i: int|
            0 <= i < bits ==> #[trigger] bit_set(direction_hash(p, c, bits), i) == does_not_fall(
                p[i],
                c[i],
            ),
{
    lemma_pow2_pos(bits as nat);
    if bits > 0 {
        lemma_hash_bits(p, c, bits, 0);
    }
    assert forall|i: int| 0 <= i < bits implies #[trigger] bit_set(direction_hash(p, c, bits), i)
        == does_not_fall(p[i], c[i]) by {
        lemma_hash_bits(p, c, bits, i);
    }
}

/// For finite projections the way back has the other bit wherever the two differ, and
/// both bits are set wherever they are the same number.
pub proof fn law_way_back_has_the_other_bits(p: Seq<F32>, c: Seq<F32>, bits: int, i: int)
    requires
        0 <= i < bits,
        -units(F32 { bits: 0x7f80_0000 }) < units(p[i]) < units(F32 { bits: 0x7f80_0000 }),
        -units(F32 { bits: 0x7f80_0000 }) < units(c[i]) < units(F32 { bits: 0x7f80_0000 }),
    ensures
        units(p[i]) != units(c[i]) ==> bit_set(direction_hash(c, p, bits), i) == !bit_set(
            direction_hash(p, c, bits),
            i,
        ),
        units(p[i]) == units(c[i]) ==> bit_set(direction_hash(c, p, bits), i) && bit_set(
            direction_hash(p, c, bits),
            i,
        ),
        p[i].rank() <= c[i].rank() <==> bit_set(direction_hash(p, c, bits), i),
{
    lemma_hash_bits(p, c, bits, i);
    lemma_hash_bits(c, p, bits, i);
    law_singles_compare_as_numbers(p[i], c[i]);
    law_singles_compare_as_numbers(c[i], p[i]);
}

/// Moving one finite projection of `c` up clears no bit: its own bit stays set where it
/// was, and every other bit is as it was, so the hash does not become smaller.
pub proof fn law_rising_projection_clears_no_bit(
    p: Seq<F32>,
    c: Seq<F32>,
    bits: int,
    i: int,
    raised: F32,
)
    requires
        0 <= i < bits,
        bits <= c.len(),
        -units(F32 { bits: 0x7f80_0000 }) < units(c[i]) <= units(raised) < units(
            F32 { bits: 0x7f80_0000 },
        ),
    ensures
        bit_set(direction_hash(p, c, bits), i) ==> bit_set(
            direction_hash(p, c.update(i, raised), bits),
            i,
        ),
        forall|k: int|
            0 <= k < bits && k != i ==> #[trigger] bit_set(direction_hash(p, c, bits), k)
                == bit_set(direction_hash(p, c.update(i, raised), bits), k),
        direction_hash(p, c, bits) <= direction_hash(p, c.update(i, raised), bits),
{
    lemma_hash_bits(p, c, bits, i);
    lemma_hash_bits(p, c.update(i, raised), bits, i);
    law_singles_compare_as_numbers(raised, c[i]);
    assert forall|k: int| 0 <= k < bits && k != i implies #[trigger] bit_set(
        direction_hash(p, c, bits),
        k,
    ) == bit_set(direction_hash(p, c.update(i, raised), bits), k) by {
        lemma_hash_bits(p, c, bits, k);
        lemma_hash_bits(p, c.update(i, raised), bits, k);
    }
    lemma_rising_hash(p, c, bits, i, raised);
}

proof fn lemma_rising_hash(p: Seq<F32>, c: Seq<F32>, bits: int, i: int, raised: F32)
    requires
        0 <= i < c.len(),
        bits <= c.len(),
        -units(F32 { bits: 0x7f80_0000 }) < units(c[i]) <= units(raised) < units(
            F32 { bits: 0x7f80_0000 },
        ),
    ensures
        direction_hash(p, c, bits) <= direction_hash(p, c.update(i, raised), bits),
    decreases bits,
{
    if bits > 0 {
        lemma_rising_hash(p, c, bits - 1, i, raised);
        law_singles_compare_as_numbers(p[bits - 1], c[bits - 1]);
        law_singles_compare_as_numbers(p[bits - 1], raised);
        law_singles_compare_as_numbers(raised, c[i]);
        law_singles_compare_as_numbers(c[i], raised);
    }
}

} // verus!
