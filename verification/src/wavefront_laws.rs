//! Which pairs of a leaf are measured, and by which limit they are dropped.

use vstd::prelude::*;

use crate::ads_wavefront::{ahead, larger_threshold, mutual, wave_steps};
use crate::float_bits::F32;
use crate::float_value::{law_singles_compare_as_numbers, lies_below, units, unordered};

verus! {

/// The limit of a pair is that of one of its rows and not below that of the other, so a
/// distance that is not below it is below neither's: to drop the pair is no loss to either.
pub proof fn law_pair_limit_serves_both_rows(a: F32, b: F32, dist: F32)
    ensures
        larger_threshold(a, b) == a || larger_threshold(a, b) == b,
        !unordered(a) ==> !unordered(larger_threshold(a, b)) && units(a) <= units(
            larger_threshold(a, b),
        ),
        !unordered(b) ==> !unordered(larger_threshold(a, b)) && units(b) <= units(
            larger_threshold(a, b),
        ),
        !lies_below(dist, larger_threshold(a, b)) ==> !lies_below(dist, a) && !lies_below(dist, b),
{
    law_singles_compare_as_numbers(a, b);
    law_singles_compare_as_numbers(b, a);
}

/// One of two rows is `step` rows behind the other, round the leaf.
pub open spec fn apart_by(rows: int, a: int, b: int, step: int) -> bool {
    (a + step) % rows == b || (b + step) % rows == a
}

/// Two rows are measured before the scan exactly where one of them follows the other within
/// the number of seeds, round the leaf; which of them is named first does not matter.
pub proof fn law_seed_pairs_are_near_round_the_leaf(rows: int, seeds: int, a: int, b: int)
    requires
        0 <= a < rows,
        0 <= b < rows,
        0 <= seeds < rows,
    ensures
        mutual(rows, seeds, a, b) == mutual(rows, seeds, b, a),
        mutual(rows, seeds, a, b) ==> exists|step: int|
            1 <= step <= seeds && #[trigger] apart_by(rows, a, b, step),
        forall|step: int|
            1 <= step <= seeds && #[trigger] apart_by(rows, a, b, step) ==> mutual(
                rows,
                seeds,
                a,
                b,
            ),
{
    lemma_ahead(rows, a, b);
    lemma_ahead(rows, b, a);
    if mutual(rows, seeds, a, b) {
        let step = if ahead(a, b, rows) <= seeds {
            ahead(a, b, rows)
        } else {
            ahead(b, a, rows)
        };
        assert(1 <= step <= seeds);
        assert(apart_by(rows, a, b, step));
    }
    assert forall|step: int|
        1 <= step <= seeds && #[trigger] apart_by(rows, a, b, step) implies mutual(rows, seeds, a, b) by {
        lemma_step(rows, a, step);
        lemma_step(rows, b, step);
    }
}

proof fn lemma_step(rows: int, a: int, step: int)
    requires
        0 <= a < rows,
        1 <= step < rows,
    ensures
        0 <= (a + step) % rows < rows,
        (a + step) % rows != a,
        ahead(a, (a + step) % rows, rows) == step,
{
    if a + step < rows {
        vstd::arithmetic::div_mod::lemma_small_mod((a + step) as nat, rows as nat);
    } else {
        vstd::arithmetic::div_mod::lemma_fundamental_div_mod_converse(
            a + step,
            rows,
            1,
            a + step - rows,
        );
    }
}

proof fn lemma_ahead(rows: int, a: int, b: int)
    requires
        0 <= a < rows,
        0 <= b < rows,
    ensures
        0 <= ahead(a, b, rows) < rows,
        a != b ==> ahead(a, b, rows) >= 1,
        (a + ahead(a, b, rows)) % rows == b,
{
    if b >= a {
        vstd::arithmetic::div_mod::lemma_small_mod(b as nat, rows as nat);
    } else {
        vstd::arithmetic::div_mod::lemma_fundamental_div_mod_converse(b + rows, rows, 1, b);
    }
}

/// There are as many steps as pairs of blocks, a block with itself among them, and each step
/// is one: so no two blocks meet twice.
pub proof fn law_blocks_meet_once(blocks: int)
    requires
        0 <= blocks,
    ensures
        2 * wave_steps(blocks).len() == blocks * (blocks + 1),
        forall|i: int|
            0 <= i < wave_steps(blocks).len() ==> 0 <= (#[trigger] wave_steps(blocks)[i]).0
                <= wave_steps(blocks)[i].1 < blocks,
        wave_steps(blocks).no_duplicates(),
    decreases blocks,
{
    if blocks > 0 {
        law_blocks_meet_once(blocks - 1);
        let before = wave_steps(blocks - 1);
        let own = Seq::new(blocks as nat, |left: int| (left, blocks - 1));
        let all = wave_steps(blocks);
        assert(all == before + own);
        assert(blocks * (blocks + 1) == (blocks - 1) * blocks + 2 * blocks) by (nonlinear_arith);
        assert forall|i: int| 0 <= i < all.len() implies 0 <= (#[trigger] all[i]).0 <= all[i].1
            < blocks && (i < before.len() <==> all[i].1 < blocks - 1) by {
            if i < before.len() {
                assert(all[i] == before[i]);
            } else {
                assert(all[i] == own[i - before.len()]);
            }
        }
        assert forall|i: int, j: int| 0 <= i < j < all.len() implies all[i] != all[j] by {
            if j < before.len() {
                assert(all[i] == before[i] && all[j] == before[j]);
            } else if i >= before.len() {
                assert(all[i] == own[i - before.len()] && all[j] == own[j - before.len()]);
            } else {
                assert(all[i].1 < blocks - 1);
                assert(!(all[j].1 < blocks - 1));
            }
        }
    } else {
        assert(blocks * (blocks + 1) == 0) by (nonlinear_arith)
            requires
                blocks == 0,
        ;
    }
}

} // verus!
