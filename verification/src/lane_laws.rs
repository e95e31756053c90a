//! What masks of lanes count, and what showing their lanes to a selection leaves in it.

use vstd::prelude::*;

use crate::ads_scan::{lanes_pushed, seed_count};
use crate::ads_topk::holds_index;
use crate::direction::bit_set;
use crate::float_bits::F32;
use crate::float_value::{units, unordered};
use crate::lane_mask::{group_lanes, is_sparse, lane, lanes_set, seeds_row, total_lanes};
use crate::selection_laws::{law_selection_takes_the_nearer, numbered, rising};
use crate::topk::Neighbor;

verus! {

/// Lane `i` of a mask is its bit `i`, from the lowest on.
pub proof fn law_lanes_are_bits(mask: u64, i: int)
    requires
        0 <= i < 64,
    ensures
        lane(mask, i) == bit_set(mask as int, i),
{
    let shift = i as u64;
    let moved = mask >> shift;
    vstd::bits::lemma_u64_shr_is_div(mask, shift);
    assert(moved & 1 == moved % 2) by (bit_vector);
}

/// The lanes among the first `n` that are set.
pub open spec fn set_lanes(mask: u64, n: int) -> Set<int> {
    Set::new(|i: int| 0 <= i < n && bit_set(mask as int, i))
}

/// Lanes are counted one by one.
pub proof fn law_lanes_are_counted(mask: u64, n: int)
    requires
        0 <= n <= 64,
    ensures
        set_lanes(mask, n).finite(),
        lanes_set(mask, n) == set_lanes(mask, n).len(),
    decreases n,
{
    if n > 0 {
        law_lanes_are_counted(mask, n - 1);
        law_lanes_are_bits(mask, n - 1);
        if lane(mask, n - 1) {
            assert(set_lanes(mask, n) =~= set_lanes(mask, n - 1).insert(n - 1));
        } else {
            assert(set_lanes(mask, n) =~= set_lanes(mask, n - 1));
        }
    } else {
        assert(set_lanes(mask, n) =~= Set::<int>::empty());
    }
}

/// The four groups of sixteen lanes together are all lanes.
pub proof fn law_groups_make_up_all_lanes(masks: Seq<u64>, n: int)
    requires
        0 <= n <= masks.len(),
    ensures
        total_lanes(masks, n) == group_lanes(masks, 0, n) + group_lanes(masks, 1, n) + group_lanes(
            masks,
            2,
            n,
        ) + group_lanes(masks, 3, n),
    decreases n,
{
    if n > 0 {
        law_groups_make_up_all_lanes(masks, n - 1);
        assert(lanes_set(masks[n - 1], 0) == 0);
    }
}

/// The lanes of one group that are set in a mask.
pub proof fn law_group_lanes_are_counted(masks: Seq<u64>, group: int, n: int)
    requires
        0 <= group < 4,
        0 < n <= masks.len(),
    ensures
        group_lanes(masks, group, n) == group_lanes(masks, group, n - 1) + set_lanes(
            masks[n - 1],
            16 * group + 16,
        ).len() - set_lanes(masks[n - 1], 16 * group).len(),
        group_lanes(masks, group, 0) == 0,
{
    law_lanes_are_counted(masks[n - 1], 16 * group + 16);
    law_lanes_are_counted(masks[n - 1], 16 * group);
}

/// Lanes are sparse where there are some, and either fewer in all than the one threshold or
/// in no group more than the other.
pub proof fn law_sparse_lanes_are_few(masks: Seq<u64>, full64: int, group16: int)
    requires
        0 <= full64,
        0 <= group16,
    ensures
        ({
            let n = masks.len() as int;
            let total = total_lanes(masks, n);
            is_sparse(masks, total, full64, group16) <==> total > 0 && (total < full64 || (
            group_lanes(masks, 0, n) <= group16 && group_lanes(masks, 1, n) <= group16
                && group_lanes(masks, 2, n) <= group16 && group_lanes(masks, 3, n) <= group16))
        }),
{
    let n = masks.len() as int;
    law_groups_make_up_all_lanes(masks, n);
    assert forall|g: int| 0 <= g < 4 implies #[trigger] group_lanes(masks, g, n) >= 0 by {
        lemma_group_not_negative(masks, g, n);
    }
    assert(group_lanes(masks, 0, n) >= 0);
    assert(group_lanes(masks, 1, n) >= 0);
    assert(group_lanes(masks, 2, n) >= 0);
    assert(group_lanes(masks, 3, n) >= 0);
}

proof fn lemma_group_not_negative(masks: Seq<u64>, group: int, n: int)
    requires
        0 <= group < 4,
        0 <= n <= masks.len(),
    ensures
        group_lanes(masks, group, n) >= 0,
    decreases n,
{
    if n > 0 {
        lemma_group_not_negative(masks, group, n - 1);
        law_lanes_are_counted(masks[n - 1], 16 * group + 16);
        law_lanes_are_counted(masks[n - 1], 16 * group);
        vstd::set_lib::lemma_len_subset(
            set_lanes(masks[n - 1], 16 * group),
            set_lanes(masks[n - 1], 16 * group + 16),
        );
    }
}

/// A row's seeds are those that follow it round the leaf, as many as there are seeds, and
/// the row itself is left out with them.
pub proof fn law_seeds_follow_round_the_leaf(row: int, candidate: int, leaf_size: int, seeds: int)
    requires
        0 <= row < leaf_size,
        0 <= candidate < leaf_size,
        0 <= seeds < leaf_size,
    ensures
        seeds_row(row, candidate, leaf_size, seeds) <==> exists|step: int|
            0 <= step <= seeds && #[trigger] ((row + step) % leaf_size) == candidate,
{
    let step = if candidate >= row {
        candidate - row
    } else {
        candidate + leaf_size - row
    };
    assert((row + step) % leaf_size == candidate) by {
        if candidate >= row {
            vstd::arithmetic::div_mod::lemma_small_mod(candidate as nat, leaf_size as nat);
        } else {
            vstd::arithmetic::div_mod::lemma_fundamental_div_mod_converse(
                row + step,
                leaf_size,
                1,
                candidate,
            );
        }
    }
    assert forall|s: int| 0 <= s <= seeds && #[trigger] ((row + s) % leaf_size)
        == candidate implies s == step by {
        if row + s < leaf_size {
            vstd::arithmetic::div_mod::lemma_small_mod((row + s) as nat, leaf_size as nat);
        } else {
            vstd::arithmetic::div_mod::lemma_fundamental_div_mod_converse(
                row + s,
                leaf_size,
                1,
                row + s - leaf_size,
            );
        }
    }
}

/// There are seeds for all that a query takes, and as many as are asked for, as far as
/// there are candidates.
pub proof fn law_seeds_cover_the_fanout(candidates: int, seed_exact: int, fanout: int)
    requires
        0 <= candidates,
        0 <= seed_exact,
        0 <= fanout,
    ensures
        seed_count(candidates, seed_exact, fanout) <= candidates,
        seed_count(candidates, seed_exact, fanout) < candidates ==> seed_count(
            candidates,
            seed_exact,
            fanout,
        ) >= seed_exact && seed_count(candidates, seed_exact, fanout) >= fanout && seed_count(
            candidates,
            seed_exact,
            fanout,
        ) >= 1,
        seed_count(candidates, seed_exact, fanout) > 1 ==> seed_count(
            candidates,
            seed_exact,
            fanout,
        ) <= seed_exact || seed_count(candidates, seed_exact, fanout) <= fanout,
{
}

/// The candidate in a lane of a block.
pub open spec fn lane_candidate(block_start: int, distances: Seq<F32>, j: int) -> Neighbor {
    Neighbor { index: (block_start + j) as usize, dist: distances[j] }
}

/// `v` is kept, or all of the `k` that are kept are at least as near.
pub open spec fn kept_or_beaten(kept: Seq<Neighbor>, k: int, v: Neighbor) -> bool {
    kept.contains(v) || (kept.len() == k && forall|i: int|
        0 <= i < kept.len() ==> units((#[trigger] kept[i]).dist) <= units(v.dist))
}

/// The `k` nearest of a selection and of the set lanes of a block.
pub open spec fn nearest_of_both(
    entries: Seq<Neighbor>,
    k: int,
    block_start: int,
    mask: u64,
    distances: Seq<F32>,
    n: int,
    kept: Seq<Neighbor>,
) -> bool {
    &&& kept.len() <= k
    &&& numbered(kept)
    &&& rising(kept)
    &&& forall|i: int|
        0 <= i < kept.len() ==> entries.contains(#[trigger] kept[i]) || exists|j: int|
            0 <= j < n && bit_set(mask as int, j) && kept[i] == #[trigger] lane_candidate(
                block_start,
                distances,
                j,
            )
    &&& forall|i: int| 0 <= i < entries.len() ==> kept_or_beaten(kept, k, #[trigger] entries[i])
    &&& forall|j: int|
        0 <= j < n && bit_set(mask as int, j) ==> kept_or_beaten(
            kept,
            k,
            #[trigger] lane_candidate(block_start, distances, j),
        )
}

/// What is kept and what the set lanes hold can be compared, and none of them is kept yet.
pub open spec fn comparable_lanes(
    entries: Seq<Neighbor>,
    block_start: int,
    mask: u64,
    distances: Seq<F32>,
) -> bool {
    &&& numbered(entries)
    &&& rising(entries)
    &&& forall|i: int|
        0 <= i < entries.len() ==> !(block_start <= (#[trigger] entries[i]).index < block_start
            + 64)
    &&& forall|j: int|
        0 <= j < 64 && bit_set(mask as int, j) ==> !unordered(#[trigger] distances[j])
}

/// Taking a candidate in keeps what is kept, or beats it.
proof fn lemma_taken_in(before: Seq<Neighbor>, k: int, candidate: Neighbor, after: Seq<Neighbor>)
    requires
        k > 0,
        before.len() <= k,
        numbered(before),
        rising(before),
        !unordered(candidate.dist),
        crate::selection_laws::shown_to(before, k, candidate, after),
    ensures
        after.len() <= k,
        numbered(after),
        rising(after),
        kept_or_beaten(after, k, candidate),
        forall|i: int|
            0 <= i < after.len() ==> before.contains(#[trigger] after[i]) || after[i] == candidate,
        forall|v: Neighbor| #[trigger]
            kept_or_beaten(before, k, v) ==> kept_or_beaten(after, k, v),
{
    let full = before.len() >= k;
    let enters = !full || units(candidate.dist) < units(before[k - 1].dist);
    if enters {
        let rest = if full {
            before.take(k - 1)
        } else {
            before
        };
        let p = choose|p: int|
            0 <= p <= rest.len() && after == #[trigger] rest.insert(p, candidate) && (forall|i: int|
                0 <= i < p ==> units((#[trigger] rest[i]).dist) <= units(candidate.dist)) && (
            forall|i: int|
                p <= i < rest.len() ==> units((#[trigger] rest[i]).dist) > units(candidate.dist));
        assert forall|i: int| 0 <= i < rest.len() implies #[trigger] rest[i] == before[i] by {}
        assert(after[p] == candidate);
        assert forall|i: int| 0 <= i < after.len() implies (before.contains(#[trigger] after[i])
            || after[i] == candidate) && !unordered(after[i].dist) by {
            if i != p {
                let a = if i < p {
                    i
                } else {
                    i - 1
                };
                assert(after[i] == rest[a] && rest[a] == before[a]);
            }
        }
        assert forall|i: int, j: int| 0 <= i < j < after.len() implies units(
            (#[trigger] after[i]).dist,
        ) <= units((#[trigger] after[j]).dist) by {
            let a = if i < p {
                i
            } else {
                i - 1
            };
            let b = if j < p {
                j
            } else {
                j - 1
            };
            if i != p {
                assert(after[i] == rest[a] && rest[a] == before[a]);
            }
            if j != p {
                assert(after[j] == rest[b] && rest[b] == before[b]);
            }
        }
        assert forall|v: Neighbor| #[trigger] kept_or_beaten(before, k, v) implies kept_or_beaten(
            after,
            k,
            v,
        ) by {
            if before.contains(v) {
                let b = choose|b: int| 0 <= b < before.len() && before[b] == v;
                if b < rest.len() {
                    assert(rest[b] == v);
                    assert(after[if b < p {
                        b
                    } else {
                        b + 1
                    }] == v);
                } else {
                    assert(b == k - 1);
                    assert forall|i: int| 0 <= i < after.len() implies units(
                        (#[trigger] after[i]).dist,
                    ) <= units(v.dist) by {
                        if i != p {
                            let a = if i < p {
                                i
                            } else {
                                i - 1
                            };
                            assert(after[i] == rest[a] && rest[a] == before[a]);
                            assert(units(before[a].dist) <= units(before[k - 1].dist));
                        }
                    }
                }
            } else {
                assert(units(before[k - 1].dist) <= units(v.dist));
                assert forall|i: int| 0 <= i < after.len() implies units((#[trigger] after[i]).dist)
                    <= units(v.dist) by {
                    if i != p {
                        let a = if i < p {
                            i
                        } else {
                            i - 1
                        };
                        assert(after[i] == rest[a] && rest[a] == before[a]);
                        assert(units(before[a].dist) <= units(v.dist));
                    }
                }
            }
        }
    } else {
        assert(after == before);
        assert forall|i: int| 0 <= i < after.len() implies units((#[trigger] after[i]).dist)
            <= units(candidate.dist) by {
            if i < k - 1 {
                assert(units(before[i].dist) <= units(before[k - 1].dist));
            }
        }
        assert forall|i: int| 0 <= i < after.len() implies before.contains(#[trigger] after[i]) by {
            assert(before[i] == after[i]);
        }
    }
}

/// Showing the set lanes of a block to a selection leaves the nearest of both in it: lanes
/// that are not set do not count, and no distance is taken for another lane's.
pub proof fn law_lanes_compete_with_the_kept(
    entries: Seq<Neighbor>,
    k: int,
    block_start: int,
    mask: u64,
    distances: Seq<F32>,
    n: int,
)
    requires
        k > 0,
        0 <= n <= 64,
        distances.len() == 64,
        0 <= block_start,
        block_start + 64 <= usize::MAX,
        entries.len() <= k,
        comparable_lanes(entries, block_start, mask, distances),
    ensures
        nearest_of_both(
            entries,
            k,
            block_start,
            mask,
            distances,
            n,
            lanes_pushed(entries, k, block_start, mask, distances, n),
        ),
    decreases n,
{
    let after = lanes_pushed(entries, k, block_start, mask, distances, n);
    if n > 0 {
        law_lanes_compete_with_the_kept(entries, k, block_start, mask, distances, n - 1);
        law_lanes_are_bits(mask, n - 1);
        let before = lanes_pushed(entries, k, block_start, mask, distances, n - 1);
        let candidate = lane_candidate(block_start, distances, n - 1);
        if lane(mask, n - 1) {
            assert(!holds_index(before, candidate.index)) by {
                if holds_index(before, candidate.index) {
                    let i = choose|i: int|
                        0 <= i < before.len() && (#[trigger] before[i]).index == candidate.index;
                    if entries.contains(before[i]) {
                        let e = choose|e: int| 0 <= e < entries.len() && entries[e] == before[i];
                        assert(entries[e].index == candidate.index);
                    } else {
                        let j = choose|j: int|
                            0 <= j < n - 1 && bit_set(mask as int, j) && before[i]
                                == #[trigger] lane_candidate(block_start, distances, j);
                    }
                }
            }
            assert(!unordered(distances[n - 1]));
            law_selection_takes_the_nearer(before, k, candidate);
            lemma_taken_in(before, k, candidate, after);
            assert forall|i: int| 0 <= i < after.len() implies entries.contains(#[trigger] after[i])
                || exists|j: int|
                0 <= j < n && bit_set(mask as int, j) && after[i] == #[trigger] lane_candidate(
                    block_start,
                    distances,
                    j,
                ) by {
                if after[i] == candidate {
                    assert(after[i] == lane_candidate(block_start, distances, n - 1));
                } else {
                    let b = choose|b: int| 0 <= b < before.len() && before[b] == after[i];
                    assert(before[b] == after[i]);
                }
            }
            assert forall|j: int| 0 <= j < n && bit_set(mask as int, j) implies kept_or_beaten(
                after,
                k,
                #[trigger] lane_candidate(block_start, distances, j),
            ) by {
                if j < n - 1 {
                    assert(kept_or_beaten(
                        before,
                        k,
                        lane_candidate(block_start, distances, j),
                    ));
                }
            }
            assert forall|i: int| 0 <= i < entries.len() implies kept_or_beaten(
                after,
                k,
                #[trigger] entries[i],
            ) by {
                assert(kept_or_beaten(before, k, entries[i]));
            }
        }
    }
}

} // verus!
