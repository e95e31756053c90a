//! What the steps of a pruning do, said of the numbers that they compare.

use vstd::prelude::*;

use crate::final_prune::{
    deeper, distance_key, distance_keys, first_lit, nearest_candidates, shadows_after, FinalPrune,
    PruneCandidate,
};
use crate::float_bits::F32;
use crate::float_value::{law_singles_compare_as_numbers, units, unordered};
use crate::order::{precedes, sorts};

verus! {

/// `result` is the larger of two numbers, or the only one of the two that is a number.
pub open spec fn larger_of(held: F32, thrown: F32, result: F32) -> bool {
    &&& result == held || result == thrown
    &&& !unordered(held) ==> !unordered(result) && units(held) <= units(result)
    &&& !unordered(thrown) ==> !unordered(result) && units(thrown) <= units(result)
}

/// After a shadow is thrown the depth is one of the two, and neither of them is above it.
/// What is no number changes no depth that is one.
pub proof fn law_depth_is_the_larger_one(held: F32, thrown: F32)
    ensures
        larger_of(held, thrown, deeper(held, thrown)),
{
    law_singles_compare_as_numbers(held, thrown);
    law_singles_compare_as_numbers(thrown, held);
}

/// A shadow on a candidate at this depth changes nothing: it lies above the limit already.
pub open spec fn beyond(depth: F32, limit: F32) -> bool {
    !unordered(depth) && !unordered(limit) && units(limit) < units(depth)
}

/// What the shadows of the `i`-th candidate make of the depths: those in front of it stay,
/// its own is the largest number, and each one behind it that does not lie beyond the limit
/// is the larger of what it was and the shadow.
pub open spec fn shaded(
    depths: Seq<F32>,
    thrown: Seq<F32>,
    limit: F32,
    i: int,
    after: Seq<F32>,
) -> bool {
    &&& after.len() == depths.len()
    &&& forall|j: int| 0 <= j < i ==> #[trigger] after[j] == depths[j]
    &&& after[i].bits == 0x7f7f_ffff
    &&& forall|j: int|
        i < j < depths.len() ==> if beyond(depths[j], limit) {
            #[trigger] after[j] == depths[j]
        } else {
            larger_of(depths[j], thrown[j], after[j])
        }
}

/// A candidate that is kept throws its shadows on those behind it alone, and none of them
/// gets a depth that is neither its own nor the shadow.
pub proof fn law_shadows_fall_behind(depths: Seq<F32>, thrown: Seq<F32>, limit: F32, i: int)
    requires
        0 <= i < depths.len(),
    ensures
        shaded(depths, thrown, limit, i, shadows_after(depths, thrown, limit, i)),
{
    let after = shadows_after(depths, thrown, limit, i);
    assert forall|j: int| i < j < depths.len() implies if beyond(depths[j], limit) {
        #[trigger] after[j] == depths[j]
    } else {
        larger_of(depths[j], thrown[j], after[j])
    } by {
        law_depth_is_the_larger_one(depths[j], thrown[j]);
        law_singles_compare_as_numbers(limit, depths[j]);
    }
}

/// A candidate at this depth may be taken at this level: the depth is not above it.
pub open spec fn in_light(depth: F32, level: F32) -> bool {
    unordered(depth) || unordered(level) || units(depth) <= units(level)
}

/// At level `l` the candidates from `from` to in front of `to` lie in the dark.
pub open spec fn all_dark(depths: Seq<F32>, levels: Seq<F32>, l: int, from: int, to: int) -> bool {
    forall|m: int| from <= m < to ==> !in_light(#[trigger] depths[m], levels[l])
}

/// A walk over the candidates, level by level, from candidate `next` at level `level` on:
/// it ends at the first candidate in the light, or finds all that it meets in the dark.
pub open spec fn ends_at_first_light(
    depths: Seq<F32>,
    levels: Seq<F32>,
    level: int,
    next: int,
    found: Option<(int, int)>,
) -> bool {
    let n = depths.len() as int;
    match found {
        Some((l, i)) => {
            &&& level <= l < levels.len()
            &&& 0 <= i < n
            &&& l == level ==> next <= i
            &&& in_light(depths[i], levels[l])
            &&& all_dark(depths, levels, level, next, if l == level {
                i
            } else {
                n
            })
            &&& forall|k: int| level < k < l ==> #[trigger] all_dark(depths, levels, k, 0, n)
            &&& level < l ==> all_dark(depths, levels, l, 0, i)
        },
        None => {
            &&& level < levels.len() ==> all_dark(depths, levels, level, next, n)
            &&& forall|k: int|
                level < k < levels.len() ==> #[trigger] all_dark(depths, levels, k, 0, n)
        },
    }
}

/// The candidate that is selected is the first one in the light: every candidate that the
/// walk passed on its way, at the current level or a later one, lies deeper than the level
/// at which it was passed. Where none is found, all that remain do.
pub proof fn law_selection_takes_the_first_in_the_light(
    depths: Seq<F32>,
    levels: Seq<F32>,
    level: int,
    next: int,
)
    requires
        0 <= level,
        0 <= next,
    ensures
        ends_at_first_light(depths, levels, level, next, first_lit(depths, levels, level, next)),
    decreases levels.len() - level, depths.len() + 1 - next,
{
    let n = depths.len() as int;
    let found = first_lit(depths, levels, level, next);
    if level < levels.len() && n > 0 {
        if next >= n {
            law_selection_takes_the_first_in_the_light(depths, levels, level + 1, 0);
            assert(all_dark(depths, levels, level, next, n));
            match found {
                Some((l, i)) => {
                    assert forall|k: int| level < k < l implies #[trigger] all_dark(
                        depths,
                        levels,
                        k,
                        0,
                        n,
                    ) by {
                        if k == level + 1 {
                            assert(all_dark(depths, levels, level + 1, 0, n));
                        }
                    }
                },
                None => {
                    assert forall|k: int| level < k < levels.len() implies #[trigger] all_dark(
                        depths,
                        levels,
                        k,
                        0,
                        n,
                    ) by {
                        if k == level + 1 {
                            assert(all_dark(depths, levels, level + 1, 0, n));
                        }
                    }
                },
            }
        } else {
            law_singles_compare_as_numbers(levels[level], depths[next]);
            law_singles_compare_as_numbers(depths[next], levels[level]);
            if !in_light(depths[next], levels[level]) {
                law_selection_takes_the_first_in_the_light(depths, levels, level, next + 1);
                let to = match found {
                    Some((l, i)) if l == level => i,
                    _ => n,
                };
                assert(all_dark(depths, levels, level, next + 1, to));
                assert(all_dark(depths, levels, level, next, to)) by {
                    assert forall|m: int| next <= m < to implies !in_light(
                        #[trigger] depths[m],
                        levels[level],
                    ) by {
                        if m > next {
                            assert(!in_light(depths[m], levels[level]));
                        }
                    }
                }
            }
        }
    }
}

/// A candidate in the light that the walk has not passed yet at the current level is not
/// passed over: one is selected at this level, and none behind that candidate.
pub proof fn law_light_is_not_passed_over(
    depths: Seq<F32>,
    levels: Seq<F32>,
    level: int,
    next: int,
    j: int,
)
    requires
        0 <= level < levels.len(),
        0 <= next <= j < depths.len(),
        in_light(depths[j], levels[level]),
    ensures
        first_lit(depths, levels, level, next) matches Some((l, i)) && l == level && next <= i <= j,
{
    law_selection_takes_the_first_in_the_light(depths, levels, level, next);
}

/// Candidates out of a pool: the `limit` nearest, each once, nearest first.
pub open spec fn nearest_of_pool(
    pool: Seq<PruneCandidate>,
    limit: int,
    chosen: Seq<PruneCandidate>,
    places: Seq<usize>,
) -> bool {
    &&& chosen.len() == if pool.len() <= limit {
        pool.len() as int
    } else {
        limit
    }
    &&& places.len() == pool.len()
    &&& places.no_duplicates()
    &&& forall|i: int| 0 <= i < pool.len() ==> 0 <= #[trigger] places[i] < pool.len()
    &&& forall|i: int| 0 <= i < chosen.len() ==> #[trigger] chosen[i] == pool[places[i] as int]
    &&& forall|i: int, j: int|
        0 <= i < j < pool.len() && !unordered(pool[(#[trigger] places[i]) as int].dist)
            && !unordered(pool[(#[trigger] places[j]) as int].dist) ==> units(
            pool[places[i] as int].dist,
        ) <= units(pool[places[j] as int].dist)
}

/// The candidates of a pruning are the nearest ones of its pool, each once, in order of
/// their distances as numbers; no candidate that was left out is nearer than one that stays.
pub proof fn law_candidates_are_the_nearest(
    pool: Seq<PruneCandidate>,
    order: Seq<usize>,
    limit: int,
)
    requires
        0 <= limit,
        sorts(distance_keys(pool), order),
    ensures
        nearest_of_pool(pool, limit, nearest_candidates(pool, order, limit), order),
{
    let keys = distance_keys(pool);
    assert(keys.len() == pool.len());
    assert forall|i: int, j: int| 0 <= i < j < order.len() implies order[i] != order[j] by {
        assert(precedes(keys, order[i] as int, order[j] as int));
    }
    assert forall|i: int, j: int|
        0 <= i < j < pool.len() && !unordered(pool[(#[trigger] order[i]) as int].dist)
            && !unordered(pool[(#[trigger] order[j]) as int].dist) implies units(
        pool[order[i] as int].dist,
    ) <= units(pool[order[j] as int].dist) by {
        assert(precedes(keys, order[i] as int, order[j] as int));
        let a = pool[order[i] as int].dist;
        let b = pool[order[j] as int].dist;
        assert(keys[order[i] as int] == distance_key(a));
        assert(keys[order[j] as int] == distance_key(b));
        law_singles_compare_as_numbers(a, b);
        law_singles_compare_as_numbers(b, a);
    }
}

/// What filling free places makes of the neighbours: they stay in front, and behind them
/// come candidates that were no neighbours, each once, none of them the point. A candidate
/// is left out only where no room was left, and then no farther one came in.
pub open spec fn fills_nearest_first(
    edges: Seq<u32>,
    candidates: Seq<PruneCandidate>,
    point: u32,
    degree: int,
    all: Seq<u32>,
) -> bool {
    &&& edges.len() <= all.len()
    &&& edges.len() <= degree ==> all.len() <= degree
    &&& forall|k: int| 0 <= k < edges.len() ==> #[trigger] all[k] == edges[k]
    &&& forall|k: int|
        edges.len() <= k < all.len() ==> #[trigger] all[k] != point && !edges.contains(all[k])
    &&& forall|k: int, m: int|
        edges.len() <= k < m < all.len() ==> #[trigger] all[k] != #[trigger] all[m]
    &&& forall|k: int|
        edges.len() <= k < all.len() ==> exists|c: int|
            0 <= c < candidates.len() && (#[trigger] candidates[c]).id == #[trigger] all[k]
                && forall|b: int|
                0 <= b < c && (#[trigger] candidates[b]).id != point ==> all.subrange(
                    0,
                    k,
                ).contains(candidates[b].id)
    &&& all.len() < degree ==> forall|c: int|
        0 <= c < candidates.len() && (#[trigger] candidates[c]).id != point ==> all.contains(
            candidates[c].id,
        )
}

/// Free places are filled with the nearest candidates that are not kept yet, in the order
/// of their distances, until there is no room or no candidate left.
pub proof fn law_saturation_fills_nearest_first(
    edges: Seq<u32>,
    candidates: Seq<PruneCandidate>,
    point: u32,
    degree: int,
)
    ensures
        fills_nearest_first(
            edges,
            candidates,
            point,
            degree,
            FinalPrune::filled(edges, candidates, point, degree, candidates.len() as int),
        ),
{
    let n = candidates.len() as int;
    lemma_fills(edges, candidates, point, degree, n);
    assert(candidates.take(n) =~= candidates);
}

proof fn lemma_fills(
    edges: Seq<u32>,
    candidates: Seq<PruneCandidate>,
    point: u32,
    degree: int,
    n: int,
)
    requires
        0 <= n <= candidates.len(),
    ensures
        fills_nearest_first(
            edges,
            candidates.take(n),
            point,
            degree,
            FinalPrune::filled(edges, candidates, point, degree, n),
        ),
    decreases n,
{
    if n > 0 {
        lemma_fills(edges, candidates, point, degree, n - 1);
        let before = FinalPrune::filled(edges, candidates, point, degree, n - 1);
        let all = FinalPrune::filled(edges, candidates, point, degree, n);
        let id = candidates[n - 1].id;
        let few = candidates.take(n - 1);
        let more = candidates.take(n);
        assert forall|c: int| 0 <= c < n - 1 implies #[trigger] more[c] == few[c] by {}
        assert(more[n - 1].id == id);
        let grown = before.len() < degree && id != point && !before.contains(id);
        assert forall|k: int| 0 <= k < before.len() implies #[trigger] all[k] == before[k] by {}
        assert forall|k: int| 0 <= k < before.len() implies #[trigger] all.subrange(0, k)
            == before.subrange(0, k) by {
            assert(all.subrange(0, k) =~= before.subrange(0, k));
        }
        if grown {
            assert(all[before.len() as int] == id);
            assert(all.subrange(0, before.len() as int) =~= before);
            assert(!edges.contains(id)) by {
                if edges.contains(id) {
                    let e = choose|e: int| 0 <= e < edges.len() && edges[e] == id;
                    assert(before[e] == id);
                }
            }
            assert forall|k: int, m: int| edges.len() <= k < m < all.len() implies
                #[trigger] all[k] != #[trigger] all[m] by {
                if m == before.len() {
                    assert(before[k] == all[k]);
                    assert(before.contains(all[k]));
                }
            }
        }
        assert forall|k: int| edges.len() <= k < all.len() implies exists|c: int|
            0 <= c < more.len() && (#[trigger] more[c]).id == #[trigger] all[k] && forall|b: int|
                0 <= b < c && (#[trigger] more[b]).id != point ==> all.subrange(0, k).contains(
                    more[b].id,
                ) by {
            if k < before.len() {
                assert(all[k] == before[k]);
                let c = choose|c: int|
                    0 <= c < few.len() && (#[trigger] few[c]).id == before[k] && forall|b: int|
                        0 <= b < c && (#[trigger] few[b]).id != point ==> before.subrange(
                            0,
                            k,
                        ).contains(few[b].id);
                assert(more[c].id == all[k]);
                assert forall|b: int| 0 <= b < c && (#[trigger] more[b]).id != point implies
                    all.subrange(0, k).contains(more[b].id) by {
                    assert(few[b] == more[b]);
                    assert(all.subrange(0, k) == before.subrange(0, k));
                }
            } else {
                assert(more[n - 1].id == all[k]);
                assert forall|b: int| 0 <= b < n - 1 && (#[trigger] more[b]).id != point implies
                    all.subrange(0, k).contains(more[b].id) by {
                    assert(few[b] == more[b]);
                    assert(before.contains(few[b].id));
                }
            }
        }
        if all.len() < degree {
            assert forall|c: int| 0 <= c < more.len() && (#[trigger] more[c]).id != point implies
                all.contains(more[c].id) by {
                if c < n - 1 {
                    assert(few[c] == more[c]);
                    assert(before.contains(few[c].id));
                    let k = choose|k: int| 0 <= k < before.len() && before[k] == few[c].id;
                    assert(all[k] == more[c].id);
                } else if grown {
                    assert(all[before.len() as int] == id);
                } else {
                    assert(before.contains(id));
                }
            }
        }
    }
}

} // verus!
