//! Which candidates a selection of the nearest keeps, said of distances as numbers.

use vstd::prelude::*;

use crate::ads_topk::{holds_index, overlap, tiny_entered, tiny_pushed, tiny_threshold};
use crate::float_bits::F32;
use crate::float_value::{law_singles_compare_as_numbers, units, unordered};
use crate::leaf_build::{nearest_row, row_candidates};
use crate::topk::{insertion_point, lemma_insertion_point, pushed, scanned, Neighbor};

verus! {

/// Every distance is a number.
pub open spec fn numbered(entries: Seq<Neighbor>) -> bool {
    forall|i: int| 0 <= i < entries.len() ==> !unordered((#[trigger] entries[i]).dist)
}

/// Nearest first.
pub open spec fn rising(entries: Seq<Neighbor>) -> bool {
    forall|i: int, j: int|
        0 <= i < j < entries.len() ==> units((#[trigger] entries[i]).dist) <= units(
            (#[trigger] entries[j]).dist,
        )
}

/// `after` holds `rest`, in its order, and the candidate in front of the first entry that is
/// farther.
pub open spec fn taken_in(rest: Seq<Neighbor>, candidate: Neighbor, after: Seq<Neighbor>) -> bool {
    exists|p: int|
        0 <= p <= rest.len() && after == #[trigger] rest.insert(p, candidate) && (forall|i: int|
            0 <= i < p ==> units((#[trigger] rest[i]).dist) <= units(candidate.dist)) && (forall|
            i: int,
        |
            p <= i < rest.len() ==> units((#[trigger] rest[i]).dist) > units(candidate.dist))
}

/// What showing a candidate does to a selection of the `k` nearest: it comes in while there
/// is room, and later in place of the last one where it is nearer than that.
pub open spec fn shown_to(
    entries: Seq<Neighbor>,
    k: int,
    candidate: Neighbor,
    after: Seq<Neighbor>,
) -> bool {
    if k <= 0 {
        after == entries
    } else if entries.len() < k {
        taken_in(entries, candidate, after)
    } else if units(candidate.dist) < units(entries[k - 1].dist) {
        taken_in(entries.take(k - 1), candidate, after)
    } else {
        after == entries
    }
}

proof fn lemma_point(entries: Seq<Neighbor>, n: int, candidate: Neighbor)
    requires
        0 <= n <= entries.len(),
        numbered(entries),
        rising(entries),
        !unordered(candidate.dist),
    ensures
        taken_in(
            entries.take(n),
            candidate,
            entries.take(n).insert(insertion_point(entries, candidate.dist, n), candidate),
        ),
{
    let p = insertion_point(entries, candidate.dist, n);
    lemma_insertion_point(entries, candidate.dist, n);
    let rest = entries.take(n);
    assert forall|i: int| p <= i < rest.len() implies units((#[trigger] rest[i]).dist) > units(
        candidate.dist,
    ) by {
        assert(candidate.dist.below(entries[i].dist));
        law_singles_compare_as_numbers(candidate.dist, entries[i].dist);
    }
    if p > 0 {
        law_singles_compare_as_numbers(candidate.dist, entries[p - 1].dist);
        assert(!unordered(entries[p - 1].dist));
    }
    assert forall|i: int| 0 <= i < p implies units((#[trigger] rest[i]).dist) <= units(
        candidate.dist,
    ) by {
        assert(rest[i] == entries[i]);
        if i < p - 1 {
            assert(units(entries[i].dist) <= units(entries[p - 1].dist));
        }
    }
    assert(rest.insert(p, candidate) == rest.insert(p, candidate));
}

/// A selection of the nearest takes a candidate in exactly where there is room or it is
/// nearer than the last one, and at its place in the order of distances.
pub proof fn law_selection_takes_the_nearer(entries: Seq<Neighbor>, k: int, candidate: Neighbor)
    requires
        entries.len() <= k || k <= 0,
        numbered(entries),
        rising(entries),
        !unordered(candidate.dist),
    ensures
        shown_to(entries, k, candidate, pushed(entries, k, candidate)),
        k > 0 && !holds_index(entries, candidate.index) ==> shown_to(
            entries,
            k,
            candidate,
            tiny_pushed(entries, k, candidate),
        ),
        k > 0 ==> shown_to(entries, k, candidate, tiny_entered(entries, k, candidate)),
        holds_index(entries, candidate.index) ==> tiny_pushed(entries, k, candidate) == entries,
{
    if k > 0 {
        if entries.len() < k {
            lemma_point(entries, entries.len() as int, candidate);
            assert(entries.take(entries.len() as int) =~= entries);
        } else {
            lemma_point(entries, k - 1, candidate);
            assert(!unordered(entries[k - 1].dist));
            law_singles_compare_as_numbers(candidate.dist, entries[k - 1].dist);
            law_singles_compare_as_numbers(entries[k - 1].dist, candidate.dist);
        }
    }
}

/// One candidate comes before another: it is nearer, or as near with a smaller index.
pub open spec fn ahead(a: Neighbor, b: Neighbor) -> bool {
    units(a.dist) < units(b.dist) || (units(a.dist) == units(b.dist) && a.index < b.index)
}

/// `kept` are the first `k` of `seen` by distance and index.
pub open spec fn first_of(kept: Seq<Neighbor>, seen: Seq<Neighbor>, k: int) -> bool {
    &&& kept.len() == if seen.len() <= k {
        seen.len() as int
    } else {
        k
    }
    &&& forall|i: int, j: int|
        0 <= i < j < kept.len() ==> ahead(#[trigger] kept[i], #[trigger] kept[j])
    &&& forall|i: int| 0 <= i < kept.len() ==> seen.contains(#[trigger] kept[i])
    &&& forall|s: int, i: int|
        0 <= s < seen.len() && 0 <= i < kept.len() && !kept.contains(#[trigger] seen[s]) ==> ahead(
            #[trigger] kept[i],
            seen[s],
        )
}

proof fn lemma_first_of_numbers(kept: Seq<Neighbor>, seen: Seq<Neighbor>, k: int)
    requires
        first_of(kept, seen, k),
        numbered(seen),
    ensures
        numbered(kept),
        rising(kept),
{
    assert forall|i: int| 0 <= i < kept.len() implies !unordered((#[trigger] kept[i]).dist) by {
        assert(seen.contains(kept[i]));
        let s = choose|s: int| 0 <= s < seen.len() && seen[s] == kept[i];
        assert(!unordered(seen[s].dist));
    }
    assert forall|i: int, j: int| 0 <= i < j < kept.len() implies units((#[trigger] kept[i]).dist)
        <= units((#[trigger] kept[j]).dist) by {
        assert(ahead(kept[i], kept[j]));
    }
}

/// A candidate that is taken in leaves the first `k` in the selection.
#[verifier::spinoff_prover]
proof fn lemma_first_of_grown(
    before: Seq<Neighbor>,
    seen: Seq<Neighbor>,
    k: int,
    candidate: Neighbor,
    after: Seq<Neighbor>,
)
    requires
        k > 0,
        first_of(before, seen, k),
        forall|i: int|
            0 <= i < before.len() ==> (#[trigger] before[i]).index < candidate.index
                && seen.push(candidate).contains(before[i]),
        before.len() >= k ==> units(candidate.dist) < units(before[k - 1].dist),
        taken_in(
            if before.len() >= k {
                before.take(k - 1)
            } else {
                before
            },
            candidate,
            after,
        ),
    ensures
        first_of(after, seen.push(candidate), k),
{
    let full = before.len() >= k;
    let grown = seen.push(candidate);
    assert(grown[seen.len() as int] == candidate);
    let rest = if full {
        before.take(k - 1)
    } else {
        before
    };
    let p = choose|p: int|
        0 <= p <= rest.len() && after == #[trigger] rest.insert(p, candidate) && (forall|i: int|
            0 <= i < p ==> units((#[trigger] rest[i]).dist) <= units(candidate.dist)) && (
        forall|i: int|
            p <= i < rest.len() ==> units((#[trigger] rest[i]).dist) > units(candidate.dist));
    assert forall|i: int| 0 <= i < rest.len() implies #[trigger] rest[i] == before[i] by {}
    assert forall|i: int, j: int| 0 <= i < j < after.len() implies ahead(
        #[trigger] after[i],
        #[trigger] after[j],
    ) by {
        let a = if i < p {
            i
        } else {
            i - 1
        };
        let b = if j < p {
            j
        } else {
            j - 1
        };
        if i != p {
            assert(after[i] == rest[a] && rest[a] == before[a]);
        }
        if j != p {
            assert(after[j] == rest[b] && rest[b] == before[b]);
        }
        if i != p && j != p {
            assert(ahead(before[a], before[b]));
        }
    }
    assert forall|i: int| 0 <= i < after.len() implies grown.contains(#[trigger] after[i]) by {
        if i != p {
            let a = if i < p {
                i
            } else {
                i - 1
            };
            assert(after[i] == rest[a] && rest[a] == before[a]);
        }
    }
    assert forall|s: int, i: int|
        0 <= s < grown.len() && 0 <= i < after.len() && !after.contains(
            #[trigger] grown[s],
        ) implies ahead(#[trigger] after[i], grown[s]) by {
        assert(after[p] == candidate);
        assert(s < seen.len());
        let v = seen[s];
        assert(grown[s] == v);
        if before.contains(v) {
            let b = choose|b: int| 0 <= b < before.len() && before[b] == v;
            if b < rest.len() {
                assert(rest[b] == v);
                assert(after[if b < p {
                    b
                } else {
                    b + 1
                }] == v);
            }
            assert(full && b == k - 1);
            if i != p {
                let a = if i < p {
                    i
                } else {
                    i - 1
                };
                assert(after[i] == rest[a] && rest[a] == before[a]);
                assert(ahead(before[a], before[k - 1]));
            }
        } else {
            assert(before.len() == k) by {
                if before.len() < k {
                    lemma_all_kept(before, seen, k, s);
                }
            }
            assert(ahead(before[k - 1], seen[s]));
            if i != p {
                let a = if i < p {
                    i
                } else {
                    i - 1
                };
                assert(after[i] == rest[a] && rest[a] == before[a]);
                assert(ahead(before[a], seen[s]));
            }
        }
    }
}

/// A candidate with a larger index than all before comes in behind those that are as near.
#[verifier::spinoff_prover]
proof fn lemma_first_of_step(
    before: Seq<Neighbor>,
    seen: Seq<Neighbor>,
    k: int,
    candidate: Neighbor,
)
    requires
        k > 0,
        first_of(before, seen, k),
        numbered(seen),
        !unordered(candidate.dist),
        forall|s: int| 0 <= s < seen.len() ==> (#[trigger] seen[s]).index < candidate.index,
    ensures
        first_of(pushed(before, k, candidate), seen.push(candidate), k),
{
    lemma_first_of_numbers(before, seen, k);
    law_selection_takes_the_nearer(before, k, candidate);
    let after = pushed(before, k, candidate);
    let grown = seen.push(candidate);
    let full = before.len() >= k;
    let enters = !full || units(candidate.dist) < units(before[k - 1].dist);
    assert(grown[seen.len() as int] == candidate);
    assert forall|i: int| 0 <= i < before.len() implies (#[trigger] before[i]).index
        < candidate.index && grown.contains(before[i]) by {
        assert(seen.contains(before[i]));
        let s = choose|s: int| 0 <= s < seen.len() && seen[s] == before[i];
        assert(seen[s].index < candidate.index);
        assert(grown[s] == before[i]);
    }
    if enters {
        lemma_first_of_grown(before, seen, k, candidate, after);
    } else {
        assert(after == before);
        assert forall|s: int, i: int|
            0 <= s < grown.len() && 0 <= i < after.len() && !after.contains(
                #[trigger] grown[s],
            ) implies ahead(#[trigger] after[i], grown[s]) by {
            if s < seen.len() {
                assert(grown[s] == seen[s]);
                assert(ahead(before[i], seen[s]));
            } else {
                if i < k - 1 {
                    assert(ahead(before[i], before[k - 1]));
                }
                assert(before[i].index < candidate.index);
            }
        }
    }
}

/// While there is room everyone is kept.
proof fn lemma_all_kept(kept: Seq<Neighbor>, seen: Seq<Neighbor>, k: int, s: int)
    requires
        first_of(kept, seen, k),
        kept.len() < k,
        0 <= s < seen.len(),
    ensures
        kept.contains(seen[s]),
{
    if !kept.contains(seen[s]) {
        assert forall|i: int, j: int| 0 <= i < j < kept.len() implies kept[i] != kept[j] by {
            assert(ahead(kept[i], kept[j]));
        }
        kept.unique_seq_to_set();
        vstd::seq_lib::seq_to_set_is_finite(seen);
        seen.lemma_cardinality_of_set();
        assert(kept.to_set().insert(seen[s]).subset_of(seen.to_set())) by {
            assert forall|v: Neighbor| kept.to_set().insert(seen[s]).contains(v) implies
                seen.to_set().contains(v) by {
                if v != seen[s] {
                    let i = choose|i: int| 0 <= i < kept.len() && kept[i] == v;
                    assert(seen.contains(kept[i]));
                }
            }
        }
        vstd::seq_lib::seq_to_set_is_finite(kept);
        vstd::set_lib::lemma_len_subset(kept.to_set().insert(seen[s]), seen.to_set());
    }
}

/// A scan over candidates with rising indices keeps the first `k` of them by distance, and
/// among those as near the ones with the smaller indices.
pub proof fn law_scan_keeps_the_first_by_distance(candidates: Seq<Neighbor>, k: int, n: int)
    requires
        k > 0,
        0 <= n <= candidates.len(),
        numbered(candidates),
        forall|i: int, j: int|
            0 <= i < j < candidates.len() ==> (#[trigger] candidates[i]).index < (
            #[trigger] candidates[j]).index,
    ensures
        first_of(scanned(candidates, k, n), candidates.take(n), k),
    decreases n,
{
    if n > 0 {
        law_scan_keeps_the_first_by_distance(candidates, k, n - 1);
        let seen = candidates.take(n - 1);
        let candidate = candidates[n - 1];
        assert(candidates.take(n) =~= seen.push(candidate));
        assert forall|s: int| 0 <= s < seen.len() implies !unordered((#[trigger] seen[s]).dist)
            && seen[s].index < candidate.index by {
            assert(seen[s] == candidates[s]);
        }
        lemma_first_of_step(scanned(candidates, k, n - 1), seen, k, candidate);
    }
}

/// The `k` nearest points of a leaf for its point `own`: other points of the leaf at their
/// distances, nearest first and by index where they are as near, and every other point of
/// the leaf comes behind all of them.
pub open spec fn nearest_in_leaf(
    dists: Seq<F32>,
    own: int,
    k: int,
    row: Seq<Neighbor>,
) -> bool {
    &&& row.len() == if dists.len() - 1 <= k {
        dists.len() - 1
    } else {
        k
    }
    &&& forall|r: int|
        0 <= r < row.len() ==> (#[trigger] row[r]).index < dists.len() && row[r].index != own
            && row[r].dist == dists[row[r].index as int]
    &&& forall|r: int, s: int|
        0 <= r < s < row.len() ==> ahead(#[trigger] row[r], #[trigger] row[s])
    &&& forall|j: int, r: int|
        0 <= j < dists.len() && j != own && 0 <= r < row.len() && (forall|s: int|
            0 <= s < row.len() ==> (#[trigger] row[s]).index != j) ==> units(
            (#[trigger] row[r]).dist,
        ) < units(#[trigger] dists[j]) || (units(row[r].dist) == units(dists[j]) && row[r].index
            < j)
}

/// The row of a leaf's point holds the points of the leaf that are nearest to it.
pub proof fn law_leaf_row_holds_the_nearest(dists: Seq<F32>, own: int, k: int)
    requires
        0 <= own < dists.len() <= usize::MAX,
        k > 0,
        forall|j: int| 0 <= j < dists.len() && j != own ==> !unordered(#[trigger] dists[j]),
    ensures
        nearest_in_leaf(dists, own, k, nearest_row(dists, own, k)),
{
    let candidates = row_candidates(dists, own);
    let n = dists.len() - 1;
    let row = nearest_row(dists, own, k);
    assert forall|i: int| 0 <= i < n implies !unordered((#[trigger] candidates[i]).dist)
        && candidates[i].index < dists.len() && candidates[i].index != own && candidates[i].dist
        == dists[candidates[i].index as int] by {
        let at = if i < own {
            i
        } else {
            i + 1
        };
        assert(!unordered(dists[at]));
    }
    law_scan_keeps_the_first_by_distance(candidates, k, n);
    assert(candidates.take(n) =~= candidates);
    assert forall|r: int| 0 <= r < row.len() implies (#[trigger] row[r]).index < dists.len()
        && row[r].index != own && row[r].dist == dists[row[r].index as int] by {
        assert(candidates.contains(row[r]));
        let i = choose|i: int| 0 <= i < candidates.len() && candidates[i] == row[r];
        assert(candidates[i].index == row[r].index);
    }
    assert forall|j: int, r: int|
        0 <= j < dists.len() && j != own && 0 <= r < row.len() && (forall|s: int|
            0 <= s < row.len() ==> (#[trigger] row[s]).index != j) implies units(
        (#[trigger] row[r]).dist,
    ) < units(#[trigger] dists[j]) || (units(row[r].dist) == units(dists[j]) && row[r].index
        < j) by {
        let i = if j < own {
            j
        } else {
            j - 1
        };
        assert(candidates[i].index == j && candidates[i].dist == dists[j]);
        assert(!row.contains(candidates[i])) by {
            if row.contains(candidates[i]) {
                let s = choose|s: int| 0 <= s < row.len() && row[s] == candidates[i];
                assert(row[s].index == j);
            }
        }
        assert(ahead(row[r], candidates[i]));
    }
}

/// The overlap of two selections is the number of leaders that both name.
pub proof fn law_overlap_counts_the_common_leaders(approx: Seq<usize>, exact: Seq<usize>, n: int)
    requires
        0 <= n <= approx.len(),
        approx.no_duplicates(),
    ensures
        overlap(approx, exact, n) == approx.take(n).to_set().intersect(exact.to_set()).len(),
        approx.take(n).to_set().intersect(exact.to_set()).finite(),
    decreases n,
{
    let both = approx.take(n).to_set().intersect(exact.to_set());
    if n > 0 {
        law_overlap_counts_the_common_leaders(approx, exact, n - 1);
        let fewer = approx.take(n - 1).to_set().intersect(exact.to_set());
        let last = approx[n - 1];
        assert forall|v: usize| #[trigger] approx.take(n).contains(v) implies approx.take(
            n - 1,
        ).contains(v) || v == last by {
            let some = approx.take(n);
            let i = choose|i: int| 0 <= i < some.len() && some[i] == v;
            if i < n - 1 {
                assert(approx.take(n - 1)[i] == v);
            }
        }
        assert forall|v: usize| #[trigger] approx.take(n - 1).contains(v) implies approx.take(
            n,
        ).contains(v) && v != last by {
            let few = approx.take(n - 1);
            let i = choose|i: int| 0 <= i < few.len() && few[i] == v;
            assert(approx.take(n)[i] == v);
            assert(approx[i] != approx[n - 1]);
        }
        assert(approx.take(n)[n - 1] == last);
        assert(approx.take(n).contains(last));
        if exact.contains(last) {
            assert(both =~= fewer.insert(last));
        } else {
            assert(both =~= fewer);
        }
    } else {
        assert(both =~= Set::<usize>::empty());
    }
}

/// While there is room a leader need only be below the largest number; then it has to be
/// nearer than the last one, and one that is comes in.
pub proof fn law_threshold_is_the_distance_of_the_last(
    entries: Seq<Neighbor>,
    k: int,
    candidate: Neighbor,
)
    requires
        k > 0,
        entries.len() <= k,
        numbered(entries),
        rising(entries),
        !unordered(candidate.dist),
        !holds_index(entries, candidate.index),
    ensures
        entries.len() < k ==> tiny_threshold(entries, k).bits == 0x7f7f_ffff,
        entries.len() == k ==> tiny_threshold(entries, k) == entries[k - 1].dist,
        entries.len() == k ==> (tiny_pushed(entries, k, candidate) == entries <==> units(
            candidate.dist,
        ) >= units(tiny_threshold(entries, k))),
{
    law_selection_takes_the_nearer(entries, k, candidate);
    if entries.len() == k && units(candidate.dist) < units(entries[k - 1].dist) {
        let after = tiny_pushed(entries, k, candidate);
        let rest = entries.take(k - 1);
        let p = choose|p: int| 0 <= p <= rest.len() && after == #[trigger] rest.insert(p, candidate);
        assert(after[p] == candidate);
        assert(entries[p].index != candidate.index);
    }
}

/// What is at no distance that is a number goes last: it comes in while there is room, and
/// then only into a plain selection, in place of the last one.
pub proof fn law_unordered_candidates_go_last(entries: Seq<Neighbor>, k: int, candidate: Neighbor)
    requires
        0 < k,
        entries.len() <= k,
        unordered(candidate.dist),
    ensures
        entries.len() < k ==> pushed(entries, k, candidate) == entries.push(candidate)
            && tiny_entered(entries, k, candidate) == entries.push(candidate),
        entries.len() == k ==> pushed(entries, k, candidate) == entries.take(k - 1).push(candidate)
            && tiny_entered(entries, k, candidate) == entries,
{
    let n = if entries.len() < k {
        entries.len() as int
    } else {
        k - 1
    };
    if n > 0 {
        law_singles_compare_as_numbers(candidate.dist, entries[n - 1].dist);
    }
    assert(insertion_point(entries, candidate.dist, n) == n);
    assert(entries.take(n).insert(n, candidate) =~= entries.take(n).push(candidate));
    if entries.len() < k {
        assert(entries.take(n) =~= entries);
    } else {
        law_singles_compare_as_numbers(entries[k - 1].dist, candidate.dist);
        law_singles_compare_as_numbers(candidate.dist, entries[k - 1].dist);
    }
}

} // verus!
