//! The nearest candidates of a point, kept in order of distance.

use vstd::prelude::*;

use crate::arith::least;
use crate::float_bits::F32;
use crate::float_value::unordered;
use crate::selection_laws::{law_selection_takes_the_nearer, numbered, rising, shown_to};

verus! {

/// The most candidates that a row keeps.
pub const MAX_ROW_TOPK: usize = 32;

/// A candidate and its distance.
#[derive(Clone, Copy, Debug, PartialEq, Eq, Structural)]
pub struct Neighbor {
    pub index: usize,
    pub dist: F32,
}

/// Behind which of the first `n` entries a distance goes: those that are farther
/// make room from the end on.
pub open spec fn insertion_point(entries: Seq<Neighbor>, dist: F32, n: int) -> int
    decreases n,
{
    if n <= 0 {
        0
    } else if dist.below(entries[n - 1].dist) {
        insertion_point(entries, dist, n - 1)
    } else {
        n
    }
}

/// The `k` entries after the candidate was shown to them.
pub open spec fn pushed(entries: Seq<Neighbor>, k: int, candidate: Neighbor) -> Seq<Neighbor> {
    if k <= 0 {
        entries
    } else if entries.len() < k {
        entries.insert(
            insertion_point(entries, candidate.dist, entries.len() as int),
            candidate,
        )
    } else if entries[k - 1].dist.at_most(candidate.dist) {
        entries
    } else {
        entries.take(k - 1).insert(insertion_point(entries, candidate.dist, k - 1), candidate)
    }
}

/// The entries after the first `n` candidates were shown one after the other.
pub open spec fn scanned(candidates: Seq<Neighbor>, k: int, n: int) -> Seq<Neighbor>
    decreases n,
{
    if n <= 0 {
        Seq::<Neighbor>::empty()
    } else {
        pushed(scanned(candidates, k, n - 1), k, candidates[n - 1])
    }
}

pub open spec fn ascending(entries: Seq<Neighbor>) -> bool {
    forall|i: int, j: int|
        0 <= i < j < entries.len() ==> (#[trigger] entries[i]).dist.at_most(
            (#[trigger] entries[j]).dist,
        )
}

pub open spec fn comparable(entries: Seq<Neighbor>) -> bool {
    forall|i: int| 0 <= i < entries.len() ==> !(#[trigger] entries[i]).dist.nan()
}

pub proof fn lemma_insertion_point(entries: Seq<Neighbor>, dist: F32, n: int)
    requires
        0 <= n <= entries.len(),
    ensures
        0 <= insertion_point(entries, dist, n) <= n,
        forall|i: int|
            insertion_point(entries, dist, n) <= i < n ==> dist.below(
                (#[trigger] entries[i]).dist,
            ),
        insertion_point(entries, dist, n) > 0 ==> !dist.below(
            entries[insertion_point(entries, dist, n) - 1].dist,
        ),
    decreases n,
{
    if n > 0 && dist.below(entries[n - 1].dist) {
        lemma_insertion_point(entries, dist, n - 1);
    }
}

/// Inserting a comparable candidate at its place keeps ascending entries ascending.
proof fn lemma_insert_ascending(entries: Seq<Neighbor>, candidate: Neighbor)
    requires
        ascending(entries),
        comparable(entries),
        !candidate.dist.nan(),
    ensures
        ({
            let at = insertion_point(entries, candidate.dist, entries.len() as int);
            &&& 0 <= at <= entries.len()
            &&& ascending(entries.insert(at, candidate))
            &&& comparable(entries.insert(at, candidate))
        }),
{
    let n = entries.len() as int;
    lemma_insertion_point(entries, candidate.dist, n);
    let at = insertion_point(entries, candidate.dist, n);
    let result = entries.insert(at, candidate);
    assert forall|i: int| 0 <= i < result.len() implies !(#[trigger] result[i]).dist.nan() by {
        if i < at {
            assert(result[i] == entries[i]);
        } else if i > at {
            assert(result[i] == entries[i - 1]);
        }
    }
    assert forall|i: int, j: int| 0 <= i < j < result.len() implies (
    #[trigger] result[i]).dist.at_most((#[trigger] result[j]).dist) by {
        let before = if i < at {
            entries[i].dist
        } else {
            entries[i - 1].dist
        };
        if i < at {
            assert(result[i] == entries[i]);
            assert(!candidate.dist.below(entries[at - 1].dist));
            if i < at - 1 {
                assert(entries[i].dist.at_most(entries[at - 1].dist));
            }
        } else if i > at {
            assert(result[i] == entries[i - 1]);
        }
        if j < at {
            assert(result[j] == entries[j]);
        } else if j > at {
            assert(result[j] == entries[j - 1]);
        }
    }
}

pub proof fn lemma_insertion_point_prefix(entries: Seq<Neighbor>, dist: F32, n: int)
    requires
        0 <= n <= entries.len(),
    ensures
        insertion_point(entries, dist, n) == insertion_point(entries.take(n), dist, n),
    decreases n,
{
    if n > 0 {
        if dist.below(entries[n - 1].dist) {
            lemma_insertion_point_prefix(entries, dist, n - 1);
            lemma_insertion_point_prefix(entries.take(n), dist, n - 1);
            assert(entries.take(n).take(n - 1) =~= entries.take(n - 1));
        }
    }
}

/// `kept` are the `k` nearest of `seen` in ascending order: as many as asked for or
/// as there are, and every other one is not nearer than the last of them.
pub open spec fn nearest_of(kept: Seq<Neighbor>, seen: Seq<Neighbor>, k: int) -> bool {
    &&& kept.len() == least(k, seen.len() as int)
    &&& ascending(kept)
    &&& comparable(kept)
    &&& forall|i: int| 0 <= i < kept.len() ==> seen.contains(#[trigger] kept[i])
    &&& forall|i: int| 0 <= i < seen.len() ==> kept_or_beaten(kept, #[trigger] seen[i], k)
}

/// `candidate` is among the kept, or not nearer than the last of `k` kept.
pub open spec fn kept_or_beaten(kept: Seq<Neighbor>, candidate: Neighbor, k: int) -> bool {
    kept.contains(candidate) || (kept.len() == k && kept[k - 1].dist.at_most(candidate.dist))
}

proof fn lemma_contains_after_insert(
    entries: Seq<Neighbor>,
    at: int,
    candidate: Neighbor,
    v: Neighbor,
)
    requires
        0 <= at <= entries.len(),
        entries.contains(v) || v == candidate,
    ensures
        entries.insert(at, candidate).contains(v),
{
    let result = entries.insert(at, candidate);
    if v == candidate {
        assert(result[at] == v);
    } else {
        let p = choose|p: int| 0 <= p < entries.len() && entries[p] == v;
        assert(result[if p < at {
            p
        } else {
            p + 1
        }] == v);
    }
}

proof fn lemma_push_with_room(
    before: Seq<Neighbor>,
    seen: Seq<Neighbor>,
    k: int,
    candidate: Neighbor,
)
    requires
        k > 0,
        nearest_of(before, seen, k),
        before.len() < k,
        !candidate.dist.nan(),
    ensures
        nearest_of(pushed(before, k, candidate), seen.push(candidate), k),
{
    lemma_insert_ascending(before, candidate);
    let at = insertion_point(before, candidate.dist, before.len() as int);
    let kept = before.insert(at, candidate);
    let grown = seen.push(candidate);
    assert(grown[seen.len() as int] == candidate);
    assert forall|i: int| 0 <= i < kept.len() implies grown.contains(#[trigger] kept[i]) by {
        if i != at {
            let v = if i < at {
                before[i]
            } else {
                before[i - 1]
            };
            assert(kept[i] == v);
            assert(seen.contains(v));
            let p = choose|p: int| 0 <= p < seen.len() && seen[p] == v;
            assert(grown[p] == v);
        }
    }
    assert forall|i: int| 0 <= i < grown.len() implies kept_or_beaten(
        kept,
        #[trigger] grown[i],
        k,
    ) by {
        if i < seen.len() {
            assert(kept_or_beaten(before, seen[i], k));
        }
        lemma_contains_after_insert(before, at, candidate, grown[i]);
    }
}

proof fn lemma_push_in_place_of_last(
    before: Seq<Neighbor>,
    seen: Seq<Neighbor>,
    k: int,
    candidate: Neighbor,
)
    requires
        k > 0,
        nearest_of(before, seen, k),
        before.len() == k,
        !candidate.dist.nan(),
        !before[k - 1].dist.at_most(candidate.dist),
    ensures
        nearest_of(pushed(before, k, candidate), seen.push(candidate), k),
{
    let shorter = before.take(k - 1);
    assert forall|i: int, j: int| 0 <= i < j < shorter.len() implies (
    #[trigger] shorter[i]).dist.at_most((#[trigger] shorter[j]).dist) by {
        assert(before[i].dist.at_most(before[j].dist));
    }
    assert forall|i: int| 0 <= i < shorter.len() implies !(#[trigger] shorter[i]).dist.nan() by {
        assert(!before[i].dist.nan());
    }
    lemma_insertion_point_prefix(before, candidate.dist, k - 1);
    lemma_insert_ascending(shorter, candidate);
    let at = insertion_point(shorter, candidate.dist, k - 1);
    let kept = shorter.insert(at, candidate);
    let grown = seen.push(candidate);
    let old_last = before[k - 1].dist;
    assert(grown[seen.len() as int] == candidate);
    assert(!old_last.nan());
    assert(kept[k - 1].dist.at_most(old_last)) by {
        if at < k - 1 {
            assert(kept[k - 1] == shorter[k - 2]);
            assert(before[k - 2].dist.at_most(before[k - 1].dist));
        } else {
            assert(kept[k - 1] == candidate);
        }
    }
    assert forall|i: int| 0 <= i < kept.len() implies grown.contains(#[trigger] kept[i]) by {
        if i != at {
            let v = if i < at {
                before[i]
            } else {
                before[i - 1]
            };
            assert(kept[i] == v);
            assert(seen.contains(v));
            let p = choose|p: int| 0 <= p < seen.len() && seen[p] == v;
            assert(grown[p] == v);
        }
    }
    assert forall|i: int| 0 <= i < grown.len() implies kept_or_beaten(
        kept,
        #[trigger] grown[i],
        k,
    ) by {
        let v = grown[i];
        if i < seen.len() {
            assert(kept_or_beaten(before, seen[i], k));
            if before.contains(v) {
                let p = choose|p: int| 0 <= p < before.len() && before[p] == v;
                if p < k - 1 {
                    assert(shorter[p] == v);
                    lemma_contains_after_insert(shorter, at, candidate, v);
                }
            }
        } else {
            lemma_contains_after_insert(shorter, at, candidate, v);
        }
    }
}

/// A scan of comparable candidates ends with the nearest of them.
pub proof fn law_scan_keeps_the_nearest(candidates: Seq<Neighbor>, k: int, n: int)
    requires
        k > 0,
        0 <= n <= candidates.len(),
        comparable(candidates),
    ensures
        nearest_of(scanned(candidates, k, n), candidates.take(n), k),
    decreases n,
{
    if n > 0 {
        law_scan_keeps_the_nearest(candidates, k, n - 1);
        let before = scanned(candidates, k, n - 1);
        let seen = candidates.take(n - 1);
        let candidate = candidates[n - 1];
        assert(candidates.take(n) =~= seen.push(candidate));
        assert(!candidate.dist.nan());
        if before.len() < k {
            lemma_push_with_room(before, seen, k, candidate);
        } else if before[k - 1].dist.at_most(candidate.dist) {
            let grown = seen.push(candidate);
            assert forall|i: int| 0 <= i < before.len() implies grown.contains(
                #[trigger] before[i],
            ) by {
                assert(seen.contains(before[i]));
                let p = choose|p: int| 0 <= p < seen.len() && seen[p] == before[i];
                assert(grown[p] == before[i]);
            }
            assert forall|i: int| 0 <= i < grown.len() implies kept_or_beaten(
                before,
                #[trigger] grown[i],
                k,
            ) by {
                if i < seen.len() {
                    assert(kept_or_beaten(before, seen[i], k));
                }
            }
        } else {
            lemma_push_in_place_of_last(before, seen, k, candidate);
        }
    }
}

/// The candidates of one row.
#[derive(Debug)]
pub struct RowTopK {
    entries: Vec<Neighbor>,
}

impl View for RowTopK {
    type V = Seq<Neighbor>;

    closed spec fn view(&self) -> Seq<Neighbor> {
        self.entries@
    }
}

impl Default for RowTopK {
    fn default() -> (row: Self)
        ensures
            row@ == Seq::<Neighbor>::empty(),
    {
        RowTopK { entries: Vec::new() }
    }
}

impl RowTopK {
    pub fn clear(&mut self)
        ensures
            final(self)@ == Seq::<Neighbor>::empty(),
    {
        self.entries.clear();
    }

    /// Shows a candidate to a row of `k`.
    pub fn push(&mut self, k: usize, idx: usize, dist: F32)
        requires
            k <= MAX_ROW_TOPK,
            old(self)@.len() <= k,
        ensures
            final(self)@ == pushed(old(self)@, k as int, Neighbor { index: idx, dist }),
            final(self)@.len() <= k,
            numbered(old(self)@) && rising(old(self)@) && !unordered(dist) ==> shown_to(
                old(self)@,
                k as int,
                Neighbor { index: idx, dist },
                final(self)@,
            ),
    {
        proof {
            if numbered(self@) && rising(self@) && !unordered(dist) {
                law_selection_takes_the_nearer(self@, k as int, Neighbor { index: idx, dist });
            }
        }
        if k == 0 {
            return ;
        }
        let candidate: Neighbor = Neighbor { index: idx, dist };
        let ghost before = self.entries@;
        if self.entries.len() == k {
            if self.entries[k - 1].dist.le(dist) {
                return ;
            }
            self.entries.pop();
            proof {
                assert(self.entries@ =~= before.take(k - 1));
                lemma_insertion_point_prefix(before, dist, k - 1);
            }
        }
        let mut at: usize = self.entries.len();
        while at > 0 && dist.lt(self.entries[at - 1].dist)
            invariant
                at <= self.entries@.len(),
                insertion_point(self.entries@, dist, at as int) == insertion_point(
                    self.entries@,
                    dist,
                    self.entries@.len() as int,
                ),
            decreases at,
        {
            at = at - 1;
        }
        self.entries.insert(at, candidate);
    }

    pub fn as_slice(&self) -> (entries: &[Neighbor])
        ensures
            entries@ == self@,
    {
        self.entries.as_slice()
    }
}

} // verus!
