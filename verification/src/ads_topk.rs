//! The nearest leaders of a query, each at most once.

use vstd::prelude::*;

use crate::arith::least;
use crate::float_bits::{F32, F32_MAX};
use crate::float_value::unordered;
use crate::selection_laws::{
    law_overlap_counts_the_common_leaders, law_selection_takes_the_nearer, numbered, rising, shown_to,
};
use crate::topk::{
    comparable, insertion_point, lemma_insertion_point, lemma_insertion_point_prefix, pushed,
    Neighbor,
};

verus! {

/// The most leaders that are kept.
pub const MAX_TINY_TOPK: usize = 32;

pub open spec fn holds_index(entries: Seq<Neighbor>, index: usize) -> bool {
    exists|i: int| 0 <= i < entries.len() && (#[trigger] entries[i]).index == index
}

pub open spec fn distinct_indices(entries: Seq<Neighbor>) -> bool {
    forall|i: int, j: int|
        0 <= i < j < entries.len() ==> (#[trigger] entries[i]).index != (
        #[trigger] entries[j]).index
}

/// The `k` entries after a new leader was shown to them: it takes its place behind those
/// that are as near, and where all places are taken only if it is nearer than the last.
pub open spec fn tiny_entered(
    entries: Seq<Neighbor>,
    k: int,
    candidate: Neighbor,
) -> Seq<Neighbor> {
    if entries.len() < k {
        entries.insert(
            insertion_point(entries, candidate.dist, entries.len() as int),
            candidate,
        )
    } else if candidate.dist.below(entries[k - 1].dist) {
        entries.take(k - 1).insert(insertion_point(entries, candidate.dist, k - 1), candidate)
    } else {
        entries
    }
}

/// As `tiny_entered`, but a leader that is held already changes nothing.
pub open spec fn tiny_pushed(entries: Seq<Neighbor>, k: int, candidate: Neighbor) -> Seq<Neighbor> {
    if holds_index(entries, candidate.index) {
        entries
    } else {
        tiny_entered(entries, k, candidate)
    }
}

/// The distance that a leader must be below: the largest number while there is room.
pub open spec fn tiny_threshold(entries: Seq<Neighbor>, k: int) -> F32 {
    if entries.len() < k {
        F32 { bits: F32_MAX }
    } else {
        entries[k - 1].dist
    }
}

/// The `k` nearest leaders seen so far.
#[derive(Debug)]
pub struct TinyTopK {
    items: Vec<Neighbor>,
    k: usize,
}

impl View for TinyTopK {
    type V = Seq<Neighbor>;

    closed spec fn view(&self) -> Seq<Neighbor> {
        self.items@
    }
}

impl TinyTopK {
    pub closed spec fn room(&self) -> int {
        self.k as int
    }

    pub open spec fn wf(&self) -> bool {
        &&& 1 <= self.room() <= MAX_TINY_TOPK
        &&& self@.len() <= self.room()
        &&& distinct_indices(self@)
    }

    /// Room for `k` leaders: at least one, at most 32.
    pub fn new(k: usize) -> (top: Self)
        ensures
            top.wf(),
            top@ == Seq::<Neighbor>::empty(),
            top.room() == if k < 1 {
                1
            } else if k > MAX_TINY_TOPK {
                MAX_TINY_TOPK as int
            } else {
                k as int
            },
    {
        let room: usize = if k < 1 {
            1
        } else if k > MAX_TINY_TOPK {
            MAX_TINY_TOPK
        } else {
            k
        };
        TinyTopK { items: Vec::new(), k: room }
    }

    fn holds(&self, idx: usize) -> (result: bool)
        ensures
            result == holds_index(self@, idx),
    {
        for i in 0..self.items.len()
            invariant
                forall|j: int| 0 <= j < i ==> (#[trigger] self.items@[j]).index != idx,
        {
            if self.items[i].index == idx {
                return true;
            }
        }
        false
    }

    /// Shows a leader that may be held already.
    pub fn push(&mut self, dist: F32, idx: usize)
        requires
            old(self).wf(),
        ensures
            final(self).wf(),
            final(self).room() == old(self).room(),
            final(self)@ == tiny_pushed(
                old(self)@,
                old(self).room(),
                Neighbor { index: idx, dist },
            ),
            (exists|i: int| 0 <= i < old(self)@.len() && (#[trigger] old(self)@[i]).index == idx)
                ==> final(self)@ == old(self)@,
            (forall|i: int| 0 <= i < old(self)@.len() ==> (#[trigger] old(self)@[i]).index != idx)
                && numbered(old(self)@) && rising(old(self)@) && !unordered(dist) ==> shown_to(
                old(self)@,
                old(self).room(),
                Neighbor { index: idx, dist },
                final(self)@,
            ),
    {
        if self.holds(idx) {
            return ;
        }
        self.push_unique(dist, idx);
    }

    /// Shows a leader that is not held.
    pub fn push_unique(&mut self, dist: F32, idx: usize)
        requires
            old(self).wf(),
            !holds_index(old(self)@, idx),
        ensures
            final(self).wf(),
            final(self).room() == old(self).room(),
            final(self)@ == tiny_entered(
                old(self)@,
                old(self).room(),
                Neighbor { index: idx, dist },
            ),
            numbered(old(self)@) && rising(old(self)@) && !unordered(dist) ==> shown_to(
                old(self)@,
                old(self).room(),
                Neighbor { index: idx, dist },
                final(self)@,
            ),
    {
        proof {
            if numbered(self@) && rising(self@) && !unordered(dist) {
                law_selection_takes_the_nearer(
                    self@,
                    self.room(),
                    Neighbor { index: idx, dist },
                );
            }
        }
        let candidate: Neighbor = Neighbor { index: idx, dist };
        let ghost before = self.items@;
        if self.items.len() == self.k {
            if !dist.lt(self.items[self.k - 1].dist) {
                return ;
            }
            self.items.pop();
            proof {
                assert(self.items@ =~= before.take(self.k - 1));
                lemma_insertion_point_prefix(before, dist, self.k - 1);
            }
        }
        let mut at: usize = self.items.len();
        while at > 0 && dist.lt(self.items[at - 1].dist)
            invariant
                at <= self.items@.len(),
                insertion_point(self.items@, dist, at as int) == insertion_point(
                    self.items@,
                    dist,
                    self.items@.len() as int,
                ),
            decreases at,
        {
            at = at - 1;
        }
        let ghost shorter = self.items@;
        self.items.insert(at, candidate);
        proof {
            assert forall|i: int, j: int| 0 <= i < j < self.items@.len() implies (
            #[trigger] self.items@[i]).index != (#[trigger] self.items@[j]).index by {
                let a = if i < at {
                    i
                } else {
                    i - 1
                };
                let b = if j < at {
                    j
                } else {
                    j - 1
                };
                if i != at {
                    assert(self.items@[i] == shorter[a]);
                    assert(before[a] == shorter[a]);
                }
                if j != at {
                    assert(self.items@[j] == shorter[b]);
                    assert(before[b] == shorter[b]);
                }
            }
        }
    }

    pub fn threshold(&self) -> (threshold: F32)
        requires
            self.wf(),
        ensures
            threshold == tiny_threshold(self@, self.room()),
    {
        if self.items.len() < self.k {
            F32 { bits: F32_MAX }
        } else {
            self.items[self.k - 1].dist
        }
    }

    /// The leaders, nearest first.
    pub fn leaders(&self) -> (leaders: Vec<usize>)
        ensures
            leaders@ == self@.map_values(|entry: Neighbor| entry.index),
    {
        let mut leaders: Vec<usize> = Vec::with_capacity(self.items.len());
        for i in 0..self.items.len()
            invariant
                leaders@.len() == i,
                forall|j: int| 0 <= j < i ==> #[trigger] leaders@[j] == self.items@[j].index,
        {
            leaders.push(self.items[i].index);
        }
        proof {
            assert(leaders@ =~= self@.map_values(|entry: Neighbor| entry.index));
        }
        leaders
    }

    /// The leaders with their distances, nearest first.
    pub fn entries(&self) -> (entries: Vec<Neighbor>)
        ensures
            entries@ == self@,
    {
        let mut entries: Vec<Neighbor> = Vec::with_capacity(self.items.len());
        for i in 0..self.items.len()
            invariant
                entries@ == self.items@.take(i as int),
        {
            entries.push(self.items[i]);
            proof {
                assert(entries@ =~= self.items@.take(i + 1));
            }
        }
        proof {
            assert(entries@ =~= self@);
        }
        entries
    }
}

/// Whoever is kept was kept before or is the one that was shown.
pub proof fn lemma_tiny_members(entries: Seq<Neighbor>, k: int, candidate: Neighbor, i: int)
    requires
        k > 0,
        entries.len() <= k,
        0 <= i < tiny_pushed(entries, k, candidate).len(),
    ensures
        tiny_pushed(entries, k, candidate)[i] == candidate || entries.contains(
            tiny_pushed(entries, k, candidate)[i],
        ),
        tiny_pushed(entries, k, candidate).len() <= k,
{
    let after = tiny_pushed(entries, k, candidate);
    let room = if entries.len() < k {
        entries.len() as int
    } else {
        k - 1
    };
    lemma_insertion_point(entries, candidate.dist, room);
    if after == entries {
        assert(entries[i] == after[i]);
    } else {
        let at = insertion_point(entries, candidate.dist, room);
        if i < at {
            assert(after[i] == entries[i]);
        } else if i > at {
            assert(after[i] == entries[i - 1]);
        }
    }
}

/// A leader that is not below the threshold of a full selection changes nothing: to leave
/// it out is no loss.
pub proof fn law_pruned_leader_could_not_enter(entries: Seq<Neighbor>, k: int, candidate: Neighbor)
    requires
        k > 0,
        entries.len() == k,
        !candidate.dist.below(tiny_threshold(entries, k)),
    ensures
        tiny_pushed(entries, k, candidate) == entries,
{
}

/// The selection after the first `n` leaders were shown one after the other.
pub open spec fn tiny_scanned(candidates: Seq<Neighbor>, k: int, n: int) -> Seq<Neighbor>
    decreases n,
{
    if n <= 0 {
        Seq::<Neighbor>::empty()
    } else {
        tiny_pushed(tiny_scanned(candidates, k, n - 1), k, candidates[n - 1])
    }
}

/// Entries of a scan come from the candidates that were shown.
proof fn lemma_scan_entries(candidates: Seq<Neighbor>, k: int, n: int)
    requires
        k > 0,
        0 <= n <= candidates.len(),
        comparable(candidates),
    ensures
        tiny_scanned(candidates, k, n).len() <= k,
        forall|i: int|
            0 <= i < tiny_scanned(candidates, k, n).len() ==> candidates.take(n).contains(
                #[trigger] tiny_scanned(candidates, k, n)[i],
            ),
        comparable(tiny_scanned(candidates, k, n)),
    decreases n,
{
    if n > 0 {
        lemma_scan_entries(candidates, k, n - 1);
        let before = tiny_scanned(candidates, k, n - 1);
        let after = tiny_scanned(candidates, k, n);
        let candidate = candidates[n - 1];
        let room = if before.len() < k {
            before.len() as int
        } else {
            k - 1
        };
        lemma_insertion_point(before, candidate.dist, room);
        assert forall|i: int| 0 <= i < after.len() implies candidates.take(n).contains(
            #[trigger] after[i],
        ) && !after[i].dist.nan() by {
            if after[i] == candidate {
                assert(candidates.take(n)[n - 1] == candidate);
            } else {
                let at = insertion_point(before, candidate.dist, room);
                let p = if after == before || i < at {
                    i
                } else {
                    i - 1
                };
                assert(after[i] == before[p]);
                assert(candidates.take(n - 1).contains(before[p]));
                let shown = candidates.take(n - 1);
                let q = choose|q: int| 0 <= q < shown.len() && shown[q] == before[p];
                assert(candidates.take(n)[q] == before[p]);
            }
        }
    }
}

/// A place that is free is taken by whoever is not held yet, and none is given up.
pub proof fn lemma_tiny_len(entries: Seq<Neighbor>, k: int, candidate: Neighbor)
    requires
        k > 0,
        entries.len() <= k,
    ensures
        tiny_pushed(entries, k, candidate).len() == if holds_index(entries, candidate.index) {
            entries.len() as int
        } else {
            least(k, entries.len() as int + 1)
        },
{
    let room = if entries.len() < k {
        entries.len() as int
    } else {
        k - 1
    };
    lemma_insertion_point(entries, candidate.dist, room);
}

/// A scan of different leaders fills every place that there are leaders for, whatever
/// their distances.
pub proof fn law_scan_fills_every_place(candidates: Seq<Neighbor>, k: int, n: int)
    requires
        k > 0,
        0 <= n <= candidates.len(),
        distinct_indices(candidates),
    ensures
        tiny_scanned(candidates, k, n).len() == least(k, n),
        forall|i: int|
            0 <= i < tiny_scanned(candidates, k, n).len() ==> candidates.take(n).contains(
                #[trigger] tiny_scanned(candidates, k, n)[i],
            ),
    decreases n,
{
    if n > 0 {
        law_scan_fills_every_place(candidates, k, n - 1);
        let before = tiny_scanned(candidates, k, n - 1);
        let after = tiny_scanned(candidates, k, n);
        let candidate = candidates[n - 1];
        let shown = candidates.take(n - 1);
        lemma_tiny_len(before, k, candidate);
        if holds_index(before, candidate.index) {
            let i = choose|i: int|
                0 <= i < before.len() && (#[trigger] before[i]).index == candidate.index;
            assert(shown.contains(before[i]));
            let q = choose|q: int| 0 <= q < shown.len() && shown[q] == before[i];
            assert(candidates[q].index == candidates[n - 1].index);
        }
        assert forall|i: int| 0 <= i < after.len() implies candidates.take(n).contains(
            #[trigger] after[i],
        ) by {
            lemma_tiny_members(before, k, candidate, i);
            if after[i] == candidate {
                assert(candidates.take(n)[n - 1] == candidate);
            } else {
                let p = choose|p: int| 0 <= p < before.len() && before[p] == after[i];
                assert(shown.contains(before[p]));
                let q = choose|q: int| 0 <= q < shown.len() && shown[q] == before[p];
                assert(candidates.take(n)[q] == after[i]);
            }
        }
    }
}

/// A scan of different leaders at comparable distances keeps what a plain selection of
/// the nearest keeps.
pub proof fn law_scan_agrees_with_selection(candidates: Seq<Neighbor>, k: int, n: int)
    requires
        k > 0,
        0 <= n <= candidates.len(),
        comparable(candidates),
        distinct_indices(candidates),
    ensures
        tiny_scanned(candidates, k, n) == crate::topk::scanned(candidates, k, n),
    decreases n,
{
    if n > 0 {
        law_scan_agrees_with_selection(candidates, k, n - 1);
        lemma_scan_entries(candidates, k, n - 1);
        let before = tiny_scanned(candidates, k, n - 1);
        let candidate = candidates[n - 1];
        assert(!candidate.dist.nan());
        if holds_index(before, candidate.index) {
            let i = choose|i: int|
                0 <= i < before.len() && (#[trigger] before[i]).index == candidate.index;
            assert(candidates.take(n - 1).contains(before[i]));
            let shown = candidates.take(n - 1);
            let q = choose|q: int| 0 <= q < shown.len() && shown[q] == before[i];
            assert(candidates[q].index == candidates[n - 1].index);
        }
        if before.len() >= k {
            assert(!before[k - 1].dist.nan());
        }
        assert(tiny_pushed(before, k, candidate) == pushed(before, k, candidate));
    }
}

/// How many leaders of one selection are also in another.
pub open spec fn overlap(approx: Seq<usize>, exact: Seq<usize>, n: int) -> int
    decreases n,
{
    if n <= 0 {
        0
    } else {
        overlap(approx, exact, n - 1) + if exact.contains(approx[n - 1]) {
            1int
        } else {
            0
        }
    }
}

fn has_leader(leaders: &[usize], leader: usize) -> (result: bool)
    ensures
        result == leaders@.contains(leader),
{
    for i in 0..leaders.len()
        invariant
            forall|j: int| 0 <= j < i ==> #[trigger] leaders@[j] != leader,
    {
        if leaders[i] == leader {
            proof {
                assert(leaders@[i as int] == leader);
            }
            return true;
        }
    }
    false
}

pub fn topk_overlap_count(approx: &[usize], exact: &[usize]) -> (count: usize)
    ensures
        count == overlap(approx@, exact@, approx@.len() as int),
        count <= approx@.len(),
        approx@.no_duplicates() ==> count == approx@.to_set().intersect(exact@.to_set()).len(),
{
    let mut count: usize = 0;
    for i in 0..approx.len()
        invariant
            count == overlap(approx@, exact@, i as int),
            count <= i,
    {
        if has_leader(exact, approx[i]) {
            count = count + 1;
        }
    }
    proof {
        if approx@.no_duplicates() {
            law_overlap_counts_the_common_leaders(approx@, exact@, approx@.len() as int);
            assert(approx@.take(approx@.len() as int) =~= approx@);
        }
    }
    count
}

/// Whether two selections name the same leaders in the same order.
pub fn same_leaders(a: &[usize], b: &[usize]) -> (same: bool)
    ensures
        same == (a@ == b@),
{
    if a.len() != b.len() {
        return false;
    }
    for i in 0..a.len()
        invariant
            a@.len() == b@.len(),
            forall|j: int| 0 <= j < i ==> #[trigger] a@[j] == b@[j],
    {
        if a[i] != b[i] {
            return false;
        }
    }
    proof {
        assert(a@ =~= b@);
    }
    true
}

} // verus!
