//! Scanning the rows of a leaf pair by pair, so that a distance serves both of its rows.

use vstd::prelude::*;

use crate::ads_config::ADS_QUERY_TILE;
use crate::ads_scan::{lanes_pushed, prune_ads_mask, AdsCounters};
use crate::ads_topk::{
    distinct_indices, holds_index, law_scan_fills_every_place, lemma_tiny_members, tiny_pushed,
    tiny_scanned, tiny_threshold, TinyTopK,
};
use crate::arith::{greatest, least, max_usize, min_usize};
use crate::direction::bit_set;
use crate::float_bits::F32;
use crate::float_value::{law_singles_compare_as_numbers, lies_below};
use crate::lane_laws::law_lanes_are_bits;
use crate::lane_mask::{
    active_lanes, has_lane, is_sparse, lane, lane_count, lanes_set, lemma_lanes_set,
    lemma_lanes_taken, lemma_no_lane, should_use_sparse_ads_fallback, total_lanes, with_lane,
    ADS_LEADER_BLOCK,
};
use crate::topk::Neighbor;

verus! {

/// How far `candidate` is ahead of `row`, round the leaf.
pub open spec fn ahead(row: int, candidate: int, rows: int) -> int {
    if candidate >= row {
        candidate - row
    } else {
        candidate + rows - row
    }
}

/// One of two different rows is at most `seeds` ahead of the other.
pub open spec fn mutual(rows: int, seeds: int, a: int, b: int) -> bool {
    a != b && (ahead(a, b, rows) <= seeds || ahead(b, a, rows) <= seeds)
}

/// The cell of a pair in a matrix with one row per row of the leaf.
pub open spec fn pair_cell(rows: int, a: int, b: int) -> int {
    a * rows + b
}

proof fn lemma_pair_cell(rows: int, a: int, b: int)
    requires
        0 <= a < rows,
        0 <= b < rows,
    ensures
        0 <= pair_cell(rows, a, b) < rows * rows,
        forall|c: int, d: int|
            0 <= c < rows && 0 <= d < rows && #[trigger] pair_cell(rows, c, d) == pair_cell(
                rows,
                a,
                b,
            ) ==> c == a && d == b,
{
    assert(0 <= a * rows + b < rows * rows) by (nonlinear_arith)
        requires
            0 <= a < rows,
            0 <= b < rows,
    ;
    assert forall|c: int, d: int|
        0 <= c < rows && 0 <= d < rows && #[trigger] pair_cell(rows, c, d) == pair_cell(
            rows,
            a,
            b,
        ) implies c == a && d == b by {
        assert(c == a && d == b) by (nonlinear_arith)
            requires
                0 <= b < rows,
                0 <= d < rows,
                c * rows + d == a * rows + b,
        ;
    }
}

/// The pairs that are measured before the scan, and which they are.
#[derive(Debug)]
pub struct MutualSeeds {
    /// Lower row first, each pair once.
    pub pairs: Vec<(usize, usize)>,
    /// For each pair in both orders whether it is one of them.
    pub seeded: Vec<bool>,
}

/// `pairs` are those rows in order, each once, for which `chosen` holds.
pub open spec fn lists_pairs(
    pairs: Seq<(usize, usize)>,
    rows: int,
    chosen: spec_fn(int, int) -> bool,
) -> bool {
    &&& forall|p: int|
        0 <= p < pairs.len() ==> (#[trigger] pairs[p]).0 < pairs[p].1 < rows && chosen(
            pairs[p].0 as int,
            pairs[p].1 as int,
        )
    &&& forall|p: int, q: int|
        0 <= p < q < pairs.len() ==> #[trigger] pairs[p] != #[trigger] pairs[q]
    &&& forall|a: int, b: int|
        #![trigger chosen(a, b)]
        0 <= a < b < rows && chosen(a, b) ==> pairs.contains((a as usize, b as usize))
}

/// The matrix tells for every pair whether `chosen` holds.
pub open spec fn marks_pairs(
    seeded: Seq<bool>,
    rows: int,
    chosen: spec_fn(int, int) -> bool,
) -> bool {
    &&& seeded.len() == rows * rows
    &&& forall|a: int, b: int|
        0 <= a < rows && 0 <= b < rows ==> #[trigger] seeded[pair_cell(rows, a, b)] == chosen(
            a,
            b,
        )
}

/// Pairs that the rows before `row`, and `row` up to `offset` ahead, have reached.
pub open spec fn reached(rows: int, seeds: int, row: int, offset: int, a: int, b: int) -> bool {
    a != b && (reached_from(rows, seeds, row, offset, a, b) || reached_from(
        rows,
        seeds,
        row,
        offset,
        b,
        a,
    ))
}

pub open spec fn reached_from(
    rows: int,
    seeds: int,
    row: int,
    offset: int,
    a: int,
    b: int,
) -> bool {
    (a < row && ahead(a, b, rows) <= seeds) || (a == row && ahead(a, b, rows) <= offset)
}

/// The pairs of rows of which one is at most `seed_exact` ahead of the other.
pub fn mutual_seeds(rows: usize, seed_exact: usize) -> (seeds: MutualSeeds)
    requires
        seed_exact < rows || rows == 0,
        rows * rows <= usize::MAX,
        2 * rows <= usize::MAX,
    ensures
        lists_pairs(
            seeds.pairs@,
            rows as int,
            |a: int, b: int| mutual(rows as int, seed_exact as int, a, b),
        ),
        marks_pairs(
            seeds.seeded@,
            rows as int,
            |a: int, b: int| mutual(rows as int, seed_exact as int, a, b),
        ),
{
    let cells: usize = rows * rows;
    let mut seeded: Vec<bool> = Vec::with_capacity(cells);
    for i in 0..cells
        invariant
            seeded@.len() == i,
            forall|j: int| 0 <= j < i ==> !#[trigger] seeded@[j],
    {
        seeded.push(false);
    }
    let mut pairs: Vec<(usize, usize)> = Vec::new();
    let ghost n = rows as int;
    let ghost s = seed_exact as int;
    proof {
        assert forall|a: int, b: int| 0 <= a < n && 0 <= b < n implies #[trigger] seeded@[pair_cell(
            n,
            a,
            b,
        )] == reached(n, s, 0, 0, a, b) by {
            lemma_pair_cell(n, a, b);
        }
        assert(marks_pairs(seeded@, n, |a: int, b: int| reached(n, s, 0, 0, a, b)));
        assert(lists_pairs(pairs@, n, |a: int, b: int| reached(n, s, 0, 0, a, b)));
    }
    for row in 0..rows
        invariant
            n == rows,
            s == seed_exact,
            s < n || n == 0,
            rows * rows <= usize::MAX,
            2 * rows <= usize::MAX,
            marks_pairs(seeded@, n, |a: int, b: int| reached(n, s, row as int, 0, a, b)),
            lists_pairs(pairs@, n, |a: int, b: int| reached(n, s, row as int, 0, a, b)),
    {
        for step in 0..seed_exact
            invariant
                n == rows,
                s == seed_exact,
                s < n,
                row < rows,
                rows * rows <= usize::MAX,
                2 * rows <= usize::MAX,
                marks_pairs(
                    seeded@,
                    n,
                    |a: int, b: int| reached(n, s, row as int, step as int, a, b),
                ),
                lists_pairs(
                    pairs@,
                    n,
                    |a: int, b: int| reached(n, s, row as int, step as int, a, b),
                ),
        {
            let offset: usize = step + 1;
            let sum: usize = row + offset;
            let candidate: usize = if sum >= rows {
                sum - rows
            } else {
                sum
            };
            let left: usize = min_usize(row, candidate);
            let right: usize = max_usize(row, candidate);
            proof {
                lemma_pair_cell(n, left as int, right as int);
                lemma_pair_cell(n, right as int, left as int);
                assert(ahead(row as int, candidate as int, n) == offset);
                lemma_reach_step(n, s, row as int, step as int, candidate as int);
            }
            let known: bool = seeded[left * rows + right];
            let ghost before = seeded@;
            let ghost listed = pairs@;
            proof {
                assert(known == before[pair_cell(n, left as int, right as int)]);
            }
            if !known {
                seeded.set(left * rows + right, true);
                seeded.set(right * rows + left, true);
                pairs.push((left, right));
            }
            proof {
                let old_reach = |a: int, b: int| reached(n, s, row as int, step as int, a, b);
                let new_reach = |a: int, b: int| reached(n, s, row as int, step + 1, a, b);
                assert forall|a: int, b: int|
                    0 <= a < n && 0 <= b < n implies #[trigger] seeded@[pair_cell(n, a, b)]
                    == new_reach(a, b) by {
                    lemma_pair_cell(n, a, b);
                    assert(before[pair_cell(n, a, b)] == old_reach(a, b));
                    assert(new_reach(a, b) == (old_reach(a, b) || (a == left && b == right) || (a
                        == right && b == left)));
                    assert(before[pair_cell(n, b, a)] == old_reach(b, a)) by {
                        lemma_pair_cell(n, b, a);
                    }
                }
                assert(marks_pairs(seeded@, n, new_reach));
                assert forall|p: int| 0 <= p < pairs@.len() implies (#[trigger] pairs@[p]).0
                    < pairs@[p].1 < n && new_reach(pairs@[p].0 as int, pairs@[p].1 as int) by {
                    if p < listed.len() {
                        assert(pairs@[p] == listed[p]);
                        assert(old_reach(listed[p].0 as int, listed[p].1 as int));
                    }
                }
                assert forall|p: int, q: int| 0 <= p < q < pairs@.len() implies #[trigger] pairs@[p]
                    != #[trigger] pairs@[q] by {
                    assert(pairs@[p] == listed[p]);
                    if q < listed.len() {
                        assert(pairs@[q] == listed[q]);
                    } else if pairs@[p] == pairs@[q] {
                        assert(old_reach(left as int, right as int));
                        assert(known);
                    }
                }
                assert forall|a: int, b: int|
                    #![trigger new_reach(a, b)]
                    0 <= a < b < n && new_reach(a, b) implies pairs@.contains(
                    (a as usize, b as usize),
                ) by {
                    if old_reach(a, b) {
                        assert(listed.contains((a as usize, b as usize)));
                        let p = choose|p: int|
                            0 <= p < listed.len() && listed[p] == (a as usize, b as usize);
                        assert(pairs@[p] == (a as usize, b as usize));
                    } else {
                        assert(a == left && b == right);
                        assert(!known);
                        assert(pairs@[listed.len() as int] == (a as usize, b as usize));
                    }
                }
                assert(lists_pairs(pairs@, n, new_reach));
            }
        }
        proof {
            let old_reach = |a: int, b: int| reached(n, s, row as int, s, a, b);
            let new_reach = |a: int, b: int| reached(n, s, row + 1, 0, a, b);
            assert forall|a: int, b: int| 0 <= a < n && 0 <= b < n implies #[trigger] old_reach(
                a,
                b,
            ) == new_reach(a, b) by {}
            lemma_same_choice(seeded@, pairs@, n, old_reach, new_reach);
        }
    }
    proof {
        let old_reach = |a: int, b: int| reached(n, s, n, 0, a, b);
        let all = |a: int, b: int| mutual(n, s, a, b);
        assert forall|a: int, b: int| 0 <= a < n && 0 <= b < n implies #[trigger] old_reach(a, b)
            == all(a, b) by {}
        lemma_same_choice(seeded@, pairs@, n, old_reach, all);
    }
    MutualSeeds { pairs, seeded }
}

/// One more step ahead reaches one more pair.
proof fn lemma_reach_step(rows: int, seeds: int, row: int, step: int, candidate: int)
    requires
        0 <= step < seeds < rows,
        0 <= row < rows,
        0 <= candidate < rows,
        ahead(row, candidate, rows) == step + 1,
    ensures
        forall|a: int, b: int|
            0 <= a < rows && 0 <= b < rows ==> #[trigger] reached(rows, seeds, row, step + 1, a, b)
                == (reached(rows, seeds, row, step, a, b) || (a == row && b == candidate) || (a
                == candidate && b == row)),
        row != candidate,
{
}

/// What holds of pairs that are chosen one way holds where they are chosen alike.
proof fn lemma_same_choice(
    seeded: Seq<bool>,
    pairs: Seq<(usize, usize)>,
    rows: int,
    one: spec_fn(int, int) -> bool,
    other: spec_fn(int, int) -> bool,
)
    requires
        marks_pairs(seeded, rows, one),
        lists_pairs(pairs, rows, one),
        rows <= usize::MAX,
        forall|a: int, b: int|
            0 <= a < rows && 0 <= b < rows ==> #[trigger] one(a, b) == other(a, b),
    ensures
        marks_pairs(seeded, rows, other),
        lists_pairs(pairs, rows, other),
{
    assert forall|a: int, b: int| 0 <= a < rows && 0 <= b < rows
        implies #[trigger] seeded[pair_cell(
        rows,
        a,
        b,
    )] == other(a, b) by {
        assert(one(a, b) == other(a, b));
    }
    assert forall|p: int| 0 <= p < pairs.len() implies (#[trigger] pairs[p]).0 < pairs[p].1 < rows
        && other(pairs[p].0 as int, pairs[p].1 as int) by {
        assert(one(pairs[p].0 as int, pairs[p].1 as int));
    }
    assert forall|a: int, b: int|
        #![trigger other(a, b)]
        0 <= a < b < rows && other(a, b) implies pairs.contains((a as usize, b as usize)) by {
        assert(one(a, b));
    }
}

/// The blocks that are scanned against each other, one after the other: every block
/// against those before it, then against itself.
pub open spec fn wave_steps(blocks: int) -> Seq<(int, int)>
    decreases blocks,
{
    if blocks <= 0 {
        Seq::<(int, int)>::empty()
    } else {
        wave_steps(blocks - 1) + Seq::new(blocks as nat, |left: int| (left, blocks - 1))
    }
}

pub fn wavefront_steps(blocks: usize) -> (steps: Vec<(usize, usize)>)
    ensures
        steps@.map_values(|step: (usize, usize)| (step.0 as int, step.1 as int)) == wave_steps(
            blocks as int,
        ),
{
    let mut steps: Vec<(usize, usize)> = Vec::new();
    proof {
        assert(steps@.map_values(|step: (usize, usize)| (step.0 as int, step.1 as int))
            =~= wave_steps(0));
    }
    for wave in 0..blocks
        invariant
            steps@.map_values(|step: (usize, usize)| (step.0 as int, step.1 as int)) == wave_steps(
                wave as int,
            ),
    {
        for left in 0..wave + 1
            invariant
                wave < blocks,
                steps@.map_values(|step: (usize, usize)| (step.0 as int, step.1 as int))
                    == wave_steps(wave as int) + Seq::new(
                    left as nat,
                    |l: int| (l, wave as int),
                ),
        {
            let ghost before = steps@;
            steps.push((left, wave));
            proof {
                assert(steps@.map_values(|step: (usize, usize)| (step.0 as int, step.1 as int))
                    =~= before.map_values(
                    |step: (usize, usize)| (step.0 as int, step.1 as int),
                ).push((left as int, wave as int)));
                assert(wave_steps(wave as int) + Seq::new((left
                    + 1) as nat, |l: int| (l, wave as int))
                    =~= (wave_steps(wave as int) + Seq::new(
                    left as nat,
                    |l: int| (l, wave as int),
                )).push((left as int, wave as int)));
            }
        }
        proof {
            assert(wave_steps(wave + 1) =~= wave_steps(wave as int) + Seq::new(
                (wave + 1) as nat,
                |l: int| (l, wave as int),
            ));
        }
    }
    steps
}

/// The step at which two blocks meet.
pub open spec fn meeting(a: int, b: int) -> int {
    let low = least(a, b);
    let high = greatest(a, b);
    wave_steps(high).len() + low
}

proof fn lemma_waves_grow(a: int, b: int)
    requires
        0 <= a <= b,
    ensures
        wave_steps(a).len() <= wave_steps(b).len(),
        a < b ==> wave_steps(a).len() + a < wave_steps(b).len(),
        wave_steps(a) == wave_steps(b).take(wave_steps(a).len() as int),
    decreases b,
{
    if a < b {
        lemma_waves_grow(a, b - 1);
        assert(wave_steps(b).take(wave_steps(a).len() as int) =~= wave_steps(b - 1).take(
            wave_steps(a).len() as int,
        ));
    } else {
        assert(wave_steps(b).take(wave_steps(b).len() as int) =~= wave_steps(b));
    }
}

/// Every two blocks meet at one step, and each block meets the others in their order:
/// a row sees its candidates as a scan from the first to the last would show them.
pub proof fn law_candidate_blocks_in_order(blocks: int, own: int, first: int, second: int)
    requires
        0 <= own < blocks,
        0 <= first < second < blocks,
    ensures
        0 <= meeting(own, first) < meeting(own, second) < wave_steps(blocks).len(),
        wave_steps(blocks)[meeting(own, first)] == (least(own, first), greatest(own, first)),
        wave_steps(blocks)[meeting(own, second)] == (least(own, second), greatest(own, second)),
{
    lemma_meeting(blocks, own, first);
    lemma_meeting(blocks, own, second);
    let high_first = greatest(own, first);
    let high_second = greatest(own, second);
    if high_first < high_second {
        lemma_waves_grow(high_first, high_second);
    }
}

proof fn lemma_meeting(blocks: int, a: int, b: int)
    requires
        0 <= a < blocks,
        0 <= b < blocks,
    ensures
        0 <= meeting(a, b) < wave_steps(blocks).len(),
        wave_steps(blocks)[meeting(a, b)] == (least(a, b), greatest(a, b)),
{
    let low = least(a, b);
    let high = greatest(a, b);
    lemma_waves_grow(high + 1, blocks);
    let whole = wave_steps(blocks);
    let part = wave_steps(high + 1);
    assert(part == wave_steps(high) + Seq::new((high + 1) as nat, |left: int| (left, high)));
    assert(part[meeting(a, b)] == (low, high));
    assert(whole.take(part.len() as int)[meeting(a, b)] == whole[meeting(a, b)]);
}

/// The larger of two thresholds; one that is no number does not count.
pub open spec fn larger_threshold(a: F32, b: F32) -> F32 {
    if a.nan() {
        b
    } else if b.nan() || !a.below(b) {
        a
    } else {
        b
    }
}

/// A scan of a leaf's rows in blocks of 64.
#[derive(Debug)]
pub struct WavefrontScan {
    top: Vec<TinyTopK>,
    seeds: MutualSeeds,
    seed_exact: usize,
    masks: Vec<u64>,
    counters: AdsCounters,
}

/// The entries are other rows of the leaf than `row`.
pub open spec fn names_other_rows(entries: Seq<Neighbor>, row: int, rows: int) -> bool {
    forall|i: int|
        0 <= i < entries.len() ==> (#[trigger] entries[i]).index < rows && entries[i].index != row
}

proof fn lemma_push_names_other_rows(
    entries: Seq<Neighbor>,
    k: int,
    candidate: Neighbor,
    row: int,
    rows: int,
)
    requires
        k > 0,
        entries.len() <= k,
        names_other_rows(entries, row, rows),
        candidate.index < rows,
        candidate.index != row,
    ensures
        names_other_rows(tiny_pushed(entries, k, candidate), row, rows),
        tiny_pushed(entries, k, candidate).len() <= k,
{
    let after = tiny_pushed(entries, k, candidate);
    assert forall|i: int| 0 <= i < after.len() implies (#[trigger] after[i]).index < rows
        && after[i].index != row by {
        lemma_tiny_members(entries, k, candidate, i);
        if after[i] != candidate {
            let p = choose|p: int| 0 <= p < entries.len() && entries[p] == after[i];
            assert(entries[p].index < rows);
        }
    }
    if after.len() > 0 {
        lemma_tiny_members(entries, k, candidate, 0);
    }
}

impl WavefrontScan {
    pub closed spec fn rows(&self) -> int {
        self.top@.len() as int
    }

    pub closed spec fn kept(&self, row: int) -> Seq<Neighbor> {
        self.top@[row]@
    }

    pub closed spec fn room(&self, row: int) -> int {
        self.top@[row].room()
    }

    /// How far ahead rows are measured before the scan.
    pub closed spec fn seed_span(&self) -> int {
        self.seed_exact as int
    }

    /// The pairs that are measured before the scan.
    pub closed spec fn seed_list(&self) -> Seq<(usize, usize)> {
        self.seeds.pairs@
    }

    /// Lanes in question, for each of the rows that are scanned together.
    pub closed spec fn active(&self) -> Seq<u64> {
        self.masks@
    }

    pub closed spec fn counts(&self) -> AdsCounters {
        self.counters
    }

    /// Every row keeps other rows of the leaf, each at most once.
    pub closed spec fn wf(&self) -> bool {
        &&& 1 <= self.rows() <= usize::MAX - ADS_LEADER_BLOCK
        &&& 0 <= self.seed_span() < self.rows()
        &&& lists_pairs(
            self.seeds.pairs@,
            self.rows(),
            |a: int, b: int| mutual(self.rows(), self.seed_span(), a, b),
        )
        &&& marks_pairs(
            self.seeds.seeded@,
            self.rows(),
            |a: int, b: int| mutual(self.rows(), self.seed_span(), a, b),
        )
        &&& self.rows() * self.rows() <= usize::MAX
        &&& self.masks@.len() == ADS_LEADER_BLOCK
        &&& forall|r: int|
            0 <= r < self.rows() ==> (#[trigger] self.top@[r]).wf() && names_other_rows(
                self.top@[r]@,
                r,
                self.rows(),
            )
    }

    /// The rest of the scan is as it was, but for the selections, lanes and counters.
    pub open spec fn same_leaf(&self, before: &WavefrontScan) -> bool {
        &&& self.rows() == before.rows()
        &&& self.seed_span() == before.seed_span()
        &&& self.seed_list() == before.seed_list()
        &&& forall|r: int|
            0 <= r < self.rows() ==> #[trigger] self.room(r) == before.room(r)
    }

    pub open spec fn same_kept(&self, before: &WavefrontScan) -> bool {
        forall|r: int| 0 <= r < self.rows() ==> #[trigger] self.kept(r) == before.kept(r)
    }

    /// A leaf of which each row keeps `k` others, and at most all of them.
    pub fn new(rows: usize, k: usize, seed_exact: usize) -> (scan: Self)
        requires
            1 <= rows <= usize::MAX - ADS_LEADER_BLOCK,
            2 * rows <= usize::MAX,
            rows * rows <= usize::MAX,
        ensures
            scan.wf(),
            scan.rows() == rows,
            scan.seed_span() == least(seed_exact as int, rows - 1),
            scan.counts() == AdsCounters::zero(),
            forall|r: int|
                #![trigger scan.kept(r)]
                #![trigger scan.room(r)]
                0 <= r < rows ==> scan.kept(r) == Seq::<Neighbor>::empty() && scan.room(r)
                    == least(greatest(least(k as int, rows - 1), 1), 32),
            lists_pairs(
                scan.seed_list(),
                rows as int,
                |a: int, b: int| mutual(rows as int, least(seed_exact as int, rows - 1), a, b),
            ),
    {
        let kept: usize = max_usize(min_usize(k, rows - 1), 1);
        let span: usize = min_usize(seed_exact, rows - 1);
        let seeds: MutualSeeds = mutual_seeds(rows, span);
        let mut top: Vec<TinyTopK> = Vec::with_capacity(rows);
        for r in 0..rows
            invariant
                top@.len() == r,
                forall|p: int|
                    0 <= p < r ==> {
                        &&& (#[trigger] top@[p]).wf()
                        &&& top@[p]@ == Seq::<Neighbor>::empty()
                        &&& top@[p].room() == least(greatest(kept as int, 1), 32)
                    },
        {
            top.push(TinyTopK::new(kept));
        }
        let mut masks: Vec<u64> = Vec::with_capacity(ADS_LEADER_BLOCK);
        for i in 0..ADS_LEADER_BLOCK
            invariant
                masks@.len() == i,
        {
            masks.push(0);
        }
        WavefrontScan { top, seeds, seed_exact: span, masks, counters: AdsCounters::new() }
    }

    pub fn seed_pairs(&self) -> (pairs: &[(usize, usize)])
        ensures
            pairs@ == self.seed_list(),
    {
        self.seeds.pairs.as_slice()
    }

    /// Whether a pair is measured before the scan.
    pub fn is_seeded(&self, row: usize, candidate: usize) -> (seeded: bool)
        requires
            self.wf(),
            row < self.rows(),
            candidate < self.rows(),
        ensures
            seeded == mutual(self.rows(), self.seed_span(), row as int, candidate as int),
    {
        let rows: usize = self.top.len();
        proof {
            lemma_pair_cell(rows as int, row as int, candidate as int);
            assert(self.seeds.seeded@[pair_cell(rows as int, row as int, candidate as int)]
                == mutual(self.rows(), self.seed_span(), row as int, candidate as int));
        }
        self.seeds.seeded[row * rows + candidate]
    }

    /// Shows a distance to both of its rows.
    fn show_pair(&mut self, left: usize, right: usize, dist: F32)
        requires
            old(self).wf(),
            left < old(self).rows(),
            right < old(self).rows(),
            left != right,
        ensures
            final(self).wf(),
            final(self).same_leaf(old(self)),
            final(self).active() == old(self).active(),
            final(self).counts() == old(self).counts(),
            final(self).kept(left as int) == tiny_pushed(
                old(self).kept(left as int),
                old(self).room(left as int),
                Neighbor { index: right, dist },
            ),
            final(self).kept(right as int) == tiny_pushed(
                old(self).kept(right as int),
                old(self).room(right as int),
                Neighbor { index: left, dist },
            ),
            forall|r: int|
                0 <= r < old(self).rows() && r != left && r != right
                    ==> #[trigger] final(self).kept(r) == old(self).kept(r),
    {
        proof {
            assert(self.top@[left as int].wf());
            assert(self.top@[right as int].wf());
            lemma_push_names_other_rows(
                self.kept(left as int),
                self.room(left as int),
                Neighbor { index: right, dist },
                left as int,
                self.rows(),
            );
            lemma_push_names_other_rows(
                self.kept(right as int),
                self.room(right as int),
                Neighbor { index: left, dist },
                right as int,
                self.rows(),
            );
        }
        let ghost before = self.top@;
        self.top[left].push(dist, right);
        self.top[right].push(dist, left);
        proof {
            assert forall|r: int| 0 <= r < self.rows() implies (#[trigger] self.top@[r]).wf()
                && names_other_rows(self.top@[r]@, r, self.rows()) by {
                assert(before[r].wf() && names_other_rows(before[r]@, r, self.rows()));
            }
        }
    }

    /// The distance of a pair that is measured before the scan.
    pub fn seed_pair(&mut self, pair: usize, dist: F32)
        requires
            old(self).wf(),
            old(self).counts().has_room(),
            pair < old(self).seed_list().len(),
        ensures
            final(self).wf(),
            final(self).same_leaf(old(self)),
            final(self).active() == old(self).active(),
            final(self).counts() == (AdsCounters {
                seed_evals: (old(self).counts().seed_evals + 1) as u64,
                ..old(self).counts()
            }),
            ({
                let left = old(self).seed_list()[pair as int].0;
                let right = old(self).seed_list()[pair as int].1;
                &&& final(self).kept(left as int) == tiny_pushed(
                    old(self).kept(left as int),
                    old(self).room(left as int),
                    Neighbor { index: right, dist },
                )
                &&& final(self).kept(right as int) == tiny_pushed(
                    old(self).kept(right as int),
                    old(self).room(right as int),
                    Neighbor { index: left, dist },
                )
                &&& forall|r: int|
                    0 <= r < old(self).rows() && r != left && r != right
                        ==> #[trigger] final(self).kept(r) == old(self).kept(r)
            }),
    {
        let (left, right) = self.seeds.pairs[pair];
        proof {
            assert(self.seeds.pairs@[pair as int].0 < self.seeds.pairs@[pair as int].1);
        }
        self.show_pair(left, right, dist);
        let ghost counted = *self;
        self.counters.seed_evals = self.counters.seed_evals + 1;
        proof {
            assert forall|r: int|
                #![trigger self.kept(r)]
                #![trigger self.room(r)]
                0 <= r < self.rows() implies self.kept(r) == counted.kept(r) && self.room(r)
                == counted.room(r) by {}
            assert forall|r: int| 0 <= r < self.rows() implies #[trigger] self.room(r)
                == old(self).room(r) by {
                assert(counted.room(r) == old(self).room(r));
            }
        }
    }

    /// First row and number of rows of a block.
    pub open spec fn block_len(&self, block: int) -> int {
        least(64, self.rows() - block * 64)
    }

    /// Lanes of a row of one block against the rows of another: all but those that were
    /// measured before, and the row itself.
    pub open spec fn pair_lane(&self, row: int, other: int, j: int) -> bool {
        j < self.block_len(other) && row != other * 64 + j && !mutual(
            self.rows(),
            self.seed_span(),
            row,
            other * 64 + j,
        )
    }

    fn lanes_against(&self, row: usize, other_start: usize, other_len: usize) -> (mask: u64)
        requires
            self.wf(),
            row < self.rows(),
            other_len <= 64,
            other_start + other_len <= self.rows(),
        ensures
            forall|j: int|
                0 <= j < 64 ==> #[trigger] lane(mask, j) == (j < other_len && row != other_start
                    + j && !mutual(self.rows(), self.seed_span(), row as int, other_start + j)),
    {
        let total: usize = self.top.len();
        let mut mask: u64 = 0;
        proof {
            assert forall|j: int| 0 <= j < 64 implies !#[trigger] lane(0, j) by {
                lemma_no_lane(j as u64);
            }
        }
        for local in 0..other_len
            invariant
                self.wf(),
                total == self.rows(),
                row < total,
                other_len <= 64,
                other_start + other_len <= total,
                forall|j: int|
                    0 <= j < 64 ==> #[trigger] lane(mask, j) == (j < local && row != other_start
                        + j && !mutual(
                        self.rows(),
                        self.seed_span(),
                        row as int,
                        other_start + j,
                    )),
        {
            let candidate: usize = other_start + local;
            if row != candidate && !self.is_seeded(row, candidate) {
                mask = with_lane(mask, local);
            }
        }
        mask
    }

    /// Turns to the rows `first..first + count` of the leaf against the rows of a block:
    /// a whole block against a later one, or a tile of a block against the block itself.
    pub fn begin(&mut self, first: usize, count: usize, other: usize) -> (any: bool)
        requires
            old(self).wf(),
            count <= ADS_LEADER_BLOCK,
            first + count <= old(self).rows(),
            other * 64 < old(self).rows(),
        ensures
            final(self).wf(),
            final(self).same_leaf(old(self)),
            final(self).same_kept(old(self)),
            final(self).counts() == old(self).counts(),
            final(self).active().len() == ADS_LEADER_BLOCK,
            forall|i: int, j: int|
                0 <= i < count && 0 <= j < 64 ==> #[trigger] lane(final(self).active()[i], j)
                    == old(self).pair_lane(first + i, other as int, j),
            forall|i: int| count <= i < 64 ==> #[trigger] final(self).active()[i] == 0,
            any == (total_lanes(final(self).active(), 64) != 0),
    {
        let rows: usize = self.top.len();
        let start: usize = other * ADS_LEADER_BLOCK;
        let len: usize = min_usize(ADS_LEADER_BLOCK, rows - start);
        let mut masks: Vec<u64> = Vec::with_capacity(ADS_LEADER_BLOCK);
        for i in 0..ADS_LEADER_BLOCK
            invariant
                self.wf(),
                *self == *old(self),
                rows == self.rows(),
                count <= ADS_LEADER_BLOCK,
                first + count <= rows,
                start == other * 64,
                len == self.block_len(other as int),
                start + len <= rows,
                masks@.len() == i,
                forall|p: int, j: int|
                    0 <= p < i && p < count && 0 <= j < 64 ==> #[trigger] lane(masks@[p], j)
                        == self.pair_lane(first + p, other as int, j),
                forall|p: int| count <= p < i ==> #[trigger] masks@[p] == 0,
        {
            let mask: u64 = if i < count {
                self.lanes_against(first + i, start, len)
            } else {
                0
            };
            let ghost before = masks@;
            masks.push(mask);
            proof {
                assert forall|p: int, j: int|
                    0 <= p < i + 1 && p < count && 0 <= j < 64 implies #[trigger] lane(masks@[p], j)
                    == self.pair_lane(first + p, other as int, j) by {
                    if p < i {
                        assert(masks@[p] == before[p]);
                        assert(lane(before[p], j) == self.pair_lane(first + p, other as int, j));
                    }
                }
            }
        }
        self.masks = masks;
        active_lanes(self.masks.as_slice()) != 0
    }

    /// Whether any lane is in question.
    pub fn any_active(&self) -> (any: bool)
        requires
            self.wf(),
        ensures
            any == (total_lanes(self.active(), 64) != 0),
    {
        active_lanes(self.masks.as_slice()) != 0
    }

    /// The lanes of the `i`-th row that are in question.
    pub fn active_mask(&self, i: usize) -> (mask: u64)
        requires
            self.wf(),
            i < ADS_LEADER_BLOCK,
        ensures
            mask == self.active()[i as int],
    {
        self.masks[i]
    }

    /// Whether a tile of rows has lanes in question, and then whether a vector kernel
    /// measures them over the next group of dimensions.
    pub fn next_group(
        &mut self,
        tile_start: usize,
        tile_len: usize,
        full64: u32,
        group16: u32,
        vector_available: bool,
    ) -> (work: Option<bool>)
        requires
            old(self).wf(),
            old(self).counts().has_room(),
            tile_len <= ADS_QUERY_TILE,
            tile_start + tile_len <= ADS_LEADER_BLOCK,
        ensures
            final(self).wf(),
            final(self).same_leaf(old(self)),
            final(self).same_kept(old(self)),
            final(self).active() == old(self).active(),
            ({
                let tile = old(self).active().subrange(
                    tile_start as int,
                    tile_start + tile_len,
                );
                let active = total_lanes(tile, tile_len as int);
                let vector = vector_available && !is_sparse(
                    tile,
                    active,
                    full64 as int,
                    group16 as int,
                );
                if active == 0 {
                    work is None && final(self).counts() == old(self).counts()
                } else {
                    work == Some(vector) && final(self).counts() == old(self).counts().after_group(
                        active,
                        tile,
                        vector,
                    )
                }
            }),
    {
        let tile: &[u64] = vstd::slice::slice_subrange(
            self.masks.as_slice(),
            tile_start,
            tile_start + tile_len,
        );
        let count: u64 = active_lanes(tile);
        if count == 0 {
            return None;
        }
        let sparse: bool = should_use_sparse_ads_fallback(tile, count as u32, full64, group16);
        let vector: bool = vector_available && !sparse;
        let mut counters: AdsCounters = self.counters;
        counters.add_group_work(count, tile, vector);
        self.counters = counters;
        Some(vector)
    }

    /// The distance that a row's candidates have to be below.
    pub fn threshold(&self, row: usize) -> (threshold: F32)
        requires
            self.wf(),
            row < self.rows(),
        ensures
            threshold == tiny_threshold(self.kept(row as int), self.room(row as int)),
    {
        proof {
            assert(self.top@[row as int].wf());
        }
        self.top[row].threshold()
    }

    /// The threshold of a pair: a distance that is below it may serve one of the rows.
    pub fn pair_threshold(&self, left: usize, right: usize) -> (threshold: F32)
        requires
            self.wf(),
            left < self.rows(),
            right < self.rows(),
        ensures
            threshold == larger_threshold(
                tiny_threshold(self.kept(left as int), self.room(left as int)),
                tiny_threshold(self.kept(right as int), self.room(right as int)),
            ),
    {
        let a: F32 = self.threshold(left);
        let b: F32 = self.threshold(right);
        if a.is_nan() {
            b
        } else if b.is_nan() || !a.lt(b) {
            a
        } else {
            b
        }
    }

    /// Drops the lanes of the `i`-th row whose distance so far is not below the lane's
    /// limit, and counts each for both of its rows.
    pub fn prune_pairs(&mut self, i: usize, distances: &[F32], limits: &[F32])
        requires
            old(self).wf(),
            old(self).counts().has_room(),
            i < ADS_LEADER_BLOCK,
            distances@.len() == ADS_LEADER_BLOCK,
            limits@.len() == ADS_LEADER_BLOCK,
        ensures
            final(self).wf(),
            final(self).same_leaf(old(self)),
            final(self).same_kept(old(self)),
            final(self).active().len() == old(self).active().len(),
            forall|q: int|
                0 <= q < 64 && q != i ==> #[trigger] final(self).active()[q]
                    == old(self).active()[q],
            forall|j: int|
                0 <= j < 64 ==> #[trigger] lane(final(self).active()[i as int], j) == (lane(
                    old(self).active()[i as int],
                    j,
                ) && distances@[j].below(limits@[j])),
            forall|j: int|
                0 <= j < 64 ==> #[trigger] bit_set(final(self).active()[i as int] as int, j) == (
                bit_set(old(self).active()[i as int] as int, j) && lies_below(
                    distances@[j],
                    limits@[j],
                )),
            final(self).counts() == (AdsCounters {
                pruned_evals: (old(self).counts().pruned_evals + 2 * (lanes_set(
                    old(self).active()[i as int],
                    64,
                ) - lanes_set(final(self).active()[i as int], 64))) as u64,
                ..old(self).counts()
            }),
    {
        let before: u64 = self.masks[i];
        let mut after: u64 = 0;
        proof {
            assert forall|j: int| 0 <= j < 64 implies !#[trigger] lane(0, j) by {
                lemma_no_lane(j as u64);
            }
        }
        for local in 0..ADS_LEADER_BLOCK
            invariant
                distances@.len() == ADS_LEADER_BLOCK,
                limits@.len() == ADS_LEADER_BLOCK,
                forall|j: int|
                    0 <= j < 64 ==> #[trigger] lane(after, j) == (j < local && lane(before, j)
                        && distances@[j].below(limits@[j])),
        {
            if has_lane(before, local) && distances[local].lt(limits[local]) {
                after = with_lane(after, local);
            }
        }
        proof {
            lemma_lanes_taken(before, after, 64);
            lemma_lanes_set(before, 64);
            lemma_lanes_set(after, 64);
        }
        proof {
            assert forall|j: int| 0 <= j < 64 implies #[trigger] bit_set(after as int, j) == (
            bit_set(before as int, j) && lies_below(distances@[j], limits@[j])) by {
                law_lanes_are_bits(before, j);
                law_lanes_are_bits(after, j);
                law_singles_compare_as_numbers(distances@[j], limits@[j]);
            }
        }
        self.masks.set(i, after);
        self.counters.pruned_evals = self.counters.pruned_evals + 2 * (lane_count(before)
            - lane_count(after)) as u64;
    }

    /// Drops the lanes of the `i`-th row whose distance so far is not below the limit.
    pub fn prune_row(&mut self, i: usize, distances: &[F32], limit: F32)
        requires
            old(self).wf(),
            old(self).counts().has_room(),
            i < ADS_LEADER_BLOCK,
            distances@.len() == ADS_LEADER_BLOCK,
        ensures
            final(self).wf(),
            final(self).same_leaf(old(self)),
            final(self).same_kept(old(self)),
            final(self).active().len() == old(self).active().len(),
            forall|q: int|
                0 <= q < 64 && q != i ==> #[trigger] final(self).active()[q]
                    == old(self).active()[q],
            forall|j: int|
                0 <= j < 64 ==> #[trigger] lane(final(self).active()[i as int], j) == (lane(
                    old(self).active()[i as int],
                    j,
                ) && distances@[j].below(limit)),
            final(self).counts() == (AdsCounters {
                pruned_evals: (old(self).counts().pruned_evals + lanes_set(
                    old(self).active()[i as int],
                    64,
                ) - lanes_set(final(self).active()[i as int], 64)) as u64,
                ..old(self).counts()
            }),
    {
        let before: u64 = self.masks[i];
        let after: u64 = prune_ads_mask(before, distances, limit);
        proof {
            lemma_lanes_taken(before, after, 64);
            lemma_lanes_set(before, 64);
            lemma_lanes_set(after, 64);
        }
        self.masks.set(i, after);
        self.counters.pruned_evals = self.counters.pruned_evals + (lane_count(before) - lane_count(
            after,
        )) as u64;
    }

    /// Shows the distances that are left of the `i`-th row to both of their rows.
    pub fn commit_pairs(&mut self, i: usize, row: usize, other: usize, distances: &[F32])
        requires
            old(self).wf(),
            old(self).counts().has_room(),
            i < ADS_LEADER_BLOCK,
            row < old(self).rows(),
            other * 64 < old(self).rows(),
            row < other * 64 || other * 64 + 64 <= row,
            distances@.len() == ADS_LEADER_BLOCK,
            forall|j: int|
                0 <= j < 64 && #[trigger] lane(old(self).active()[i as int], j)
                    ==> j < old(self).block_len(other as int),
        ensures
            final(self).wf(),
            final(self).same_leaf(old(self)),
            final(self).active() == old(self).active(),
            final(self).counts() == (AdsCounters {
                full_evals: (old(self).counts().full_evals + lanes_set(
                    old(self).active()[i as int],
                    64,
                )) as u64,
                ..old(self).counts()
            }),
            final(self).kept(row as int) == lanes_pushed(
                old(self).kept(row as int),
                old(self).room(row as int),
                other * 64,
                old(self).active()[i as int],
                distances@,
                64,
            ),
            forall|r: int|
                0 <= r < old(self).rows() && r != row ==> #[trigger] final(self).kept(r) == if other
                    * 64 <= r < other * 64 + 64 && lane(
                    old(self).active()[i as int],
                    r - other * 64,
                ) {
                    tiny_pushed(
                        old(self).kept(r),
                        old(self).room(r),
                        Neighbor { index: row, dist: distances@[r - other * 64] },
                    )
                } else {
                    old(self).kept(r)
                },
    {
        let mask: u64 = self.masks[i];
        let rows: usize = self.top.len();
        let start: usize = other * ADS_LEADER_BLOCK;
        let mut shown: u64 = 0;
        for local in 0..ADS_LEADER_BLOCK
            invariant
                self.wf(),
                self.same_leaf(old(self)),
                self.active() == old(self).active(),
                self.counts() == old(self).counts(),
                rows == self.rows(),
                rows == old(self).rows(),
                row < rows,
                start == other * 64,
                start < rows,
                row < start || start + 64 <= row,
                mask == old(self).active()[i as int],
                distances@.len() == ADS_LEADER_BLOCK,
                forall|j: int|
                    0 <= j < 64 && #[trigger] lane(mask, j) ==> j < old(self).block_len(
                        other as int,
                    ),
                shown == lanes_set(mask, local as int),
                shown <= local,
                self.kept(row as int) == lanes_pushed(
                    old(self).kept(row as int),
                    old(self).room(row as int),
                    start as int,
                    mask,
                    distances@,
                    local as int,
                ),
                forall|r: int|
                    0 <= r < rows && r != row ==> #[trigger] self.kept(r) == if start <= r < start
                        + local && lane(mask, r - start) {
                        tiny_pushed(
                            old(self).kept(r),
                            old(self).room(r),
                            Neighbor { index: row, dist: distances@[r - start] },
                        )
                    } else {
                        old(self).kept(r)
                    },
        {
            if has_lane(mask, local) {
                let candidate: usize = start + local;
                proof {
                    assert(self.room(row as int) == old(self).room(row as int));
                    assert(self.room(candidate as int) == old(self).room(candidate as int));
                    assert(self.kept(candidate as int) == old(self).kept(candidate as int));
                }
                let ghost before = *self;
                self.show_pair(row, candidate, distances[local]);
                shown = shown + 1;
                proof {
                    assert forall|r: int| 0 <= r < rows && r != row implies #[trigger] self.kept(r)
                        == if start <= r < start + local + 1 && lane(mask, r - start) {
                        tiny_pushed(
                            old(self).kept(r),
                            old(self).room(r),
                            Neighbor { index: row, dist: distances@[r - start] },
                        )
                    } else {
                        old(self).kept(r)
                    } by {
                        if r != candidate {
                            assert(self.kept(r) == before.kept(r));
                        }
                    }
                }
            }
        }
        proof {
            lemma_lanes_set(mask, 64);
        }
        let ghost counted = *self;
        self.counters.full_evals = self.counters.full_evals + shown;
        proof {
            assert forall|r: int|
                #![trigger self.kept(r)]
                #![trigger self.room(r)]
                0 <= r < self.rows() implies self.kept(r) == counted.kept(r) && self.room(r)
                == counted.room(r) by {}
            assert forall|r: int| 0 <= r < self.rows() implies #[trigger] self.room(r)
                == old(self).room(r) by {
                assert(counted.room(r) == old(self).room(r));
            }
        }
    }

    /// Shows the distances that are left of the `i`-th row to that row alone.
    pub fn commit_row(&mut self, i: usize, row: usize, other: usize, distances: &[F32])
        requires
            old(self).wf(),
            old(self).counts().has_room(),
            i < ADS_LEADER_BLOCK,
            row < old(self).rows(),
            other * 64 < old(self).rows(),
            distances@.len() == ADS_LEADER_BLOCK,
            forall|j: int|
                0 <= j < 64 && #[trigger] lane(old(self).active()[i as int], j)
                    ==> j < old(self).block_len(other as int) && other * 64 + j != row,
        ensures
            final(self).wf(),
            final(self).same_leaf(old(self)),
            final(self).active() == old(self).active(),
            final(self).counts() == (AdsCounters {
                full_evals: (old(self).counts().full_evals + lanes_set(
                    old(self).active()[i as int],
                    64,
                )) as u64,
                ..old(self).counts()
            }),
            final(self).kept(row as int) == lanes_pushed(
                old(self).kept(row as int),
                old(self).room(row as int),
                other * 64,
                old(self).active()[i as int],
                distances@,
                64,
            ),
            forall|r: int|
                0 <= r < old(self).rows() && r != row ==> #[trigger] final(self).kept(r)
                    == old(self).kept(r),
    {
        let mask: u64 = self.masks[i];
        let rows: usize = self.top.len();
        let start: usize = other * ADS_LEADER_BLOCK;
        let mut shown: u64 = 0;
        proof {
            assert(mask == old(self).active()[i as int]);
            assert forall|j: int| 0 <= j < 64 && #[trigger] lane(mask, j)
                implies j < old(self).block_len(other as int) && start + j != row by {
                assert(lane(old(self).active()[i as int], j));
            }
        }
        for local in 0..ADS_LEADER_BLOCK
            invariant
                self.wf(),
                self.same_leaf(old(self)),
                self.active() == old(self).active(),
                self.counts() == old(self).counts(),
                rows == self.rows(),
                rows == old(self).rows(),
                row < rows,
                start == other * 64,
                start < rows,
                mask == old(self).active()[i as int],
                distances@.len() == ADS_LEADER_BLOCK,
                forall|j: int|
                    0 <= j < 64 && #[trigger] lane(mask, j) ==> j < old(self).block_len(
                        other as int,
                    ) && start + j != row,
                shown == lanes_set(mask, local as int),
                shown <= local,
                self.kept(row as int) == lanes_pushed(
                    old(self).kept(row as int),
                    old(self).room(row as int),
                    start as int,
                    mask,
                    distances@,
                    local as int,
                ),
                forall|r: int|
                    0 <= r < rows && r != row ==> #[trigger] self.kept(r) == old(self).kept(r),
        {
            if has_lane(mask, local) {
                let candidate: usize = start + local;
                let dist: F32 = distances[local];
                proof {
                    assert(self.room(row as int) == old(self).room(row as int));
                    assert(self.top@[row as int].wf());
                    lemma_push_names_other_rows(
                        self.kept(row as int),
                        self.room(row as int),
                        Neighbor { index: candidate, dist },
                        row as int,
                        self.rows(),
                    );
                }
                let ghost before = self.top@;
                let ghost whole = *self;
                self.top[row].push(dist, candidate);
                shown = shown + 1;
                proof {
                    assert forall|r: int| 0 <= r < self.rows() implies (
                    #[trigger] self.top@[r]).wf() && names_other_rows(
                        self.top@[r]@,
                        r,
                        self.rows(),
                    ) by {
                        assert(before[r].wf() && names_other_rows(before[r]@, r, self.rows()));
                    }
                    assert forall|r: int| 0 <= r < rows && r != row implies #[trigger] self.kept(r)
                        == old(self).kept(r) by {
                        assert(whole.kept(r) == old(self).kept(r));
                    }
                    assert forall|r: int| 0 <= r < rows implies #[trigger] self.room(r)
                        == old(self).room(r) by {
                        assert(whole.room(r) == old(self).room(r));
                    }
                }
            }
        }
        proof {
            lemma_lanes_set(mask, 64);
        }
        let ghost counted = *self;
        self.counters.full_evals = self.counters.full_evals + shown;
        proof {
            assert forall|r: int|
                #![trigger self.kept(r)]
                #![trigger self.room(r)]
                0 <= r < self.rows() implies self.kept(r) == counted.kept(r) && self.room(r)
                == counted.room(r) by {}
            assert forall|r: int| 0 <= r < self.rows() implies #[trigger] self.room(r)
                == old(self).room(r) by {
                assert(counted.room(r) == old(self).room(r));
            }
        }
    }

    /// A row's neighbours with their distances, nearest first.
    pub fn entries(&self, row: usize) -> (entries: Vec<Neighbor>)
        requires
            self.wf(),
            row < self.rows(),
        ensures
            entries@ == self.kept(row as int),
    {
        self.top[row].entries()
    }

    pub fn counters(&self) -> (counters: AdsCounters)
        ensures
            counters == self.counts(),
    {
        self.counters
    }

    /// Whatever distances were shown, a row keeps other rows of its leaf, none of them
    /// twice.
    pub proof fn law_no_self_and_no_duplicates(&self, row: int)
        requires
            self.wf(),
            0 <= row < self.rows(),
        ensures
            names_other_rows(self.kept(row), row, self.rows()),
            distinct_indices(self.kept(row)),
            self.kept(row).len() <= self.room(row),
    {
        assert(self.top@[row].wf());
    }
}

/// The rows that the first `n` of the pairs show to `row`, with their distances.
pub open spec fn partners(
    pairs: Seq<(usize, usize)>,
    distances: Seq<F32>,
    row: int,
    n: int,
) -> Seq<Neighbor>
    decreases n,
{
    if n <= 0 {
        Seq::<Neighbor>::empty()
    } else {
        let before = partners(pairs, distances, row, n - 1);
        if pairs[n - 1].0 == row {
            before.push(Neighbor { index: pairs[n - 1].1, dist: distances[n - 1] })
        } else if pairs[n - 1].1 == row {
            before.push(Neighbor { index: pairs[n - 1].0, dist: distances[n - 1] })
        } else {
            before
        }
    }
}

/// The pair that shows `other` to `row`.
pub open spec fn pair_of(row: int, other: int) -> (usize, usize) {
    if row < other {
        (row as usize, other as usize)
    } else {
        (other as usize, row as usize)
    }
}

/// A row's partners come from different pairs, and every pair with the row brings one.
proof fn lemma_partners(
    pairs: Seq<(usize, usize)>,
    distances: Seq<F32>,
    rows: int,
    row: int,
    n: int,
)
    requires
        0 <= n <= pairs.len(),
        0 <= row < rows <= usize::MAX,
        forall|p: int|
            0 <= p < pairs.len() ==> (#[trigger] pairs[p]).0 < pairs[p].1 < rows,
        forall|p: int, q: int|
            0 <= p < q < pairs.len() ==> #[trigger] pairs[p] != #[trigger] pairs[q],
    ensures
        ({
            let found = partners(pairs, distances, row, n);
            &&& distinct_indices(found)
            &&& forall|i: int|
                0 <= i < found.len() ==> pairs.take(n).contains(
                    pair_of(row, (#[trigger] found[i]).index as int),
                )
            &&& forall|p: int|
                0 <= p < n && ((#[trigger] pairs[p]).0 == row || pairs[p].1 == row) ==> holds_index(
                    found,
                    if pairs[p].0 == row {
                        pairs[p].1
                    } else {
                        pairs[p].0
                    },
                )
        }),
    decreases n,
{
    if n > 0 {
        lemma_partners(pairs, distances, rows, row, n - 1);
        let before = partners(pairs, distances, row, n - 1);
        let found = partners(pairs, distances, row, n);
        let last = pairs[n - 1];
        assert(pairs.take(n) =~= pairs.take(n - 1).push(last));
        assert forall|i: int| 0 <= i < found.len() implies pairs.take(n).contains(
            pair_of(row, (#[trigger] found[i]).index as int),
        ) by {
            if i < before.len() {
                assert(found[i] == before[i]);
                let shown = pairs.take(n - 1);
                assert(shown.contains(pair_of(row, before[i].index as int)));
                let q = choose|q: int|
                    0 <= q < shown.len() && shown[q] == pair_of(row, before[i].index as int);
                assert(pairs.take(n)[q] == pair_of(row, found[i].index as int));
            } else {
                assert(pairs.take(n)[n - 1] == last);
            }
        }
        assert forall|i: int, j: int| 0 <= i < j < found.len() implies (
        #[trigger] found[i]).index != (#[trigger] found[j]).index by {
            assert(found[i] == before[i]);
            if j < before.len() {
                assert(found[j] == before[j]);
            } else if found[i].index == found[j].index {
                let shown = pairs.take(n - 1);
                assert(shown.contains(pair_of(row, before[i].index as int)));
                let q = choose|q: int|
                    0 <= q < shown.len() && shown[q] == pair_of(row, before[i].index as int);
                assert(pairs[q] == last);
            }
        }
        assert forall|p: int|
            0 <= p < n && ((#[trigger] pairs[p]).0 == row || pairs[p].1 == row) implies holds_index(
            found,
            if pairs[p].0 == row {
                pairs[p].1
            } else {
                pairs[p].0
            },
        ) by {
            let other = if pairs[p].0 == row {
                pairs[p].1
            } else {
                pairs[p].0
            };
            if p < n - 1 {
                assert(holds_index(before, other));
                let i = choose|i: int|
                    0 <= i < before.len() && (#[trigger] before[i]).index == other;
                assert(found[i].index == other);
            } else {
                assert(found[before.len() as int].index == other);
            }
        }
    }
}

/// Once the pairs that are measured before the scan have been shown, every row keeps
/// exactly as many others as it has room for, where there are that many seeds.
pub proof fn law_seeded_row_is_full(
    pairs: Seq<(usize, usize)>,
    distances: Seq<F32>,
    rows: int,
    seeds: int,
    row: int,
    k: int,
)
    requires
        0 <= row < rows <= usize::MAX,
        1 <= k <= seeds < rows,
        lists_pairs(pairs, rows, |a: int, b: int| mutual(rows, seeds, a, b)),
    ensures
        ({
            let shown = partners(pairs, distances, row, pairs.len() as int);
            tiny_scanned(shown, k, shown.len() as int).len() == k
        }),
{
    let n = pairs.len() as int;
    let shown = partners(pairs, distances, row, n);
    let chosen = |a: int, b: int| mutual(rows, seeds, a, b);
    lemma_partners(pairs, distances, rows, row, n);
    let others = Seq::new(
        seeds as nat,
        |o: int| if row + o + 1 < rows {
            row + o + 1
        } else {
            row + o + 1 - rows
        },
    );
    let seen = Seq::new(shown.len(), |i: int| shown[i].index as int);
    assert(others.no_duplicates());
    assert forall|o: int| 0 <= o < others.len() implies seen.contains(#[trigger] others[o]) by {
        let other = others[o];
        assert(ahead(row, other, rows) == o + 1);
        let pair = pair_of(row, other);
        assert(chosen(pair.0 as int, pair.1 as int));
        assert(pairs.contains(pair));
        let p = choose|p: int| 0 <= p < pairs.len() && pairs[p] == pair;
        assert(pairs[p].0 == row || pairs[p].1 == row);
        assert(holds_index(shown, other as usize));
        let i = choose|i: int|
            0 <= i < shown.len() && (#[trigger] shown[i]).index == other as usize;
        assert(seen[i] == other);
    }
    assert(seen.no_duplicates()) by {
        assert forall|i: int, j: int| 0 <= i < j < seen.len() implies seen[i] != seen[j] by {
            assert(shown[i].index != shown[j].index);
        }
    }
    others.unique_seq_to_set();
    seen.unique_seq_to_set();
    vstd::seq_lib::seq_to_set_is_finite(seen);
    assert(others.to_set().subset_of(seen.to_set())) by {
        assert forall|x: int| others.to_set().contains(x) implies seen.to_set().contains(x) by {
            let o = choose|o: int| 0 <= o < others.len() && others[o] == x;
            assert(seen.contains(others[o]));
        }
    }
    vstd::set_lib::lemma_len_subset(others.to_set(), seen.to_set());
    law_scan_fills_every_place(shown, k, shown.len() as int);
}

} // verus!
