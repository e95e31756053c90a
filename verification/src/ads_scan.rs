//! Scanning leaders for a tile of queries: who is measured, who is dropped and who is kept.

use vstd::prelude::*;

use crate::ads_config::ADS_QUERY_TILE;
use crate::ads_topk::{
    distinct_indices, holds_index, law_scan_fills_every_place, lemma_tiny_len, lemma_tiny_members,
    tiny_pushed, tiny_scanned, tiny_threshold, TinyTopK,
};
use crate::arith::{floored, greatest, least, max_usize, min_usize};
use crate::direction::bit_set;
use crate::float_bits::F32;
use crate::float_value::{law_singles_compare_as_numbers, lies_below};
use crate::lane_laws::{
    comparable_lanes, law_lanes_are_bits, law_lanes_are_counted, law_lanes_compete_with_the_kept,
    nearest_of_both, set_lanes,
};
use crate::lane_mask::{
    active_lanes, block_len_mask, groups_set, has_lane, is_sparse, lane, lane_count, lanes_set,
    lemma_lanes_set, lemma_lanes_taken, lemma_no_lane, seeds_row, should_use_sparse_ads_fallback,
    simd_group_call_count, total_lanes, with_lane, without_lane, ADS_LEADER_BLOCK,
};
use crate::topk::Neighbor;

verus! {

/// The leaders that are measured in full before the others are sampled: the first ones.
pub open spec fn seed_count(candidates: int, seed_exact: int, fanout: int) -> int {
    least(candidates, greatest(greatest(seed_exact, fanout), 1))
}

pub fn adsampling_seed_indices(
    candidate_count: usize,
    seed_exact: usize,
    fanout: usize,
) -> (seeds: Vec<usize>)
    ensures
        seeds@ == Seq::new(
            seed_count(candidate_count as int, seed_exact as int, fanout as int) as nat,
            |i: int| i as usize,
        ),
{
    let count: usize = min_usize(candidate_count, max_usize(max_usize(seed_exact, fanout), 1));
    let mut seeds: Vec<usize> = Vec::with_capacity(count);
    for i in 0..count
        invariant
            seeds@ == Seq::new(i as nat, |k: int| k as usize),
    {
        seeds.push(i);
        proof {
            assert(seeds@ =~= Seq::new((i + 1) as nat, |k: int| k as usize));
        }
    }
    seeds
}

/// Marks the candidates that are seeds; indices past the candidates are left out.
pub fn adsampling_seed_mask(candidate_count: usize, seed_indices: &[usize]) -> (seeded: Vec<bool>)
    ensures
        seeded@.len() == candidate_count,
        forall|i: int|
            0 <= i < candidate_count ==> #[trigger] seeded@[i] == seed_indices@.contains(
                i as usize,
            ),
{
    let mut seeded: Vec<bool> = Vec::with_capacity(candidate_count);
    for i in 0..candidate_count
        invariant
            seeded@.len() == i,
            forall|j: int| 0 <= j < i ==> !#[trigger] seeded@[j],
    {
        seeded.push(false);
    }
    for k in 0..seed_indices.len()
        invariant
            seeded@.len() == candidate_count,
            forall|i: int|
                0 <= i < candidate_count ==> #[trigger] seeded@[i] == seed_indices@.take(
                    k as int,
                ).contains(i as usize),
    {
        let idx: usize = seed_indices[k];
        let ghost before = seeded@;
        if idx < candidate_count {
            seeded.set(idx, true);
        }
        proof {
            let shorter = seed_indices@.take(k as int);
            let longer = seed_indices@.take(k + 1);
            assert(longer =~= shorter.push(idx));
            assert forall|i: int| 0 <= i < candidate_count implies #[trigger] seeded@[i]
                == longer.contains(i as usize) by {
                assert(before[i] == shorter.contains(i as usize));
                if shorter.contains(i as usize) {
                    let p = choose|p: int| 0 <= p < shorter.len() && shorter[p] == i as usize;
                    assert(longer[p] == i as usize);
                }
                if i == idx {
                    assert(longer[k as int] == i as usize);
                }
                if longer.contains(i as usize) && i != idx {
                    let p = choose|p: int| 0 <= p < longer.len() && longer[p] == i as usize;
                    assert(shorter[p] == i as usize);
                }
            }
        }
    }
    proof {
        assert(seed_indices@.take(seed_indices@.len() as int) =~= seed_indices@);
    }
    seeded
}

/// The candidates of a block that are not seeds.
pub fn unseeded_block_mask(seeded: &[bool], block_start: usize, block_len: usize) -> (mask: u64)
    requires
        block_len <= 64,
        block_start + block_len <= seeded@.len(),
    ensures
        forall|j: int|
            0 <= j < 64 ==> #[trigger] lane(mask, j) == (j < block_len && !seeded@[block_start
                + j]),
{
    let total: usize = seeded.len();
    let mut mask: u64 = block_len_mask(block_len);
    for local in 0..block_len
        invariant
            total == seeded@.len(),
            block_len <= 64,
            block_start + block_len <= total,
            forall|j: int|
                0 <= j < 64 ==> #[trigger] lane(mask, j) == (j < block_len && !(j < local
                    && seeded@[block_start + j])),
    {
        if seeded[block_start + local] {
            mask = without_lane(mask, local);
        }
    }
    mask
}

/// What a scan has done.
#[derive(Clone, Copy, Debug, PartialEq, Eq, Structural)]
pub struct AdsCounters {
    /// Leaders that were measured in full before the scan.
    pub seed_evals: u64,
    /// Leaders that the scan measured in full.
    pub full_evals: u64,
    /// Leaders that the scan dropped.
    pub pruned_evals: u64,
    /// Leaders times groups of dimensions that were measured, in all, by vector kernels
    /// and one by one.
    pub group_evals: u64,
    pub simd_active_lane_evals: u64,
    pub scalar_group_evals: u64,
    /// Groups of lanes that vector kernels worked on.
    pub simd_group_calls: u64,
}

/// No counter of a scan is near its end.
pub const COUNTER_ROOM: u64 = 0x1000;

impl AdsCounters {
    pub open spec fn zero() -> AdsCounters {
        AdsCounters {
            seed_evals: 0,
            full_evals: 0,
            pruned_evals: 0,
            group_evals: 0,
            simd_active_lane_evals: 0,
            scalar_group_evals: 0,
            simd_group_calls: 0,
        }
    }

    pub fn new() -> (counters: AdsCounters)
        ensures
            counters == AdsCounters::zero(),
    {
        AdsCounters {
            seed_evals: 0,
            full_evals: 0,
            pruned_evals: 0,
            group_evals: 0,
            simd_active_lane_evals: 0,
            scalar_group_evals: 0,
            simd_group_calls: 0,
        }
    }

    /// One more step can be counted.
    pub open spec fn has_room(self) -> bool {
        &&& self.seed_evals <= u64::MAX - COUNTER_ROOM
        &&& self.full_evals <= u64::MAX - COUNTER_ROOM
        &&& self.pruned_evals <= u64::MAX - COUNTER_ROOM
        &&& self.group_evals <= u64::MAX - COUNTER_ROOM
        &&& self.simd_active_lane_evals <= u64::MAX - COUNTER_ROOM
        &&& self.scalar_group_evals <= u64::MAX - COUNTER_ROOM
        &&& self.simd_group_calls <= u64::MAX - COUNTER_ROOM
    }

    /// The counters after `active` lanes of `masks` were measured over one group of
    /// dimensions.
    pub open spec fn after_group(self, active: int, masks: Seq<u64>, vector: bool) -> AdsCounters {
        if vector {
            AdsCounters {
                group_evals: (self.group_evals + active) as u64,
                simd_group_calls: (self.simd_group_calls + groups_set(masks, 4)) as u64,
                simd_active_lane_evals: (self.simd_active_lane_evals + active) as u64,
                ..self
            }
        } else {
            AdsCounters {
                group_evals: (self.group_evals + active) as u64,
                scalar_group_evals: (self.scalar_group_evals + active) as u64,
                ..self
            }
        }
    }

    pub fn add_group_work(&mut self, active_count: u64, active_masks: &[u64], vector: bool)
        requires
            old(self).has_room(),
            active_count <= 512,
            active_masks@.len() <= 8,
        ensures
            *final(self) == old(self).after_group(active_count as int, active_masks@, vector),
    {
        self.group_evals = self.group_evals + active_count;
        if vector {
            self.simd_group_calls = self.simd_group_calls + simd_group_call_count(active_masks);
            self.simd_active_lane_evals = self.simd_active_lane_evals + active_count;
        } else {
            self.scalar_group_evals = self.scalar_group_evals + active_count;
        }
    }
}

/// The lanes that stay: the active ones whose distance is below the limit.
pub fn prune_ads_mask(active_mask: u64, distances: &[F32], threshold: F32) -> (keep: u64)
    requires
        distances@.len() == ADS_LEADER_BLOCK,
    ensures
        forall|j: int|
            0 <= j < 64 ==> #[trigger] lane(keep, j) == (lane(active_mask, j)
                && distances@[j].below(threshold)),
        forall|j: int|
            0 <= j < 64 ==> #[trigger] bit_set(keep as int, j) == (bit_set(active_mask as int, j)
                && lies_below(distances@[j], threshold)),
{
    let mut keep: u64 = 0;
    proof {
        assert forall|j: int| 0 <= j < 64 implies !#[trigger] lane(0, j) by {
            lemma_no_lane(j as u64);
        }
    }
    for local in 0..ADS_LEADER_BLOCK
        invariant
            distances@.len() == ADS_LEADER_BLOCK,
            forall|j: int|
                0 <= j < 64 ==> #[trigger] lane(keep, j) == (j < local && lane(active_mask, j)
                    && distances@[j].below(threshold)),
    {
        if has_lane(active_mask, local) && distances[local].lt(threshold) {
            keep = with_lane(keep, local);
        }
    }
    proof {
        assert forall|j: int| 0 <= j < 64 implies #[trigger] bit_set(keep as int, j) == (bit_set(
            active_mask as int,
            j,
        ) && lies_below(distances@[j], threshold)) by {
            law_lanes_are_bits(keep, j);
            law_lanes_are_bits(active_mask, j);
            law_singles_compare_as_numbers(distances@[j], threshold);
        }
    }
    keep
}

/// A selection after the active lanes of a block were shown to it, lowest lane first.
pub open spec fn lanes_pushed(
    entries: Seq<Neighbor>,
    k: int,
    block_start: int,
    mask: u64,
    distances: Seq<F32>,
    n: int,
) -> Seq<Neighbor>
    decreases n,
{
    if n <= 0 {
        entries
    } else {
        let before = lanes_pushed(entries, k, block_start, mask, distances, n - 1);
        if lane(mask, n - 1) {
            tiny_pushed(
                before,
                k,
                Neighbor { index: (block_start + n - 1) as usize, dist: distances[n - 1] },
            )
        } else {
            before
        }
    }
}

/// Shows the active lanes of a block to a selection and tells how many there were.
pub fn push_active_distances(
    top: &mut TinyTopK,
    block_start: usize,
    active_mask: u64,
    distances: &[F32],
) -> (pushed: u64)
    requires
        old(top).wf(),
        block_start + ADS_LEADER_BLOCK <= usize::MAX,
        distances@.len() == ADS_LEADER_BLOCK,
    ensures
        final(top).wf(),
        final(top).room() == old(top).room(),
        final(top)@ == lanes_pushed(
            old(top)@,
            old(top).room(),
            block_start as int,
            active_mask,
            distances@,
            64,
        ),
        pushed == lanes_set(active_mask, 64),
        comparable_lanes(old(top)@, block_start as int, active_mask, distances@)
            ==> nearest_of_both(
            old(top)@,
            old(top).room(),
            block_start as int,
            active_mask,
            distances@,
            64,
            final(top)@,
        ),
        pushed == set_lanes(active_mask, 64).len(),
{
    proof {
        law_lanes_are_counted(active_mask, 64);
        if comparable_lanes(top@, block_start as int, active_mask, distances@) {
            law_lanes_compete_with_the_kept(
                top@,
                top.room(),
                block_start as int,
                active_mask,
                distances@,
                64,
            );
        }
    }
    let mut pushed: u64 = 0;
    for local in 0..ADS_LEADER_BLOCK
        invariant
            top.wf(),
            top.room() == old(top).room(),
            block_start + ADS_LEADER_BLOCK <= usize::MAX,
            distances@.len() == ADS_LEADER_BLOCK,
            top@ == lanes_pushed(
                old(top)@,
                old(top).room(),
                block_start as int,
                active_mask,
                distances@,
                local as int,
            ),
            pushed == lanes_set(active_mask, local as int),
            pushed <= local,
    {
        if has_lane(active_mask, local) {
            top.push(distances[local], block_start + local);
            pushed = pushed + 1;
        }
    }
    pushed
}

/// The scan of one tile of queries: for each the nearest leaders so far and the lanes of
/// the current block that are still in question.
#[derive(Debug)]
pub struct TileScan {
    top: Vec<TinyTopK>,
    masks: Vec<u64>,
    counters: AdsCounters,
}

impl TileScan {
    pub closed spec fn queries(&self) -> int {
        self.top@.len() as int
    }

    /// The nearest leaders of a query so far.
    pub closed spec fn kept(&self, query: int) -> Seq<Neighbor> {
        self.top@[query]@
    }

    /// How many leaders each query keeps.
    pub closed spec fn room(&self, query: int) -> int {
        self.top@[query].room()
    }

    /// The lanes in question, for each query.
    pub closed spec fn active(&self) -> Seq<u64> {
        self.masks@
    }

    pub closed spec fn counts(&self) -> AdsCounters {
        self.counters
    }

    pub closed spec fn wf(&self) -> bool {
        &&& 1 <= self.top@.len() <= ADS_QUERY_TILE
        &&& self.masks@.len() == self.top@.len()
        &&& forall|q: int| 0 <= q < self.top@.len() ==> (#[trigger] self.top@[q]).wf()
    }

    /// Leaders that the scan has decided on or still has in question.
    pub open spec fn accounted(&self) -> int {
        self.counts().full_evals + self.counts().pruned_evals + total_lanes(
            self.active(),
            self.queries(),
        )
    }

    /// Nothing is in question.
    pub open spec fn idle(&self) -> bool {
        total_lanes(self.active(), self.queries()) == 0
    }

    /// The selections of all queries but one are as they were.
    pub open spec fn others_kept(&self, before: &TileScan, query: int) -> bool {
        &&& self.queries() == before.queries()
        &&& forall|q: int|
            #![trigger self.kept(q)]
            #![trigger self.room(q)]
            0 <= q < self.queries() ==> self.room(q) == before.room(q) && (q != query
                ==> self.kept(q) == before.kept(q))
    }

    /// A tile of queries that each keep `k` leaders, before any was seen.
    pub fn new(query_count: usize, k: usize) -> (scan: Self)
        requires
            1 <= query_count <= ADS_QUERY_TILE,
        ensures
            scan.wf(),
            scan.queries() == query_count,
            scan.counts() == AdsCounters::zero(),
            scan.active() == Seq::new(query_count as nat, |q: int| 0u64),
            scan.idle(),
            forall|q: int|
                #![trigger scan.kept(q)]
                #![trigger scan.room(q)]
                0 <= q < query_count ==> scan.kept(q) == Seq::<Neighbor>::empty() && scan.room(q)
                    == least(greatest(k as int, 1), 32),
    {
        let mut top: Vec<TinyTopK> = Vec::with_capacity(query_count);
        let mut masks: Vec<u64> = Vec::with_capacity(query_count);
        for q in 0..query_count
            invariant
                top@.len() == q,
                masks@ == Seq::new(q as nat, |p: int| 0u64),
                forall|p: int|
                    0 <= p < q ==> {
                        &&& (#[trigger] top@[p]).wf()
                        &&& top@[p]@ == Seq::<Neighbor>::empty()
                        &&& top@[p].room() == least(greatest(k as int, 1), 32)
                    },
        {
            top.push(TinyTopK::new(k));
            masks.push(0);
            proof {
                assert(masks@ =~= Seq::new((q + 1) as nat, |p: int| 0u64));
            }
        }
        proof {
            lemma_no_lanes(masks@, query_count as int);
        }
        TileScan { top, masks, counters: AdsCounters::new() }
    }

    /// A query was measured against a seed.
    pub fn seed(&mut self, query: usize, dist: F32, leader: usize)
        requires
            old(self).wf(),
            old(self).counts().has_room(),
            query < old(self).queries(),
        ensures
            final(self).wf(),
            final(self).others_kept(old(self), query as int),
            final(self).kept(query as int) == tiny_pushed(
                old(self).kept(query as int),
                old(self).room(query as int),
                Neighbor { index: leader, dist },
            ),
            final(self).active() == old(self).active(),
            final(self).counts() == (AdsCounters {
                seed_evals: (old(self).counts().seed_evals + 1) as u64,
                ..old(self).counts()
            }),
            final(self).accounted() == old(self).accounted(),
    {
        self.top[query].push(dist, leader);
        self.counters.seed_evals = self.counters.seed_evals + 1;
    }

    /// Turns to a block whose candidates in question are given for each query, and tells
    /// whether there are any.
    pub fn begin_block(&mut self, base: &[u64]) -> (any: bool)
        requires
            old(self).wf(),
            old(self).idle(),
            base@.len() == old(self).queries(),
        ensures
            final(self).wf(),
            final(self).others_kept(old(self), -1),
            final(self).counts() == old(self).counts(),
            final(self).active() == base@,
            any == !final(self).idle(),
            final(self).accounted() == old(self).accounted() + total_lanes(
                base@,
                base@.len() as int,
            ),
    {
        let mut masks: Vec<u64> = Vec::with_capacity(base.len());
        for q in 0..base.len()
            invariant
                masks@ == base@.take(q as int),
        {
            masks.push(base[q]);
            proof {
                assert(masks@ =~= base@.take(q + 1));
            }
        }
        proof {
            assert(masks@ =~= base@);
        }
        self.masks = masks;
        active_lanes(self.masks.as_slice()) != 0
    }

    /// Whether another group of dimensions has to be measured, and then whether by a
    /// vector kernel: one by one where the lanes are sparse or there is no such kernel.
    pub fn next_group(
        &mut self,
        full64: u32,
        group16: u32,
        vector_available: bool,
    ) -> (work: Option<
        bool,
    >)
        requires
            old(self).wf(),
            old(self).counts().has_room(),
        ensures
            final(self).wf(),
            final(self).others_kept(old(self), -1),
            final(self).active() == old(self).active(),
            final(self).accounted() == old(self).accounted(),
            old(self).idle() ==> work is None && final(self).counts() == old(self).counts(),
            !old(self).idle() ==> {
                let active = total_lanes(old(self).active(), old(self).queries());
                let vector = vector_available && !is_sparse(
                    old(self).active(),
                    active,
                    full64 as int,
                    group16 as int,
                );
                &&& work == Some(vector)
                &&& final(self).counts() == old(self).counts().after_group(
                    active,
                    old(self).active(),
                    vector,
                )
            },
    {
        let count: u64 = active_lanes(self.masks.as_slice());
        if count == 0 {
            return None;
        }
        let sparse: bool = should_use_sparse_ads_fallback(
            self.masks.as_slice(),
            count as u32,
            full64,
            group16,
        );
        let vector: bool = vector_available && !sparse;
        self.counters.add_group_work(count, self.masks.as_slice(), vector);
        Some(vector)
    }

    /// Drops a query's lanes whose distance so far is not below the limit.
    pub fn prune(&mut self, query: usize, distances: &[F32], limit: F32)
        requires
            old(self).wf(),
            old(self).counts().has_room(),
            query < old(self).queries(),
            distances@.len() == ADS_LEADER_BLOCK,
        ensures
            final(self).wf(),
            final(self).others_kept(old(self), -1),
            final(self).active().len() == old(self).active().len(),
            forall|q: int|
                0 <= q < old(self).queries() && q != query ==> #[trigger] final(self).active()[q]
                    == old(self).active()[q],
            forall|j: int|
                0 <= j < 64 ==> #[trigger] lane(final(self).active()[query as int], j) == (lane(
                    old(self).active()[query as int],
                    j,
                ) && distances@[j].below(limit)),
            forall|j: int|
                0 <= j < 64 ==> #[trigger] bit_set(
                    final(self).active()[query as int] as int,
                    j,
                ) == (bit_set(old(self).active()[query as int] as int, j) && lies_below(
                    distances@[j],
                    limit,
                )),
            final(self).counts() == (AdsCounters {
                pruned_evals: (old(self).counts().pruned_evals + lanes_set(
                    old(self).active()[query as int],
                    64,
                ) - lanes_set(final(self).active()[query as int], 64)) as u64,
                ..old(self).counts()
            }),
            final(self).accounted() == old(self).accounted(),
    {
        let before: u64 = self.masks[query];
        let after: u64 = prune_ads_mask(before, distances, limit);
        proof {
            lemma_lanes_taken(before, after, 64);
            lemma_lanes_set(before, 64);
            lemma_lanes_set(after, 64);
        }
        let ghost masks = self.masks@;
        self.masks.set(query, after);
        self.counters.pruned_evals = self.counters.pruned_evals + (lane_count(before) - lane_count(
            after,
        )) as u64;
        proof {
            lemma_total_update(masks, query as int, after, masks.len() as int);
        }
    }

    /// Keeps a query's lanes that are left, which were measured in full.
    pub fn commit(&mut self, query: usize, block_start: usize, distances: &[F32])
        requires
            old(self).wf(),
            old(self).counts().has_room(),
            query < old(self).queries(),
            block_start + ADS_LEADER_BLOCK <= usize::MAX,
            distances@.len() == ADS_LEADER_BLOCK,
        ensures
            final(self).wf(),
            final(self).others_kept(old(self), query as int),
            final(self).kept(query as int) == lanes_pushed(
                old(self).kept(query as int),
                old(self).room(query as int),
                block_start as int,
                old(self).active()[query as int],
                distances@,
                64,
            ),
            comparable_lanes(
                old(self).kept(query as int),
                block_start as int,
                old(self).active()[query as int],
                distances@,
            ) ==> nearest_of_both(
                old(self).kept(query as int),
                old(self).room(query as int),
                block_start as int,
                old(self).active()[query as int],
                distances@,
                64,
                final(self).kept(query as int),
            ),
            final(self).active() == old(self).active().update(query as int, 0),
            final(self).counts() == (AdsCounters {
                full_evals: (old(self).counts().full_evals + lanes_set(
                    old(self).active()[query as int],
                    64,
                )) as u64,
                ..old(self).counts()
            }),
            final(self).accounted() == old(self).accounted(),
    {
        let mask: u64 = self.masks[query];
        proof {
            lemma_lanes_set(mask, 64);
        }
        let pushed: u64 = push_active_distances(&mut self.top[query], block_start, mask, distances);
        let ghost masks = self.masks@;
        self.masks.set(query, 0);
        self.counters.full_evals = self.counters.full_evals + pushed;
        proof {
            lemma_total_update(masks, query as int, 0, masks.len() as int);
            crate::lane_mask::lemma_empty_mask(0);
        }
    }

    /// The distance that a query's leaders have to be below.
    pub fn threshold(&self, query: usize) -> (threshold: F32)
        requires
            self.wf(),
            query < self.queries(),
        ensures
            threshold == tiny_threshold(self.kept(query as int), self.room(query as int)),
    {
        self.top[query].threshold()
    }

    pub fn active_mask(&self, query: usize) -> (mask: u64)
        requires
            self.wf(),
            query < self.queries(),
        ensures
            mask == self.active()[query as int],
    {
        self.masks[query]
    }

    /// A query's leaders, nearest first.
    pub fn leaders(&self, query: usize) -> (leaders: Vec<usize>)
        requires
            self.wf(),
            query < self.queries(),
        ensures
            leaders@ == self.kept(query as int).map_values(|entry: Neighbor| entry.index),
    {
        self.top[query].leaders()
    }

    /// A query's leaders with their distances, nearest first.
    pub fn entries(&self, query: usize) -> (entries: Vec<Neighbor>)
        requires
            self.wf(),
            query < self.queries(),
        ensures
            entries@ == self.kept(query as int),
    {
        self.top[query].entries()
    }

    pub fn counters(&self) -> (counters: AdsCounters)
        ensures
            counters == self.counts(),
    {
        self.counters
    }
}

pub proof fn lemma_no_lanes(masks: Seq<u64>, n: int)
    requires
        0 <= n <= masks.len(),
        forall|q: int| 0 <= q < masks.len() ==> #[trigger] masks[q] == 0,
    ensures
        total_lanes(masks, n) == 0,
    decreases n,
{
    if n > 0 {
        lemma_no_lanes(masks, n - 1);
        crate::lane_mask::lemma_empty_mask(masks[n - 1]);
    }
}

/// Changing one mask changes the total by its lanes.
pub proof fn lemma_total_update(masks: Seq<u64>, query: int, mask: u64, n: int)
    requires
        0 <= query < masks.len(),
        0 <= n <= masks.len(),
    ensures
        total_lanes(masks.update(query, mask), n) == total_lanes(masks, n) + if query < n {
            lanes_set(mask, 64) - lanes_set(masks[query], 64)
        } else {
            0
        },
    decreases n,
{
    if n > 0 {
        lemma_total_update(masks, query, mask, n - 1);
    }
}

/// Lanes of the block at `block` that a scan of `leaders` leaders with `seeds` seeds has
/// in question.
pub open spec fn unseeded_lane(leaders: int, seeds: int, block: int, j: int) -> bool {
    seeds <= block * 64 + j < leaders
}

/// Sum of the lanes in question over the first `n` of the masks of one query's blocks.
pub open spec fn lanes_in_blocks(masks: Seq<u64>, n: int) -> int {
    total_lanes(masks, n)
}

proof fn lemma_unseeded_lanes(mask: u64, leaders: int, seeds: int, block: int, n: int)
    requires
        0 <= n <= 64,
        0 <= seeds <= leaders,
        0 <= block,
        forall|j: int|
            0 <= j < 64 ==> #[trigger] lane(mask, j) == unseeded_lane(leaders, seeds, block, j),
    ensures
        lanes_set(mask, n) == floored(least(block * 64 + n, leaders) - seeds) - floored(
            least(block * 64, leaders) - seeds,
        ),
    decreases n,
{
    if n > 0 {
        lemma_unseeded_lanes(mask, leaders, seeds, block, n - 1);
        assert(lane(mask, n - 1) == unseeded_lane(leaders, seeds, block, n - 1));
    }
}

/// Every leader is a seed or in question in exactly one block: the lanes of all blocks
/// are as many as the leaders that are no seeds.
pub proof fn law_every_leader_is_scanned(masks: Seq<u64>, leaders: int, seeds: int, n: int)
    requires
        0 <= seeds <= leaders,
        0 <= n <= masks.len(),
        forall|b: int, j: int|
            0 <= b < masks.len() && 0 <= j < 64 ==> #[trigger] lane(masks[b], j) == unseeded_lane(
                leaders,
                seeds,
                b,
                j,
            ),
    ensures
        lanes_in_blocks(masks, n) == floored(least(n * 64, leaders) - seeds),
        n * 64 >= leaders ==> lanes_in_blocks(masks, n) == leaders - seeds,
    decreases n,
{
    if n > 0 {
        law_every_leader_is_scanned(masks, leaders, seeds, n - 1);
        assert forall|j: int| 0 <= j < 64 implies #[trigger] lane(masks[n - 1], j)
            == unseeded_lane(leaders, seeds, n - 1, j) by {
            assert(lane(masks[n - 1], j) == unseeded_lane(leaders, seeds, n - 1, j));
        }
        lemma_unseeded_lanes(masks[n - 1], leaders, seeds, n - 1, 64);
    }
}

/// Rows of a leaf before `p` that are a row's seeds or the row itself.
pub open spec fn seeds_before(row: int, rows: int, seeds: int, p: int) -> int {
    least(p, floored(row + seeds - rows + 1)) + floored(
        least(p, least(row + seeds, rows - 1) + 1) - row,
    )
}

proof fn lemma_leaf_lanes(mask: u64, row: int, rows: int, seeds: int, block: int, len: int, n: int)
    requires
        0 <= n <= len <= 64,
        0 <= row < rows,
        0 <= seeds < rows,
        0 <= block,
        block * 64 + len <= rows,
        forall|j: int|
            0 <= j < 64 ==> #[trigger] lane(mask, j) == (j < len && !seeds_row(
                row,
                block * 64 + j,
                rows,
                seeds,
            )),
    ensures
        lanes_set(mask, n) == n - (seeds_before(row, rows, seeds, block * 64 + n) - seeds_before(
            row,
            rows,
            seeds,
            block * 64,
        )),
    decreases n,
{
    if n > 0 {
        lemma_leaf_lanes(mask, row, rows, seeds, block, len, n - 1);
        assert(lane(mask, n - 1) == !seeds_row(row, block * 64 + n - 1, rows, seeds));
    }
}

proof fn lemma_lanes_past(mask: u64, len: int, n: int)
    requires
        0 <= len <= n <= 64,
        forall|j: int| len <= j < 64 ==> !#[trigger] lane(mask, j),
    ensures
        lanes_set(mask, n) == lanes_set(mask, len),
    decreases n,
{
    if n > len {
        lemma_lanes_past(mask, len, n - 1);
        assert(!lane(mask, n - 1));
    }
}

/// A row of a leaf is measured against every other row once: as a seed or in exactly one
/// block.
pub proof fn law_every_row_is_scanned(masks: Seq<u64>, row: int, rows: int, seeds: int, n: int)
    requires
        0 <= row < rows,
        0 <= seeds < rows,
        0 <= n <= masks.len(),
        masks.len() == (rows + 63) / 64,
        forall|b: int, j: int|
            0 <= b < masks.len() && 0 <= j < 64 ==> #[trigger] lane(masks[b], j) == (j < least(
                64,
                rows - b * 64,
            ) && !seeds_row(row, b * 64 + j, rows, seeds)),
    ensures
        lanes_in_blocks(masks, n) == least(n * 64, rows) - seeds_before(
            row,
            rows,
            seeds,
            least(n * 64, rows),
        ),
        n == masks.len() ==> lanes_in_blocks(masks, n) == rows - 1 - seeds,
    decreases n,
{
    if n > 0 {
        law_every_row_is_scanned(masks, row, rows, seeds, n - 1);
        let len = least(64, rows - (n - 1) * 64);
        assert forall|j: int| 0 <= j < 64 implies #[trigger] lane(masks[n - 1], j) == (j < len
            && !seeds_row(row, (n - 1) * 64 + j, rows, seeds)) by {
            assert(lane(masks[n - 1], j) == (j < least(64, rows - (n - 1) * 64) && !seeds_row(
                row,
                (n - 1) * 64 + j,
                rows,
                seeds,
            )));
        }
        lemma_leaf_lanes(masks[n - 1], row, rows, seeds, n - 1, len, len);
        lemma_lanes_past(masks[n - 1], len, 64);
    }
}

/// A selection after the lanes that were left of the first `n` blocks were shown to it.
pub open spec fn blocks_pushed(
    entries: Seq<Neighbor>,
    k: int,
    masks: Seq<u64>,
    distances: Seq<Seq<F32>>,
    n: int,
) -> Seq<Neighbor>
    decreases n,
{
    if n <= 0 {
        entries
    } else {
        lanes_pushed(
            blocks_pushed(entries, k, masks, distances, n - 1),
            k,
            (n - 1) * 64,
            masks[n - 1],
            distances[n - 1],
            64,
        )
    }
}

proof fn lemma_lanes_stay_full(
    entries: Seq<Neighbor>,
    k: int,
    block_start: int,
    mask: u64,
    distances: Seq<F32>,
    n: int,
)
    requires
        k > 0,
        entries.len() <= k,
    ensures
        entries.len() <= lanes_pushed(entries, k, block_start, mask, distances, n).len() <= k,
    decreases n,
{
    if n > 0 {
        lemma_lanes_stay_full(entries, k, block_start, mask, distances, n - 1);
        let before = lanes_pushed(entries, k, block_start, mask, distances, n - 1);
        lemma_tiny_len(
            before,
            k,
            Neighbor { index: (block_start + n - 1) as usize, dist: distances[n - 1] },
        );
    }
}

/// A selection never holds fewer than its seeds have filled, nor more than it has room
/// for, whichever lanes were dropped.
pub proof fn law_scan_gives_no_place_up(
    entries: Seq<Neighbor>,
    k: int,
    masks: Seq<u64>,
    distances: Seq<Seq<F32>>,
    n: int,
)
    requires
        k > 0,
        entries.len() <= k,
    ensures
        entries.len() <= blocks_pushed(entries, k, masks, distances, n).len() <= k,
    decreases n,
{
    if n > 0 {
        law_scan_gives_no_place_up(entries, k, masks, distances, n - 1);
        lemma_lanes_stay_full(
            blocks_pushed(entries, k, masks, distances, n - 1),
            k,
            (n - 1) * 64,
            masks[n - 1],
            distances[n - 1],
            64,
        );
    }
}

/// A sampled row of a leaf ends with exactly `k` others, or with all others where there
/// are fewer, whatever was dropped: there are no fewer seeds than places.
pub proof fn law_sampled_row_is_full(
    seeds: Seq<Neighbor>,
    row: int,
    rows: int,
    k: int,
    seed_exact: int,
    masks: Seq<u64>,
    distances: Seq<Seq<F32>>,
    n: int,
)
    requires
        0 <= row < rows <= usize::MAX,
        1 <= k <= seed_exact,
        seeds.len() == least(seed_exact, rows - 1),
        forall|o: int|
            0 <= o < seeds.len() ==> (#[trigger] seeds[o]).index == (row + o + 1) % rows,
        0 <= n <= masks.len(),
        forall|b: int, j: int|
            0 <= b < masks.len() && 0 <= j < 64 && #[trigger] lane(masks[b], j) ==> b * 64 + j
                < rows && !seeds_row(row, b * 64 + j, rows, seeds.len() as int),
    ensures
        blocks_pushed(
            tiny_scanned(seeds, k, seeds.len() as int),
            k,
            masks,
            distances,
            n,
        ).len() == least(k, rows - 1),
{
    lemma_seed_rows(seeds, row, rows);
    let entries = tiny_scanned(seeds, k, seeds.len() as int);
    law_scan_fills_every_place(seeds, k, seeds.len() as int);
    law_scan_gives_no_place_up(entries, k, masks, distances, n);
    if seeds.len() == rows - 1 {
        assert forall|b: int, j: int| 0 <= b < masks.len() && 0 <= j < 64 implies !#[trigger] lane(
            masks[b],
            j,
        ) by {
            if lane(masks[b], j) {
                assert(seeds_row(row, b * 64 + j, rows, rows - 1));
            }
        }
        lemma_nothing_pushed(entries, k, masks, distances, n);
    }
}

proof fn lemma_nothing_pushed(
    entries: Seq<Neighbor>,
    k: int,
    masks: Seq<u64>,
    distances: Seq<Seq<F32>>,
    n: int,
)
    requires
        n <= masks.len(),
        forall|b: int, j: int|
            0 <= b < masks.len() && 0 <= j < 64 ==> !#[trigger] lane(masks[b], j),
    ensures
        blocks_pushed(entries, k, masks, distances, n) == entries,
    decreases n,
{
    if n > 0 {
        lemma_nothing_pushed(entries, k, masks, distances, n - 1);
        lemma_no_lanes_pushed(entries, k, (n - 1) * 64, masks[n - 1], distances[n - 1], 64);
    }
}

proof fn lemma_no_lanes_pushed(
    entries: Seq<Neighbor>,
    k: int,
    block_start: int,
    mask: u64,
    distances: Seq<F32>,
    n: int,
)
    requires
        n <= 64,
        forall|j: int| 0 <= j < 64 ==> !#[trigger] lane(mask, j),
    ensures
        lanes_pushed(entries, k, block_start, mask, distances, n) == entries,
    decreases n,
{
    if n > 0 {
        lemma_no_lanes_pushed(entries, k, block_start, mask, distances, n - 1);
        assert(!lane(mask, n - 1));
    }
}

/// The entry was a seed of the row, or a candidate in front of `end`.
pub open spec fn shown_before(entry: Neighbor, row: int, rows: int, seeds: int, end: int) -> bool {
    (entry.index < rows && seeds_row(row, entry.index as int, rows, seeds)) || entry.index < end
}

pub open spec fn all_shown_before(
    entries: Seq<Neighbor>,
    row: int,
    rows: int,
    seeds: int,
    end: int,
) -> bool {
    forall|i: int|
        0 <= i < entries.len() ==> shown_before(#[trigger] entries[i], row, rows, seeds, end)
}

/// Lanes of a block that were neither seeds nor in front of the block take one place each
/// while there are any.
proof fn lemma_lanes_fill(
    entries: Seq<Neighbor>,
    k: int,
    mask: u64,
    distances: Seq<F32>,
    row: int,
    rows: int,
    seeds: int,
    block: int,
    n: int,
)
    requires
        k > 0,
        entries.len() <= k,
        0 <= n <= 64,
        0 <= block,
        0 <= row < rows <= usize::MAX,
        all_shown_before(entries, row, rows, seeds, block * 64),
        forall|j: int|
            0 <= j < 64 && #[trigger] lane(mask, j) ==> block * 64 + j < rows && !seeds_row(
                row,
                block * 64 + j,
                rows,
                seeds,
            ),
    ensures
        lanes_pushed(entries, k, block * 64, mask, distances, n).len() == least(
            k,
            entries.len() + lanes_set(mask, n),
        ),
        all_shown_before(
            lanes_pushed(entries, k, block * 64, mask, distances, n),
            row,
            rows,
            seeds,
            block * 64 + n,
        ),
    decreases n,
{
    if n > 0 {
        lemma_lanes_fill(entries, k, mask, distances, row, rows, seeds, block, n - 1);
        let before = lanes_pushed(entries, k, block * 64, mask, distances, n - 1);
        let after = lanes_pushed(entries, k, block * 64, mask, distances, n);
        lemma_lanes_set(mask, n - 1);
        if lane(mask, n - 1) {
            let candidate = Neighbor {
                index: (block * 64 + n - 1) as usize,
                dist: distances[n - 1],
            };
            assert(!holds_index(before, candidate.index)) by {
                if holds_index(before, candidate.index) {
                    let i = choose|i: int|
                        0 <= i < before.len() && (#[trigger] before[i]).index == candidate.index;
                    assert(shown_before(before[i], row, rows, seeds, block * 64 + n - 1));
                }
            }
            lemma_tiny_len(before, k, candidate);
            assert forall|i: int| 0 <= i < after.len() implies shown_before(
                #[trigger] after[i],
                row,
                rows,
                seeds,
                block * 64 + n,
            ) by {
                lemma_tiny_members(before, k, candidate, i);
                if after[i] != candidate {
                    let p = choose|p: int| 0 <= p < before.len() && before[p] == after[i];
                    assert(shown_before(before[p], row, rows, seeds, block * 64 + n - 1));
                }
            }
        } else {
            assert forall|i: int| 0 <= i < after.len() implies shown_before(
                #[trigger] after[i],
                row,
                rows,
                seeds,
                block * 64 + n,
            ) by {
                assert(shown_before(before[i], row, rows, seeds, block * 64 + n - 1));
            }
        }
    } else {
        assert forall|i: int| 0 <= i < entries.len() implies shown_before(
            #[trigger] entries[i],
            row,
            rows,
            seeds,
            block * 64 + n,
        ) by {}
    }
}

/// The masks of a row's blocks before anything was dropped: all rows of the leaf but the
/// row itself and its seeds.
pub open spec fn masks_unseeded(masks: Seq<u64>, row: int, rows: int, seeds: int) -> bool {
    &&& masks.len() == (rows + 63) / 64
    &&& forall|b: int, j: int|
        0 <= b < masks.len() && 0 <= j < 64 ==> #[trigger] lane(masks[b], j) == (j < least(
            64,
            rows - b * 64,
        ) && !seeds_row(row, b * 64 + j, rows, seeds))
}

/// After `n` blocks every place is taken that there were candidates for.
proof fn lemma_blocks_fill(
    entries: Seq<Neighbor>,
    k: int,
    all: Seq<u64>,
    left: Seq<u64>,
    distances: Seq<Seq<F32>>,
    row: int,
    rows: int,
    seeds: int,
    n: int,
)
    requires
        k > 0,
        0 <= row < rows <= usize::MAX,
        0 <= seeds < rows,
        entries.len() == least(k, seeds),
        all_shown_before(entries, row, rows, seeds, 0),
        masks_unseeded(all, row, rows, seeds),
        left.len() == all.len(),
        0 <= n <= all.len(),
        forall|b: int|
            0 <= b < left.len() && blocks_pushed(entries, k, left, distances, b).len() < k
                ==> #[trigger] left[b] == all[b],
    ensures
        blocks_pushed(entries, k, left, distances, n).len() == least(
            k,
            seeds + lanes_in_blocks(all, n),
        ),
        lanes_in_blocks(all, n) >= 0,
        blocks_pushed(entries, k, left, distances, n).len() < k ==> all_shown_before(
            blocks_pushed(entries, k, left, distances, n),
            row,
            rows,
            seeds,
            n * 64,
        ),
    decreases n,
{
    if n > 0 {
        lemma_blocks_fill(entries, k, all, left, distances, row, rows, seeds, n - 1);
        let before = blocks_pushed(entries, k, left, distances, n - 1);
        lemma_lanes_set(all[n - 1], 64);
        lemma_lanes_stay_full(
            before,
            k,
            (n - 1) * 64,
            left[n - 1],
            distances[n - 1],
            64,
        );
        if before.len() < k {
            assert(left[n - 1] == all[n - 1]);
            assert forall|j: int| 0 <= j < 64 && #[trigger] lane(left[n - 1], j) implies (n - 1)
                * 64 + j < rows && !seeds_row(row, (n - 1) * 64 + j, rows, seeds) by {
                assert(lane(all[n - 1], j));
            }
            lemma_lanes_fill(
                before,
                k,
                left[n - 1],
                distances[n - 1],
                row,
                rows,
                seeds,
                n - 1,
                64,
            );
        }
    }
}

/// Where lanes are dropped only against a full selection, a sampled row of a leaf ends
/// with exactly `k` others, or with all others where there are fewer, however few seeds it
/// was measured against first.
pub proof fn law_row_is_full_for_any_seeds(
    seeds: Seq<Neighbor>,
    row: int,
    rows: int,
    k: int,
    all: Seq<u64>,
    left: Seq<u64>,
    distances: Seq<Seq<F32>>,
)
    requires
        0 <= row < rows <= usize::MAX,
        1 <= k,
        seeds.len() < rows,
        forall|o: int|
            0 <= o < seeds.len() ==> (#[trigger] seeds[o]).index == (row + o + 1) % rows,
        masks_unseeded(all, row, rows, seeds.len() as int),
        left.len() == all.len(),
        forall|b: int|
            0 <= b < left.len() && blocks_pushed(
                tiny_scanned(seeds, k, seeds.len() as int),
                k,
                left,
                distances,
                b,
            ).len() < k ==> #[trigger] left[b] == all[b],
    ensures
        blocks_pushed(
            tiny_scanned(seeds, k, seeds.len() as int),
            k,
            left,
            distances,
            left.len() as int,
        ).len() == least(k, rows - 1),
{
    let count = seeds.len() as int;
    let entries = tiny_scanned(seeds, k, count);
    lemma_seed_rows(seeds, row, rows);
    law_scan_fills_every_place(seeds, k, count);
    assert(all_shown_before(entries, row, rows, count, 0)) by {
        assert forall|i: int| 0 <= i < entries.len() implies shown_before(
            #[trigger] entries[i],
            row,
            rows,
            count,
            0,
        ) by {
            assert(seeds.take(count).contains(entries[i]));
            assert(seeds.take(count) =~= seeds);
            let o = choose|o: int| 0 <= o < seeds.len() && seeds[o] == entries[i];
            assert(seeds_row(row, seeds[o].index as int, rows, count));
        }
    }
    lemma_blocks_fill(entries, k, all, left, distances, row, rows, count, all.len() as int);
    law_every_row_is_scanned(all, row, rows, count, all.len() as int);
}

/// The seeds of a row are different rows, and lie behind it round the leaf.
proof fn lemma_seed_rows(seeds: Seq<Neighbor>, row: int, rows: int)
    requires
        0 <= row < rows <= usize::MAX,
        seeds.len() < rows,
        forall|o: int|
            0 <= o < seeds.len() ==> (#[trigger] seeds[o]).index == (row + o + 1) % rows,
    ensures
        distinct_indices(seeds),
        forall|o: int|
            0 <= o < seeds.len() ==> (#[trigger] seeds[o]).index < rows && seeds_row(
                row,
                seeds[o].index as int,
                rows,
                seeds.len() as int,
            ),
{
    assert forall|o: int| 0 <= o < seeds.len() implies (#[trigger] seeds[o]).index == if row + o + 1
        < rows {
        row + o + 1
    } else {
        row + o + 1 - rows
    } by {
        let a = row + o + 1;
        if a < rows {
            vstd::arithmetic::div_mod::lemma_small_mod(a as nat, rows as nat);
        } else {
            assert(a % rows == a - rows) by (nonlinear_arith)
                requires
                    rows <= a < 2 * rows,
            ;
        }
    }
}

} // verus!
