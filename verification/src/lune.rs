//! Witnesses that a neighbour lies behind a nearer one.

use vstd::prelude::*;

use crate::float_bits::F32;
use crate::leaf_build::{rank_byte, rank_mark, row_views, PendingEdge};
use crate::leaf_laws::{law_witnesses_name_all_shadows, names_all_shadows};
use crate::leaf_profile::LeafProfile;
use crate::leaf_route::{rows_within, ParallelBlockResult};
use crate::order::{sorts, stable_order};
use crate::rows::lemma_row_bounds;
use crate::topk::Neighbor;

verus! {

/// `pivot` is nearer to `victim` than a share of the distance from `src`.
#[derive(Clone, Copy, Debug, PartialEq, Eq, Structural)]
pub struct PendingLuneWitness {
    pub src: u32,
    pub pivot: u32,
    pub victim: u32,
    pub margin_q16: u16,
    pub pivot_rank: u8,
    pub victim_rank: u8,
}

/// The neighbours of one point with what has been measured between them. The entry of
/// a pivot and a victim stands at `pivot * row.len() + victim`.
pub struct LuneRow {
    pub src: u32,
    pub ids: Seq<u32>,
    pub row: Seq<Neighbor>,
    /// For each neighbour as victim: how near a pivot has to be.
    pub thresholds: Seq<F32>,
    /// Distances between neighbours.
    pub between: Seq<F32>,
    /// How far below its threshold each distance is.
    pub margins: Seq<u16>,
}

impl LuneRow {
    pub open spec fn entry(self, pivot: int, victim: int) -> int {
        pivot * self.row.len() + victim
    }

    pub open spec fn witness(self, pivot: int, victim: int) -> PendingLuneWitness {
        PendingLuneWitness {
            src: self.src,
            pivot: self.ids[self.row[pivot].index as int],
            victim: self.ids[self.row[victim].index as int],
            margin_q16: self.margins[self.entry(pivot, victim)],
            pivot_rank: rank_mark(pivot),
            victim_rank: rank_mark(victim),
        }
    }

    /// The witnesses against one victim among the first `n` pivots.
    pub open spec fn against(self, victim: int, n: int) -> Seq<PendingLuneWitness>
        decreases n,
    {
        if n <= 0 {
            Seq::<PendingLuneWitness>::empty()
        } else if self.between[self.entry(n - 1, victim)].below(self.thresholds[victim]) {
            self.against(victim, n - 1).push(self.witness(n - 1, victim))
        } else {
            self.against(victim, n - 1)
        }
    }

    /// The witnesses against the first `n` neighbours, each by those nearer to the
    /// point than itself.
    pub open spec fn witnesses(self, n: int) -> Seq<PendingLuneWitness>
        decreases n,
    {
        if n <= 0 {
            Seq::<PendingLuneWitness>::empty()
        } else {
            self.witnesses(n - 1) + self.against(n - 1, n - 1)
        }
    }
}

/// From so many witnesses on they are handed on before the next point.
pub const LUNE_WITNESS_BATCH: usize = 16384;

/// Whether witnesses that have been collected are handed on.
pub fn witnesses_due(pending: usize) -> (due: bool)
    ensures
        due == (pending >= LUNE_WITNESS_BATCH),
{
    pending >= LUNE_WITNESS_BATCH
}

/// The witnesses among the neighbours of one point.
pub fn lune_witnesses(
    src: u32,
    leaf: &[u32],
    row: &[Neighbor],
    thresholds: &[F32],
    between: &[F32],
    margins: &[u16],
) -> (witnesses: Vec<PendingLuneWitness>)
    requires
        thresholds@.len() == row@.len(),
        between@.len() == row@.len() * row@.len(),
        margins@.len() == row@.len() * row@.len(),
        forall|i: int| 0 <= i < row@.len() ==> (#[trigger] row@[i]).index < leaf@.len(),
    ensures
        witnesses@ == (LuneRow {
            src,
            ids: leaf@,
            row: row@,
            thresholds: thresholds@,
            between: between@,
            margins: margins@,
        }).witnesses(row@.len() as int),
        names_all_shadows(
            (LuneRow {
                src,
                ids: leaf@,
                row: row@,
                thresholds: thresholds@,
                between: between@,
                margins: margins@,
            }),
            row@.len() as int,
            witnesses@,
        ),
{
    let ghost lune = LuneRow {
        src,
        ids: leaf@,
        row: row@,
        thresholds: thresholds@,
        between: between@,
        margins: margins@,
    };
    proof {
        law_witnesses_name_all_shadows(lune, row@.len() as int);
    }
    let count: usize = row.len();
    let total: usize = between.len();
    let mut witnesses: Vec<PendingLuneWitness> = Vec::new();
    for victim in 0..count
        invariant
            count == row@.len(),
            total == between@.len(),
            thresholds@.len() == row@.len(),
            between@.len() == row@.len() * row@.len(),
            margins@.len() == row@.len() * row@.len(),
            forall|i: int| 0 <= i < row@.len() ==> (#[trigger] row@[i]).index < leaf@.len(),
            lune == (LuneRow {
                src,
                ids: leaf@,
                row: row@,
                thresholds: thresholds@,
                between: between@,
                margins: margins@,
            }),
            witnesses@ == lune.witnesses(victim as int),
    {
        let ghost before = witnesses@;
        for pivot in 0..victim
            invariant
                victim < count,
                count == row@.len(),
                total == between@.len(),
                thresholds@.len() == row@.len(),
                between@.len() == row@.len() * row@.len(),
                margins@.len() == row@.len() * row@.len(),
                forall|i: int| 0 <= i < row@.len() ==> (#[trigger] row@[i]).index < leaf@.len(),
                lune == (LuneRow {
                    src,
                    ids: leaf@,
                    row: row@,
                    thresholds: thresholds@,
                    between: between@,
                    margins: margins@,
                }),
                witnesses@ == before + lune.against(victim as int, pivot as int),
        {
            proof {
                lemma_row_bounds(pivot as int, count as int, count as int);
            }
            let entry: usize = pivot * count + victim;
            if between[entry].lt(thresholds[victim]) {
                witnesses.push(
                    PendingLuneWitness {
                        src,
                        pivot: leaf[row[pivot].index],
                        victim: leaf[row[victim].index],
                        margin_q16: margins[entry],
                        pivot_rank: rank_byte(pivot),
                        victim_rank: rank_byte(victim),
                    },
                );
            }
            proof {
                assert(witnesses@ =~= before + lune.against(victim as int, pivot as int + 1));
            }
        }
    }
    witnesses
}

/// What has been measured between the neighbours of one point.
#[derive(Debug)]
pub struct LuneMeasures {
    pub thresholds: Vec<F32>,
    pub between: Vec<F32>,
    pub margins: Vec<u16>,
}

impl LuneMeasures {
    /// Measured between `n` neighbours.
    pub open spec fn covers(self, n: int) -> bool {
        &&& self.thresholds@.len() == n
        &&& self.between@.len() == n * n
        &&& self.margins@.len() == n * n
    }

    /// The neighbours of `src` with what has been measured.
    pub open spec fn row(self, src: u32, ids: Seq<u32>, row: Seq<Neighbor>) -> LuneRow {
        LuneRow {
            src,
            ids,
            row,
            thresholds: self.thresholds@,
            between: self.between@,
            margins: self.margins@,
        }
    }
}

/// The witnesses among the neighbours of the first `n` points of a block.
pub open spec fn block_witnesses(
    leaf: Seq<u32>,
    rows: Seq<Seq<Neighbor>>,
    block_start: int,
    measures: Seq<LuneMeasures>,
    n: int,
) -> Seq<PendingLuneWitness>
    decreases n,
{
    if n <= 0 {
        Seq::<PendingLuneWitness>::empty()
    } else {
        block_witnesses(leaf, rows, block_start, measures, n - 1) + measures[n - 1].row(
            leaf[block_start + n - 1],
            leaf,
            rows[n - 1],
        ).witnesses(rows[n - 1].len() as int)
    }
}

impl ParallelBlockResult {
    /// Adds the witnesses among the neighbours of the block's points, from what has been
    /// measured for each point.
    pub fn add_witnesses(&mut self, leaf: &[u32], measures: &Vec<LuneMeasures>)
        requires
            old(self).lune_witnesses@.len() == 0,
            old(self).block_start + old(self).rows@.len() <= leaf@.len(),
            rows_within(row_views(old(self).rows@), leaf@.len() as int),
            measures@.len() == old(self).rows@.len(),
            forall|i: int|
                0 <= i < measures@.len() ==> (#[trigger] measures@[i]).covers(
                    old(self).rows@[i]@.len() as int,
                ),
        ensures
            final(self).lune_witnesses@ == block_witnesses(
                leaf@,
                row_views(old(self).rows@),
                old(self).block_start as int,
                measures@,
                measures@.len() as int,
            ),
            final(self).profile == (LeafProfile {
                lune_witness_records: final(self).lune_witnesses@.len() as usize,
                ..old(self).profile
            }),
            final(self).block_start == old(self).block_start,
            final(self).rows@ == old(self).rows@,
            final(self).edges@ == old(self).edges@,
    {
        let ghost views = row_views(self.rows@);
        let start: usize = self.block_start;
        let mut witnesses: Vec<PendingLuneWitness> = Vec::new();
        for i in 0..measures.len()
            invariant
                start == self.block_start,
                self.rows@ == old(self).rows@,
                start + self.rows@.len() <= leaf@.len(),
                views == row_views(self.rows@),
                rows_within(views, leaf@.len() as int),
                measures@.len() == self.rows@.len(),
                forall|m: int|
                    0 <= m < measures@.len() ==> (#[trigger] measures@[m]).covers(
                        self.rows@[m]@.len() as int,
                    ),
                witnesses@ == block_witnesses(leaf@, views, start as int, measures@, i as int),
        {
            let row: &[Neighbor] = self.rows[i].as_slice();
            assert(leaf.len() == leaf@.len());
            proof {
                assert(measures@[i as int].covers(self.rows@[i as int]@.len() as int));
                assert(views[i as int] == row@);
                assert forall|r: int| 0 <= r < row@.len() implies (#[trigger] row@[r]).index
                    < leaf@.len() by {
                    assert(views[i as int][r].index < leaf@.len());
                }
            }
            let mut found: Vec<PendingLuneWitness> = lune_witnesses(
                leaf[start + i],
                leaf,
                row,
                measures[i].thresholds.as_slice(),
                measures[i].between.as_slice(),
                measures[i].margins.as_slice(),
            );
            witnesses.append(&mut found);
        }
        self.profile.lune_witness_records = witnesses.len();
        self.lune_witnesses = witnesses;
    }
}

/// The witnesses of the first `n` blocks in the given order.
pub open spec fn witnesses_in_order(
    blocks: Seq<ParallelBlockResult>,
    order: Seq<usize>,
    n: int,
) -> Seq<PendingLuneWitness>
    decreases n,
{
    if n <= 0 {
        Seq::<PendingLuneWitness>::empty()
    } else {
        witnesses_in_order(blocks, order, n - 1) + blocks[order[n - 1] as int].lune_witnesses@
    }
}

/// The witnesses of all blocks of a wave, whichever was done first, in the order of the
/// blocks.
pub fn merge_block_witnesses(
    blocks: &Vec<ParallelBlockResult>,
) -> (witnesses: Vec<PendingLuneWitness>)
    ensures
        exists|order: Seq<usize>| #[trigger]
            sorts(block_keys(blocks@), order) && witnesses@ == witnesses_in_order(
                blocks@,
                order,
                blocks@.len() as int,
            ),
{
    let order: Vec<usize> = block_order(blocks);
    let mut witnesses: Vec<PendingLuneWitness> = Vec::new();
    for i in 0..blocks.len()
        invariant
            sorts(block_keys(blocks@), order@),
            order@.len() == blocks@.len(),
            witnesses@ == witnesses_in_order(blocks@, order@, i as int),
    {
        let block: &ParallelBlockResult = &blocks[order[i]];
        let ghost before = witnesses@;
        for j in 0..block.lune_witnesses.len()
            invariant
                witnesses@ == before + block.lune_witnesses@.take(j as int),
        {
            witnesses.push(block.lune_witnesses[j]);
            proof {
                assert(witnesses@ =~= before + block.lune_witnesses@.take(j as int + 1));
            }
        }
        proof {
            assert(block.lune_witnesses@.take(block.lune_witnesses@.len() as int)
                =~= block.lune_witnesses@);
        }
    }
    witnesses
}

/// The edges of the first `n` blocks in the given order.
pub open spec fn edges_in_order(blocks: Seq<ParallelBlockResult>, order: Seq<usize>, n: int) -> Seq<
    PendingEdge,
>
    decreases n,
{
    if n <= 0 {
        Seq::<PendingEdge>::empty()
    } else {
        edges_in_order(blocks, order, n - 1) + blocks[order[n - 1] as int].edges@
    }
}

pub open spec fn block_keys(blocks: Seq<ParallelBlockResult>) -> Seq<u64> {
    Seq::new(blocks.len(), |i: int| blocks[i].block_start as u64)
}

/// The blocks in the order of their starts.
fn block_order(blocks: &Vec<ParallelBlockResult>) -> (order: Vec<usize>)
    ensures
        sorts(block_keys(blocks@), order@),
        order@.len() == blocks@.len(),
{
    let mut keys: Vec<u64> = Vec::new();
    for i in 0..blocks.len()
        invariant
            keys@.len() == i,
            forall|k: int| 0 <= k < i ==> #[trigger] keys@[k] == block_keys(blocks@)[k],
    {
        keys.push(blocks[i].block_start as u64);
    }
    proof {
        assert(keys@ =~= block_keys(blocks@));
    }
    stable_order(&keys)
}

/// The edges of all blocks of a wave, whichever was done first, in the order of the
/// blocks.
pub fn merge_block_edges(blocks: &Vec<ParallelBlockResult>) -> (edges: Vec<PendingEdge>)
    ensures
        exists|order: Seq<usize>| #[trigger]
            sorts(block_keys(blocks@), order) && edges@ == edges_in_order(
                blocks@,
                order,
                blocks@.len() as int,
            ),
{
    let order: Vec<usize> = block_order(blocks);
    let mut edges: Vec<PendingEdge> = Vec::new();
    for i in 0..blocks.len()
        invariant
            sorts(block_keys(blocks@), order@),
            order@.len() == blocks@.len(),
            edges@ == edges_in_order(blocks@, order@, i as int),
    {
        let block: &ParallelBlockResult = &blocks[order[i]];
        let ghost before = edges@;
        for j in 0..block.edges.len()
            invariant
                edges@ == before + block.edges@.take(j as int),
        {
            edges.push(block.edges[j]);
            proof {
                assert(edges@ =~= before + block.edges@.take(j as int + 1));
            }
        }
        proof {
            assert(block.edges@.take(block.edges@.len() as int) =~= block.edges@);
        }
    }
    edges
}

} // verus!
