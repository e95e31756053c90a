//! Building a graph from the leaves of a partition.

use vstd::prelude::*;

use crate::ann_result::{AnnError, AnnResult};
use crate::arith::{greatest, least, max_usize, min_usize};
use crate::direct_io::{doubled_to, DirectIoConfig};
use crate::float_bits::F32;
use crate::graph_laws::{
    lemma_rows_hold_candidates, lemma_rows_hold_links, rows_hold_candidates, rows_hold_links,
};
use crate::graph_stream::GraphStream;
use crate::hash_prune::{HashPruneReservoir, ReservoirState, Slot};
use crate::leaf_build::{
    all_wf, block_topk, emit_row_topk_edges, fed, flush_pending_edges_to_reservoirs,
    law_batches_do_not_matter, leaf_rows, row_views, LeafPoints, LeafSketchCache, PendingEdge,
};
use crate::leaf_route::{
    law_split_feeds_every_point, leaf_connected, leaf_neighbors, leaf_within, lemma_edges_within,
    lemma_nearest_rows_known, resident_part, spilled_part,
};
use crate::memory_plan::{
    budgeted_workers, derive_oom_execution_threads, derive_spill_shard_points, leaf_scratch_bytes,
    locked_reservoir_bytes, plan_resident_reservoir_prefix, plan_resident_reservoir_prefix_from_cap,
    resident_prefix, should_use_full_resident_sketch_cache, spill_shard_points, OomExecutionThreads,
    OomMemoryPlan,
};
use crate::params::{ForgeANNParams, OOM_POINT_PIPELINE_IO_THREADS};
use crate::pool::current_num_threads;
use crate::sketch_build::{is_medoid_start, sampled_medoid_start, SketchStartSample};
use crate::text::{decimal, with_numbers};
use crate::topk::{Neighbor, RowTopK, MAX_ROW_TOPK};

verus! {

/// What is known of a graph that was built.
#[derive(Clone, Copy, Debug, PartialEq, Eq, Structural)]
pub struct ForgeANNBuildSummary {
    /// A point that a search may start from.
    pub graph_start_hint: Option<u32>,
}

impl Default for ForgeANNBuildSummary {
    fn default() -> (summary: Self)
        ensures
            summary == (ForgeANNBuildSummary { graph_start_hint: None }),
    {
        ForgeANNBuildSummary { graph_start_hint: None }
    }
}

/// What is known of the distances in a leaf.
#[derive(Debug)]
pub enum LeafNeighbors {
    /// The matrix of all distances.
    Matrix(Vec<F32>),
    /// The nearest points of each point, as adaptive sampling has found them.
    Rows(Vec<RowTopK>),
}

/// A leaf of the partition: its points, their sketches, and what is known of their
/// distances.
#[derive(Debug)]
pub struct LeafInput {
    pub ids: Vec<u32>,
    pub sketches: LeafSketchCache,
    pub found: LeafNeighbors,
}

impl LeafInput {
    pub open spec fn points(&self, params: ForgeANNParams) -> LeafPoints {
        self.sketches.points(self.ids@, params.m_hash_bits as int)
    }

    /// The leaf fits a build over `points` points.
    pub open spec fn fits(&self, params: ForgeANNParams, points: int) -> bool {
        &&& self.sketches.fits(self.ids@.len() as int, params.m_hash_bits as int)
        &&& leaf_within(self.ids@, points)
        &&& match self.found {
            LeafNeighbors::Matrix(dists) => dists@.len() == self.ids@.len() * self.ids@.len()
                && leaf_neighbors(params.leaf_knn as int, self.ids@.len() as int) <= MAX_ROW_TOPK,
            LeafNeighbors::Rows(rows) => rows@.len() == self.ids@.len() && self.points(
                params,
            ).knows(row_views(rows@)),
        }
    }

    /// The neighbours of each point of the leaf.
    pub open spec fn neighbor_rows(&self, params: ForgeANNParams) -> Seq<Seq<Neighbor>> {
        match self.found {
            LeafNeighbors::Matrix(dists) => leaf_rows(
                dists@,
                self.ids@.len() as int,
                leaf_neighbors(params.leaf_knn as int, self.ids@.len() as int),
            ),
            LeafNeighbors::Rows(rows) => row_views(rows@),
        }
    }

    /// The edges between each point of the leaf and its neighbours.
    pub open spec fn edges(&self, params: ForgeANNParams) -> Seq<PendingEdge> {
        self.points(params).edges(self.neighbor_rows(params), 0, self.ids@.len() as int)
    }
}

pub open spec fn all_fit(leaves: Seq<LeafInput>, params: ForgeANNParams, points: int) -> bool {
    forall|i: int| 0 <= i < leaves.len() ==> (#[trigger] leaves[i]).fits(params, points)
}

/// The edges of the first `n` leaves, one leaf after the other.
pub open spec fn edges_of(leaves: Seq<LeafInput>, params: ForgeANNParams, n: int) -> Seq<
    PendingEdge,
>
    decreases n,
{
    if n <= 0 {
        Seq::<PendingEdge>::empty()
    } else {
        edges_of(leaves, params, n - 1) + leaves[n - 1].edges(params)
    }
}

/// An empty reservoir of `l_max` slots.
pub open spec fn empty_reservoir(l_max: int) -> ReservoirState {
    ReservoirState { limit: l_max as nat, slots: Seq::<Slot>::empty(), far: 0 }
}

/// The neighbours of point `p`: what its reservoir keeps of all edges.
pub open spec fn neighbors_of(edges: Seq<PendingEdge>, l_max: int, p: int) -> Seq<u32> {
    fed(empty_reservoir(l_max), edges, p).slots.map_values(|slot: Slot| slot.target)
}

/// Row `i` of `graph` holds the neighbours of point `first + i`.
pub open spec fn graph_rows(
    graph: Seq<Vec<u32>>,
    edges: Seq<PendingEdge>,
    l_max: int,
    first: int,
) -> bool {
    forall|i: int|
        0 <= i < graph.len() ==> (#[trigger] graph[i])@ == neighbors_of(edges, l_max, first + i)
}

/// The threads of a build in a pool of `pool_threads`: as many as asked for, or those of
/// the pool where none are.
pub fn build_threads_from(num_threads: u32, pool_threads: usize) -> (threads: usize)
    ensures
        threads == if num_threads == 0 {
            pool_threads
        } else {
            num_threads as usize
        },
{
    if num_threads == 0 {
        pool_threads
    } else {
        num_threads as usize
    }
}

/// The threads of a build: as many as asked for, or those of the current pool where none
/// are. There is always one: which number the pool has is the machine's.
pub fn effective_build_threads(num_threads: u32) -> (threads: usize)
    ensures
        num_threads > 0 ==> threads == num_threads,
        threads >= 1,
{
    if num_threads == 0 {
        build_threads_from(num_threads, current_num_threads())
    } else {
        num_threads as usize
    }
}

/// An empty reservoir for each of `count` points.
pub fn new_reservoirs(count: usize, l_max: usize) -> (reservoirs: Vec<HashPruneReservoir>)
    requires
        l_max > 0,
    ensures
        reservoirs@.len() == count,
        all_wf(reservoirs@),
        forall|p: int|
            0 <= p < count ==> (#[trigger] reservoirs@[p])@ == empty_reservoir(l_max as int),
{
    let mut reservoirs: Vec<HashPruneReservoir> = Vec::with_capacity(count);
    for i in 0..count
        invariant
            l_max > 0,
            reservoirs@.len() == i,
            all_wf(reservoirs@),
            forall|p: int|
                0 <= p < i ==> (#[trigger] reservoirs@[p])@ == empty_reservoir(l_max as int),
    {
        reservoirs.push(HashPruneReservoir::new(l_max));
    }
    reservoirs
}

/// The neighbours that the reservoirs keep, in the order of the points.
pub fn drain_reservoirs(reservoirs: &mut Vec<HashPruneReservoir>) -> (graph: Vec<Vec<u32>>)
    requires
        all_wf(old(reservoirs)@),
    ensures
        graph@.len() == old(reservoirs)@.len(),
        final(reservoirs)@.len() == old(reservoirs)@.len(),
        forall|p: int|
            0 <= p < graph@.len() ==> (#[trigger] graph@[p])@ == old(
                reservoirs,
            )@[p]@.slots.map_values(|slot: Slot| slot.target),
{
    let ghost start = reservoirs@;
    let total: usize = reservoirs.len();
    let mut graph: Vec<Vec<u32>> = Vec::with_capacity(total);
    for i in 0..total
        invariant
            total == start.len(),
            reservoirs@.len() == total,
            graph@.len() == i,
            all_wf(reservoirs@),
            forall|p: int| i <= p < total ==> #[trigger] reservoirs@[p] == start[p],
            forall|p: int|
                0 <= p < i ==> (#[trigger] graph@[p])@ == start[p]@.slots.map_values(
                    |slot: Slot| slot.target,
                ),
    {
        let ghost before = reservoirs@;
        proof {
            assert(reservoirs@[i as int].wf());
        }
        let neighbors: Vec<u32> = reservoirs[i].drain_neighbors();
        graph.push(neighbors);
        proof {
            assert forall|p: int| 0 <= p < total implies (#[trigger] reservoirs@[p]).wf() by {
                if p != i {
                    assert(reservoirs@[p] == before[p]);
                }
            }
        }
    }
    graph
}

/// Builds the graph in memory: every leaf offers its edges to the reservoirs of its
/// points, and each point keeps what its reservoir does.
fn build_in_memory(
    leaves: &Vec<LeafInput>,
    num_points: usize,
    params: &ForgeANNParams,
) -> (graph: Vec<Vec<u32>>)
    requires
        params.l_max > 0,
        all_fit(leaves@, *params, num_points as int),
    ensures
        graph@.len() == num_points,
        graph_rows(
            graph@,
            edges_of(leaves@, *params, leaves@.len() as int),
            params.l_max as int,
            0,
        ),
        rows_hold_links(graph@, leaves@, *params),
{
    let mut reservoirs: Vec<HashPruneReservoir> = new_reservoirs(num_points, params.l_max);
    feed_leaves(leaves, num_points, params, &mut reservoirs);
    let graph: Vec<Vec<u32>> = drain_reservoirs(&mut reservoirs);
    proof {
        lemma_rows_hold_links(graph@, leaves@, *params);
    }
    graph
}

/// Offers the edges of all leaves to the reservoirs of their points.
fn feed_leaves(
    leaves: &Vec<LeafInput>,
    num_points: usize,
    params: &ForgeANNParams,
    reservoirs: &mut Vec<HashPruneReservoir>,
)
    requires
        all_fit(leaves@, *params, num_points as int),
        old(reservoirs)@.len() == num_points,
        all_wf(old(reservoirs)@),
        forall|p: int|
            0 <= p < num_points ==> (#[trigger] old(reservoirs)@[p])@ == empty_reservoir(
                params.l_max as int,
            ),
    ensures
        leaf_connected(
            old(reservoirs)@,
            final(reservoirs)@,
            edges_of(leaves@, *params, leaves@.len() as int),
        ),
{
    let ghost start = reservoirs@;
    for i in 0..leaves.len()
        invariant
            all_fit(leaves@, *params, num_points as int),
            start.len() == num_points,
            leaf_connected(start, reservoirs@, edges_of(leaves@, *params, i as int)),
    {
        let leaf: &LeafInput = &leaves[i];
        let ghost before = reservoirs@;
        proof {
            assert(leaves@[i as int].fits(*params, num_points as int));
        }
        let mut edges: Vec<PendingEdge> = leaf_pending_edges(leaf, num_points, params);
        flush_pending_edges_to_reservoirs(&mut edges, reservoirs);
        proof {
            let earlier = edges_of(leaves@, *params, i as int);
            let added = leaf.edges(*params);
            assert forall|p: int| 0 <= p < start.len() implies (#[trigger] reservoirs@[p])@ == fed(
                start[p]@,
                edges_of(leaves@, *params, i + 1),
                p,
            ) by {
                assert(before[p]@ == fed(start[p]@, earlier, p));
                law_batches_do_not_matter(start[p]@, earlier, added, p);
            }
        }
    }
}

/// The edges between each point of a leaf and its nearest ones.
pub fn leaf_pending_edges(
    leaf: &LeafInput,
    num_points: usize,
    params: &ForgeANNParams,
) -> (edges: Vec<PendingEdge>)
    requires
        leaf.fits(*params, num_points as int),
    ensures
        edges@ == leaf.edges(*params),
        forall|e: int| 0 <= e < edges@.len() ==> (#[trigger] edges@[e]).p < num_points,
{
    match &leaf.found {
        LeafNeighbors::Matrix(dists) => {
            let leaf_size: usize = leaf.ids.len();
            let k: usize = if leaf_size <= 1 {
                0
            } else {
                min_usize(params.leaf_knn, leaf_size - 1)
            };
            let rows: Vec<RowTopK> = block_topk(dists.as_slice(), 0, leaf_size, leaf_size, k);
            proof {
                lemma_nearest_rows_known(dists@, leaf_size as int, 0, leaf_size as int, k as int);
                assert(leaf.points(*params).knows(row_views(rows@)));
            }
            row_edges(&rows, leaf, num_points, params)
        },
        LeafNeighbors::Rows(rows) => row_edges(rows, leaf, num_points, params),
    }
}

/// The edges between each point of a leaf and its neighbours in `rows`.
fn row_edges(
    rows: &Vec<RowTopK>,
    leaf: &LeafInput,
    num_points: usize,
    params: &ForgeANNParams,
) -> (edges: Vec<PendingEdge>)
    requires
        leaf.fits(*params, num_points as int),
        rows@.len() == leaf.ids@.len(),
        leaf.points(*params).knows(row_views(rows@)),
    ensures
        edges@ == leaf.points(*params).edges(row_views(rows@), 0, leaf.ids@.len() as int),
        forall|e: int| 0 <= e < edges@.len() ==> (#[trigger] edges@[e]).p < num_points,
{
    proof {
        lemma_edges_within(
            leaf.points(*params),
            row_views(rows@),
            0,
            rows@.len() as int,
            num_points as int,
        );
    }
    emit_row_topk_edges(rows, 0, &leaf.sketches, leaf.ids.as_slice(), params.m_hash_bits)
}

/// Where candidates are kept until the graph is written.
#[derive(Clone, Copy, Debug, PartialEq, Eq, Structural)]
pub enum OomBuildMode {
    /// Edges go to a recorder alone: no graph comes out.
    MetadataOnly,
    /// Every point has its reservoir in memory.
    Resident,
    /// A prefix of the points has; the candidates of the others are spilled.
    Hybrid,
    /// All candidates are spilled.
    External,
}

/// How an out-of-core build goes about.
#[derive(Clone, Copy, Debug, PartialEq, Eq, Structural)]
pub struct OomBuildPlan {
    pub threads: OomExecutionThreads,
    /// Points of a shard of spilled candidates.
    pub shard_points: usize,
    pub reservoir_budget_bytes: usize,
    pub resident_points: usize,
    pub mode: OomBuildMode,
    /// Sketch rows, from the first point on, that are held in memory.
    pub resident_sketch_rows: usize,
    /// Shards that are reduced at a time.
    pub reduce_groups: usize,
    pub io: DirectIoConfig,
}

/// The mode of a build with so many resident points.
pub open spec fn build_mode(
    metadata_only: bool,
    resident_points: int,
    points: int,
) -> OomBuildMode {
    if metadata_only {
        OomBuildMode::MetadataOnly
    } else if resident_points == points {
        OomBuildMode::Resident
    } else if resident_points > 0 {
        OomBuildMode::Hybrid
    } else {
        OomBuildMode::External
    }
}

/// The access to the files of a build: past the page cache where that is asked for.
pub fn oom_io_config(params: &ForgeANNParams) -> (config: DirectIoConfig)
    ensures
        config == (DirectIoConfig { enabled: params.oom_enable, alignment: 4096 }),
{
    proof {
        assert(DirectIoConfig::alignment_from(4096) == 4096) by {
            reveal_with_fuel(doubled_to, 14);
        }
    }
    if params.strict_oom_io_enabled() {
        DirectIoConfig::enabled_with_alignment(4096)
    } else {
        DirectIoConfig::disabled()
    }
}

/// The points whose reservoirs stay in memory: those within an explicit cap, or those
/// that the reservoirs' share of the budget leaves room for.
pub open spec fn planned_residents(
    params: ForgeANNParams,
    points: int,
    leaf_threads: int,
    dim: int,
    sketch_bytes: int,
    shard: int,
) -> int {
    match params.oom_resident_reservoir_cap_bytes {
        Some(cap) => least(
            cap as int / greatest(locked_reservoir_bytes(1, params.l_max as int), 1),
            points,
        ),
        None => resident_prefix(
            points,
            leaf_threads,
            leaf_scratch_bytes(
                params.max_full_matrix_leaf_size as int,
                dim,
                params.leaf_knn as int,
            ),
            sketch_bytes,
            shard,
            OomMemoryPlan::shares(params.memory_budget()).reservoir_budget_bytes as int,
            params.l_max as int,
        ),
    }
}

/// Plans a build. `recorder` tells whether edges are recorded for a later pruning.
pub fn plan_oom_build(
    params: &ForgeANNParams,
    num_points: usize,
    requested_threads: usize,
    dim: usize,
    sketch_bytes: usize,
    sketch_file_bytes: usize,
    recorder: bool,
) -> (plan: OomBuildPlan)
    ensures
        plan.threads.pool_threads == greatest(requested_threads as int, 1),
        plan.threads.leaf_budget_threads == budgeted_workers(
            requested_threads as int,
            params.memory_budget(),
            leaf_scratch_bytes(
                params.max_full_matrix_leaf_size as int,
                dim as int,
                params.leaf_knn as int,
            ),
        ),
        plan.shard_points == spill_shard_points(
            num_points as int,
            *params,
            params.memory_budget(),
        ),
        plan.reservoir_budget_bytes == (match params.oom_resident_reservoir_cap_bytes {
            Some(cap) => cap,
            None => OomMemoryPlan::shares(params.memory_budget()).reservoir_budget_bytes,
        }),
        plan.resident_points == planned_residents(
            *params,
            num_points as int,
            plan.threads.leaf_budget_threads as int,
            dim as int,
            sketch_bytes as int,
            plan.shard_points as int,
        ),
        plan.resident_points <= num_points,
        plan.mode == build_mode(
            recorder && params.view_lune_prune_enable,
            plan.resident_points as int,
            num_points as int,
        ),
        plan.resident_sketch_rows == (match plan.mode {
            OomBuildMode::MetadataOnly | OomBuildMode::Resident => if 0 < sketch_file_bytes
                <= params.oom_sketch_cache_bytes {
                num_points
            } else {
                0
            },
            OomBuildMode::Hybrid => plan.resident_points,
            OomBuildMode::External => 0,
        }),
        plan.reduce_groups == least(
            OOM_POINT_PIPELINE_IO_THREADS as int,
            plan.threads.pool_threads as int,
        ),
        plan.io == (DirectIoConfig { enabled: params.oom_enable, alignment: 4096 }),
{
    let memory: OomMemoryPlan = OomMemoryPlan::from_params(params);
    let threads: OomExecutionThreads = derive_oom_execution_threads(requested_threads, params, dim);
    let shard: usize = derive_spill_shard_points(num_points, params, memory.total_budget_bytes);
    let (resident_points, reservoir_budget_bytes): (usize, usize) =
        match params.oom_resident_reservoir_cap_bytes {
        Some(cap) => (
            plan_resident_reservoir_prefix_from_cap(num_points, params, cap).resident_points,
            cap,
        ),
        None => (
            plan_resident_reservoir_prefix(
                num_points,
                threads.leaf_budget_threads,
                params,
                dim,
                sketch_bytes,
                shard,
                memory.reservoir_budget_bytes,
            ).resident_points,
            memory.reservoir_budget_bytes,
        ),
    };
    let mode: OomBuildMode = if recorder && params.view_lune_prune_enable {
        OomBuildMode::MetadataOnly
    } else if resident_points == num_points {
        OomBuildMode::Resident
    } else if resident_points > 0 {
        OomBuildMode::Hybrid
    } else {
        OomBuildMode::External
    };
    let resident_sketch_rows: usize = match mode {
        OomBuildMode::MetadataOnly | OomBuildMode::Resident => {
            if should_use_full_resident_sketch_cache(params, sketch_file_bytes) {
                num_points
            } else {
                0
            }
        },
        OomBuildMode::Hybrid => resident_points,
        OomBuildMode::External => 0,
    };
    OomBuildPlan {
        threads,
        shard_points: shard,
        reservoir_budget_bytes,
        resident_points,
        mode,
        resident_sketch_rows,
        reduce_groups: min_usize(OOM_POINT_PIPELINE_IO_THREADS, max_usize(threads.pool_threads, 1)),
        io: oom_io_config(params),
    }
}

/// What the spilled candidates of the points from `first` to `last` come to: a reservoir
/// each, fed with its candidates in order.
fn reduce_shard(edges: &Vec<PendingEdge>, first: usize, last: usize, l_max: usize) -> (graph: Vec<
    Vec<u32>,
>)
    requires
        l_max > 0,
        first <= last,
    ensures
        graph@.len() == last - first,
        graph_rows(graph@, edges@, l_max as int, first as int),
{
    let mut reservoirs: Vec<HashPruneReservoir> = new_reservoirs(last - first, l_max);
    for i in 0..edges.len()
        invariant
            first <= last,
            reservoirs@.len() == last - first,
            all_wf(reservoirs@),
            forall|q: int|
                0 <= q < reservoirs@.len() ==> (#[trigger] reservoirs@[q])@ == fed(
                    empty_reservoir(l_max as int),
                    edges@.take(i as int),
                    first + q,
                ),
    {
        let edge: PendingEdge = edges[i];
        let ghost before = reservoirs@;
        proof {
            assert(edges@.take(i + 1).drop_last() =~= edges@.take(i as int));
        }
        if first <= edge.p && edge.p < last {
            reservoirs[edge.p - first].insert(edge.c, edge.hash, edge.dist);
        }
        proof {
            assert forall|q: int| 0 <= q < reservoirs@.len() implies (#[trigger] reservoirs@[q])@
                == fed(empty_reservoir(l_max as int), edges@.take(i + 1), first + q) by {
                if q != edge.p - first {
                    assert(reservoirs@[q] == before[q]);
                }
            }
        }
    }
    proof {
        assert(edges@.take(edges@.len() as int) =~= edges@);
    }
    drain_reservoirs(&mut reservoirs)
}

/// The neighbours of the points from `point_start` on, shard by shard, from their spilled
/// candidates.
pub fn reduce_spilled_edges(
    edges: &Vec<PendingEdge>,
    point_start: usize,
    num_points: usize,
    l_max: usize,
    shard_points: usize,
) -> (graph: Vec<Vec<u32>>)
    requires
        l_max > 0,
        shard_points > 0,
        point_start <= num_points,
    ensures
        graph@.len() == num_points - point_start,
        graph_rows(graph@, edges@, l_max as int, point_start as int),
        rows_hold_candidates(graph@, edges@, l_max as int, point_start as int),
{
    let mut graph: Vec<Vec<u32>> = Vec::with_capacity(num_points - point_start);
    let mut first: usize = point_start;
    while first < num_points
        invariant
            l_max > 0,
            shard_points > 0,
            point_start <= first <= num_points,
            graph@.len() == first - point_start,
            graph_rows(graph@, edges@, l_max as int, point_start as int),
        decreases num_points - first,
    {
        let last: usize = if num_points - first <= shard_points {
            num_points
        } else {
            first + shard_points
        };
        let mut shard: Vec<Vec<u32>> = reduce_shard(edges, first, last, l_max);
        let ghost before = graph@;
        let ghost added = shard@;
        graph.append(&mut shard);
        proof {
            assert forall|i: int| 0 <= i < graph@.len() implies (#[trigger] graph@[i])@
                == neighbors_of(edges@, l_max as int, point_start + i) by {
                if i < before.len() {
                    assert(graph@[i] == before[i]);
                } else {
                    assert(graph@[i] == added[i - before.len()]);
                }
            }
        }
        first = last;
    }
    proof {
        lemma_rows_hold_candidates(graph@, edges@, l_max as int, point_start as int);
    }
    graph
}

pub proof fn lemma_parts_add(a: Seq<PendingEdge>, b: Seq<PendingEdge>, resident_points: int)
    ensures
        spilled_part(a + b, resident_points) == spilled_part(a, resident_points) + spilled_part(
            b,
            resident_points,
        ),
        resident_part(a + b, resident_points) == resident_part(a, resident_points) + resident_part(
            b,
            resident_points,
        ),
    decreases b.len(),
{
    if b.len() == 0 {
        assert(a + b =~= a);
        assert(spilled_part(a, resident_points) + b =~= spilled_part(a, resident_points));
        assert(resident_part(a, resident_points) + b =~= resident_part(a, resident_points));
    } else {
        lemma_parts_add(a, b.drop_last(), resident_points);
        assert((a + b).drop_last() =~= a + b.drop_last());
        let edge = b.last();
        let kept = resident_part(a, resident_points);
        let out = spilled_part(a, resident_points);
        if edge.p < resident_points {
            assert(kept + resident_part(b.drop_last(), resident_points).push(edge) =~= (kept
                + resident_part(b.drop_last(), resident_points)).push(edge));
        } else {
            assert(out + spilled_part(b.drop_last(), resident_points).push(edge) =~= (out
                + spilled_part(b.drop_last(), resident_points)).push(edge));
        }
    }
}

pub proof fn lemma_resident_within(edges: Seq<PendingEdge>, resident_points: int)
    ensures
        forall|e: int|
            0 <= e < resident_part(edges, resident_points).len() ==> (#[trigger] resident_part(
                edges,
                resident_points,
            )[e]).p < resident_points,
    decreases edges.len(),
{
    if edges.len() > 0 {
        lemma_resident_within(edges.drop_last(), resident_points);
        let head = resident_part(edges.drop_last(), resident_points);
        let all = resident_part(edges, resident_points);
        assert forall|e: int| 0 <= e < all.len() implies (#[trigger] all[e]).p
            < resident_points by {
            if e < head.len() {
                assert(all[e] == head[e]);
            }
        }
    }
}

/// Builds the graph with the reservoirs of the first `resident_points` points in memory
/// and the candidates of the others spilled: the resident points come out first.
fn build_split(
    leaves: &Vec<LeafInput>,
    num_points: usize,
    params: &ForgeANNParams,
    resident_points: usize,
    shard_points: usize,
) -> (graph: Vec<Vec<u32>>)
    requires
        params.l_max > 0,
        shard_points > 0,
        resident_points <= num_points,
        all_fit(leaves@, *params, num_points as int),
    ensures
        graph@.len() == num_points,
        graph_rows(
            graph@,
            edges_of(leaves@, *params, leaves@.len() as int),
            params.l_max as int,
            0,
        ),
        rows_hold_links(graph@, leaves@, *params),
{
    let mut stream: GraphStream = GraphStream::new(num_points, resident_points, params.l_max);
    let mut spilled: Vec<PendingEdge> = Vec::new();
    for i in 0..leaves.len()
        invariant
            all_fit(leaves@, *params, num_points as int),
            stream.wf(),
            stream.points() == num_points,
            stream.resident() == resident_points,
            stream.limit() == params.l_max,
            stream.edges() == edges_of(leaves@, *params, i as int),
            spilled@ == spilled_part(edges_of(leaves@, *params, i as int), resident_points as int),
    {
        proof {
            assert(leaves@[i as int].fits(*params, num_points as int));
            lemma_parts_add(
                edges_of(leaves@, *params, i as int),
                leaves@[i as int].edges(*params),
                resident_points as int,
            );
        }
        let mut out: Vec<PendingEdge> = stream.add_leaf(&leaves[i], params);
        spilled.append(&mut out);
    }
    let ghost all = edges_of(leaves@, *params, leaves@.len() as int);
    let mut graph: Vec<Vec<u32>> = stream.finish();
    let ghost resident_rows = graph@;
    let mut reduced: Vec<Vec<u32>> = reduce_spilled_edges(
        &spilled,
        resident_points,
        num_points,
        params.l_max,
        shard_points,
    );
    let ghost reduced_rows = reduced@;
    graph.append(&mut reduced);
    proof {
        let empty = empty_reservoir(params.l_max as int);
        assert forall|p: int| 0 <= p < graph@.len() implies (#[trigger] graph@[p])@ == neighbors_of(
            all,
            params.l_max as int,
            p,
        ) by {
            law_split_feeds_every_point(empty, all, resident_points as int, p);
            if p < resident_points {
                assert(graph@[p] == resident_rows[p]);
            } else {
                assert(graph@[p] == reduced_rows[p - resident_points]);
            }
        }
        lemma_rows_hold_links(graph@, leaves@, *params);
    }
    graph
}

/// Builds the graph as planned. Where the candidates are kept does not change it; a build
/// for metadata alone yields none.
pub fn build_forgeann_graph_oom(
    leaves: &Vec<LeafInput>,
    num_points: usize,
    params: &ForgeANNParams,
    plan: &OomBuildPlan,
) -> (graph: Vec<Vec<u32>>)
    requires
        params.l_max > 0,
        plan.shard_points > 0,
        plan.resident_points <= num_points,
        all_fit(leaves@, *params, num_points as int),
    ensures
        plan.mode == OomBuildMode::MetadataOnly ==> graph@.len() == 0,
        plan.mode != OomBuildMode::MetadataOnly ==> graph@.len() == num_points && graph_rows(
            graph@,
            edges_of(leaves@, *params, leaves@.len() as int),
            params.l_max as int,
            0,
        ),
        rows_hold_links(graph@, leaves@, *params),
{
    match plan.mode {
        OomBuildMode::MetadataOnly => Vec::new(),
        OomBuildMode::Resident => build_in_memory(leaves, num_points, params),
        OomBuildMode::Hybrid => build_split(
            leaves,
            num_points,
            params,
            plan.resident_points,
            plan.shard_points,
        ),
        OomBuildMode::External => build_split(leaves, num_points, params, 0, plan.shard_points),
    }
}

/// What a build reads: the leaves of the partition and what is known of the sketches.
#[derive(Debug)]
pub struct StoreInput {
    pub dim: usize,
    pub leaves: Vec<LeafInput>,
    /// Sketch bytes in memory.
    pub sketch_bytes: usize,
    /// Bytes of the sketch file of an out-of-core build.
    pub sketch_file_bytes: usize,
    /// Candidates for the start of a search, sampled by an out-of-core build.
    pub start_samples: Vec<SketchStartSample>,
    /// Edges are recorded for a later pruning.
    pub recorder: bool,
}

/// Whether a build writes no graph because its edges are recorded for a later pruning.
pub open spec fn metadata_only(input: StoreInput, params: ForgeANNParams) -> bool {
    params.oom_enable && input.recorder && params.view_lune_prune_enable
}

/// Builds the graph, in memory or out of core. Row `p` of the graph holds the neighbours of
/// point `p`.
pub fn build_forgeann_graph_with_store(
    input: &StoreInput,
    num_points: usize,
    num_threads: u32,
    params: &ForgeANNParams,
) -> (result: (ForgeANNBuildSummary, Vec<Vec<u32>>))
    requires
        num_points > 0 ==> params.m_hash_bits <= 16 && params.l_max > 0,
        all_fit(input.leaves@, *params, num_points as int),
    ensures
        if num_points > 0 && params.oom_enable {
            is_medoid_start(
                num_points as int,
                input.start_samples@,
                result.0.graph_start_hint,
            )
        } else {
            result.0.graph_start_hint is None
        },
        result.1@.len() == (if metadata_only(*input, *params) {
            0
        } else {
            num_points as int
        }),
        graph_rows(
            result.1@,
            edges_of(input.leaves@, *params, input.leaves@.len() as int),
            params.l_max as int,
            0,
        ),
        rows_hold_links(result.1@, input.leaves@, *params),
{
    if num_points == 0 {
        return (ForgeANNBuildSummary::default(), Vec::new());
    }
    let threads: usize = effective_build_threads(num_threads);
    if params.oom_enable {
        let plan: OomBuildPlan = plan_oom_build(
            params,
            num_points,
            threads,
            input.dim,
            input.sketch_bytes,
            input.sketch_file_bytes,
            input.recorder,
        );
        let graph: Vec<Vec<u32>> = build_forgeann_graph_oom(
            &input.leaves,
            num_points,
            params,
            &plan,
        );
        let graph_start_hint: Option<u32> = sampled_medoid_start(
            num_points,
            input.start_samples.as_slice(),
        );
        return (ForgeANNBuildSummary { graph_start_hint }, graph);
    }
    (ForgeANNBuildSummary::default(), build_in_memory(&input.leaves, num_points, params))
}

/// An out-of-core build and a build in memory write the same graph.
pub proof fn law_out_of_core_graph_is_the_same(
    leaves: Seq<LeafInput>,
    params: ForgeANNParams,
    out_of_core: Seq<Vec<u32>>,
    in_memory: Seq<Vec<u32>>,
)
    requires
        out_of_core.len() == in_memory.len(),
        graph_rows(
            out_of_core,
            edges_of(leaves, params, leaves.len() as int),
            params.l_max as int,
            0,
        ),
        graph_rows(
            in_memory,
            edges_of(leaves, params, leaves.len() as int),
            params.l_max as int,
            0,
        ),
    ensures
        forall|p: int| 0 <= p < in_memory.len() ==> (#[trigger] in_memory[p])@ == out_of_core[p]@,
{
    assert forall|p: int| 0 <= p < in_memory.len() implies (#[trigger] in_memory[p])@
        == out_of_core[p]@ by {
        assert(out_of_core[p]@ == neighbors_of(
            edges_of(leaves, params, leaves.len() as int),
            params.l_max as int,
            0 + p,
        ));
    }
}

/// A build that reads the rotated coordinates of the points from a file of its own does so
/// only where adaptive sampling is on and the file is named.
pub fn reads_rotation_sidecar(params: &ForgeANNParams, named: bool) -> (result: bool)
    ensures
        result == (params.root_adsampling_enable && named),
{
    params.root_adsampling_enabled() && named
}

/// Holds the file of rotated coordinates against the points of the build.
pub fn check_rotation_sidecar(
    sidecar_dim: usize,
    sidecar_points: usize,
    dim: usize,
    num_points: usize,
) -> (result: AnnResult<()>)
    ensures
        match result {
            Ok(_) => sidecar_dim == dim && sidecar_points >= num_points,
            Err(error) => {
                &&& sidecar_dim != dim || sidecar_points < num_points
                &&& error matches AnnError::IndexConfig { parameter, err } && parameter@
                    == "adsampling_rotation_sidecar"@ && err@ == if sidecar_dim != dim {
                    "ADSampling sidecar dim "@ + decimal(sidecar_dim as nat)
                        + " does not match dataset dim "@ + decimal(dim as nat) + ""@
                } else {
                    "ADSampling sidecar has "@ + decimal(sidecar_points as nat)
                        + " points but build needs "@ + decimal(num_points as nat) + ""@
                }
            },
        },
{
    if sidecar_dim != dim {
        return Err(
            AnnError::log_index_config_error(
                "adsampling_rotation_sidecar".to_owned(),
                with_numbers(
                    "ADSampling sidecar dim ",
                    sidecar_dim as u64,
                    " does not match dataset dim ",
                    dim as u64,
                    "",
                ),
            ),
        );
    }
    if sidecar_points < num_points {
        return Err(
            AnnError::log_index_config_error(
                "adsampling_rotation_sidecar".to_owned(),
                with_numbers(
                    "ADSampling sidecar has ",
                    sidecar_points as u64,
                    " points but build needs ",
                    num_points as u64,
                    "",
                ),
            ),
        );
    }
    Ok(())
}

} // verus!
