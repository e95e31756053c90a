//! How a leaf is worked on.

use vstd::prelude::*;

use crate::arith::{capped, greatest, least, max_usize, min_usize, sat_mul};
use crate::float_bits::F32;
use crate::gather::WindowedGatherOptions;
use crate::hash_prune::HashPruneReservoir;
use crate::leaf_build::{
    all_wf, block_topk, emit_row_topk_edges, fed, flush_pending_edges_to_reservoirs, leaf_rows,
    lemma_nearest_row_indices, nearest_row, nearest_rows, row_views, LeafPoints, LeafSketchCache,
    PendingEdge, LEAF_ADSAMPLING_MIN_SIZE,
};
use crate::leaf_laws::{
    edges_between, law_parts_are_the_edges_of_their_points, law_waves_fit_their_scratch,
};
use crate::leaf_profile::LeafProfile;
use crate::lune::PendingLuneWitness;
use crate::metric::Metric;
use crate::params::ForgeANNParams;
use crate::rows::{lemma_row_bounds, row_of};
use crate::topk::{Neighbor, RowTopK, MAX_ROW_TOPK};

verus! {

/// Where the neighbours of a leaf's points come from.
#[derive(Clone, Copy, Debug, PartialEq, Eq, Structural)]
pub enum LeafRoute {
    /// Nothing to connect.
    Skip,
    /// Adaptive sampling of the coordinates.
    AdSampling,
    /// One matrix of all distances.
    FullMatrix,
    /// Distances of one block of points after the other.
    Blocks,
}

/// What is done with a leaf.
#[derive(Clone, Copy, Debug, PartialEq, Eq, Structural)]
pub struct LeafPlan {
    pub route: LeafRoute,
    /// Neighbours per point.
    pub k: usize,
    /// The leaf counts as one that is worked on in blocks.
    pub blockwise: bool,
}

/// The neighbours that each point of the leaf gets.
pub open spec fn leaf_neighbors(leaf_knn: int, leaf_size: int) -> int {
    if leaf_size <= 1 {
        0
    } else {
        least(leaf_knn, leaf_size - 1)
    }
}

/// Adaptive sampling is for large leaves under the Euclidean metric.
pub open spec fn sampled_leaf(params: ForgeANNParams, metric: Metric, leaf_size: int) -> bool {
    metric == Metric::L2 && leaf_size >= LEAF_ADSAMPLING_MIN_SIZE && params.adsampling_group_dims
        > 0
}

pub fn should_use_leaf_adsampling_executor(
    params: &ForgeANNParams,
    metric: Metric,
    leaf_size: usize,
) -> (result: bool)
    ensures
        result == sampled_leaf(*params, metric, leaf_size as int),
{
    metric == Metric::L2 && leaf_size >= LEAF_ADSAMPLING_MIN_SIZE && params.adsampling_group_dims
        > 0 && leaf_size > 1
}

/// Whether sampling works on pairs of points: it does where that is asked for and no
/// other way to divide a leaf is.
pub fn effective_leaf_ads_wavefront_pairmask(params: &ForgeANNParams) -> (result: bool)
    ensures
        result == (params.leaf_ads_wavefront_pairmask_enable && !params.leaf_ads_tiling_enable
            && !params.leaf_ads_work_graph_enable),
{
    params.leaf_ads_wavefront_pairmask_enable && !params.leaf_ads_tiling_enable
        && !params.leaf_ads_work_graph_enable
}

/// What one thread does with a leaf.
pub fn plan_leaf(params: &ForgeANNParams, metric: Metric, leaf_size: usize) -> (plan: LeafPlan)
    ensures
        plan.k == leaf_neighbors(params.leaf_knn as int, leaf_size as int),
        plan.blockwise == (plan.k > 0 && leaf_size > params.max_full_matrix_leaf_size),
        plan.route == (if plan.k == 0 {
            LeafRoute::Skip
        } else if sampled_leaf(*params, metric, leaf_size as int) {
            LeafRoute::AdSampling
        } else if leaf_size > params.max_full_matrix_leaf_size {
            LeafRoute::Blocks
        } else {
            LeafRoute::FullMatrix
        }),
{
    let k: usize = if leaf_size <= 1 {
        0
    } else {
        min_usize(params.leaf_knn, leaf_size - 1)
    };
    if k == 0 {
        return LeafPlan { route: LeafRoute::Skip, k, blockwise: false };
    }
    let blockwise: bool = leaf_size > params.kernel_safe_leaf_size();
    let route: LeafRoute = if should_use_leaf_adsampling_executor(params, metric, leaf_size) {
        LeafRoute::AdSampling
    } else if blockwise {
        LeafRoute::Blocks
    } else {
        LeafRoute::FullMatrix
    };
    LeafPlan { route, k, blockwise }
}

/// What several threads do with a large leaf: always in blocks but for sampling.
pub fn plan_large_leaf(
    params: &ForgeANNParams,
    metric: Metric,
    leaf_size: usize,
) -> (plan: LeafPlan)
    ensures
        plan.k == leaf_neighbors(params.leaf_knn as int, leaf_size as int),
        plan.blockwise == (leaf_size > 0),
        plan.route == (if plan.k == 0 {
            LeafRoute::Skip
        } else if sampled_leaf(*params, metric, leaf_size as int) {
            LeafRoute::AdSampling
        } else {
            LeafRoute::Blocks
        }),
{
    let plan: LeafPlan = plan_leaf(params, metric, leaf_size);
    let route: LeafRoute = match plan.route {
        LeafRoute::FullMatrix => LeafRoute::Blocks,
        other => other,
    };
    LeafPlan { route, k: plan.k, blockwise: leaf_size > 0 }
}

/// How the points of a leaf are read: with small gaps for small rows, in windows of a
/// bounded size.
pub open spec fn leaf_read_options(
    row_bytes: int,
    rows: int,
    least_window: int,
    most_window: int,
) -> WindowedGatherOptions {
    WindowedGatherOptions {
        max_gap_rows: if row_bytes <= 4096 {
            1
        } else {
            0
        },
        max_window_bytes: greatest(
            least(capped(row_bytes * greatest(rows, 1)), most_window),
            least_window,
        ) as usize,
        alignment_bytes: 4096,
        sort_ids: true,
    }
}

pub fn default_leaf_point_read_options(dim: usize, rows: usize) -> (options: WindowedGatherOptions)
    ensures
        options == leaf_read_options(capped(dim * 4), rows as int, 0x4_0000, 0x40_0000),
{
    let row_bytes: usize = sat_mul(dim, 4);
    WindowedGatherOptions {
        max_gap_rows: if row_bytes <= 4096 {
            1
        } else {
            0
        },
        max_window_bytes: max_usize(
            min_usize(sat_mul(row_bytes, max_usize(rows, 1)), 0x40_0000),
            0x4_0000,
        ),
        alignment_bytes: 4096,
        sort_ids: true,
    }
}

pub fn leaf_sketch_read_options(width: usize, rows: usize) -> (options: WindowedGatherOptions)
    ensures
        options == leaf_read_options(capped(width * 4), rows as int, 0x2_0000, 0x20_0000),
{
    let row_bytes: usize = sat_mul(width, 4);
    WindowedGatherOptions {
        max_gap_rows: if row_bytes <= 4096 {
            1
        } else {
            0
        },
        max_window_bytes: max_usize(
            min_usize(sat_mul(row_bytes, max_usize(rows, 1)), 0x20_0000),
            0x2_0000,
        ),
        alignment_bytes: 4096,
        sort_ids: true,
    }
}

/// The reservoirs after the leaf's edges were offered.
pub open spec fn leaf_connected(
    before: Seq<HashPruneReservoir>,
    after: Seq<HashPruneReservoir>,
    edges: Seq<PendingEdge>,
) -> bool {
    &&& after.len() == before.len()
    &&& all_wf(after)
    &&& forall|p: int|
        0 <= p < before.len() ==> (#[trigger] after[p])@ == fed(before[p]@, edges, p)
}

pub open spec fn leaf_within(leaf: Seq<u32>, points: int) -> bool {
    forall|i: int| 0 <= i < leaf.len() ==> (#[trigger] leaf[i]) < points
}

proof fn lemma_row_edges_within(points: LeafPoints, i: int, row: Seq<Neighbor>, n: int, limit: int)
    requires
        0 <= i < points.ids.len(),
        0 <= n <= row.len(),
        leaf_within(points.ids, limit),
        limit <= usize::MAX,
        forall|r: int| 0 <= r < row.len() ==> (#[trigger] row[r]).index < points.ids.len(),
    ensures
        forall|e: int|
            0 <= e < points.row_edges(i, row, n).len() ==> (#[trigger] points.row_edges(
                i,
                row,
                n,
            )[e]).p < limit,
    decreases n,
{
    if n > 0 {
        lemma_row_edges_within(points, i, row, n - 1, limit);
        let head = points.row_edges(i, row, n - 1);
        let pair = points.edge_pair(i, n - 1, row[n - 1]);
        let all = points.row_edges(i, row, n);
        assert(points.ids[i] < limit);
        assert(points.ids[row[n - 1].index as int] < limit);
        assert forall|e: int| 0 <= e < all.len() implies (#[trigger] all[e]).p < limit by {
            if e < head.len() {
                assert(all[e] == head[e]);
            } else {
                assert(all[e] == pair[e - head.len()]);
            }
        }
    }
}

/// Edges of a leaf belong to points of the leaf.
pub proof fn lemma_edges_within(
    points: LeafPoints,
    rows: Seq<Seq<Neighbor>>,
    first: int,
    n: int,
    limit: int,
)
    requires
        0 <= first,
        0 <= n <= rows.len(),
        first + n <= points.ids.len(),
        leaf_within(points.ids, limit),
        limit <= usize::MAX,
        points.knows(rows),
    ensures
        forall|e: int|
            0 <= e < points.edges(rows, first, n).len() ==> (#[trigger] points.edges(
                rows,
                first,
                n,
            )[e]).p < limit,
    decreases n,
{
    if n > 0 {
        lemma_edges_within(points, rows, first, n - 1, limit);
        let row = rows[n - 1];
        assert forall|r: int| 0 <= r < row.len() implies (#[trigger] row[r]).index
            < points.ids.len() by {
            assert(rows[n - 1][r].index < points.ids.len());
        }
        lemma_row_edges_within(points, first + n - 1, row, row.len() as int, limit);
        let head = points.edges(rows, first, n - 1);
        let tail = points.row_edges(first + n - 1, row, row.len() as int);
        let all = points.edges(rows, first, n);
        assert forall|e: int| 0 <= e < all.len() implies (#[trigger] all[e]).p < limit by {
            if e < head.len() {
                assert(all[e] == head[e]);
            } else {
                assert(all[e] == tail[e - head.len()]);
            }
        }
    }
}

/// Offers the edges of the points from `first` on, with the neighbours in `rows`, to
/// the reservoirs.
pub fn connect_rows(
    rows: &Vec<RowTopK>,
    first: usize,
    sketches: &LeafSketchCache,
    leaf: &[u32],
    params: &ForgeANNParams,
    reservoirs: &mut Vec<HashPruneReservoir>,
)
    requires
        first + rows@.len() <= leaf@.len(),
        sketches.fits(leaf@.len() as int, params.m_hash_bits as int),
        sketches.points(leaf@, params.m_hash_bits as int).knows(row_views(rows@)),
        leaf_within(leaf@, old(reservoirs)@.len() as int),
        all_wf(old(reservoirs)@),
    ensures
        leaf_connected(
            old(reservoirs)@,
            final(reservoirs)@,
            sketches.points(leaf@, params.m_hash_bits as int).edges(
                row_views(rows@),
                first as int,
                rows@.len() as int,
            ),
        ),
{
    let count: usize = reservoirs.len();
    proof {
        lemma_edges_within(
            sketches.points(leaf@, params.m_hash_bits as int),
            row_views(rows@),
            first as int,
            rows@.len() as int,
            count as int,
        );
    }
    let mut edges: Vec<PendingEdge> = emit_row_topk_edges(
        rows,
        first,
        sketches,
        leaf,
        params.m_hash_bits,
    );
    flush_pending_edges_to_reservoirs(&mut edges, reservoirs);
}

/// Connects every point of the leaf with its nearest points, from the matrix of all
/// distances of the leaf.
pub fn process_leaf(
    dists: &[F32],
    sketches: &LeafSketchCache,
    leaf: &[u32],
    params: &ForgeANNParams,
    reservoirs: &mut Vec<HashPruneReservoir>,
)
    requires
        dists@.len() == leaf@.len() * leaf@.len(),
        leaf_neighbors(params.leaf_knn as int, leaf@.len() as int) <= MAX_ROW_TOPK,
        sketches.fits(leaf@.len() as int, params.m_hash_bits as int),
        leaf_within(leaf@, old(reservoirs)@.len() as int),
        all_wf(old(reservoirs)@),
    ensures
        leaf_connected(
            old(reservoirs)@,
            final(reservoirs)@,
            sketches.points(leaf@, params.m_hash_bits as int).edges(
                leaf_rows(
                    dists@,
                    leaf@.len() as int,
                    leaf_neighbors(params.leaf_knn as int, leaf@.len() as int),
                ),
                0,
                leaf@.len() as int,
            ),
        ),
{
    let leaf_size: usize = leaf.len();
    let k: usize = if leaf_size <= 1 {
        0
    } else {
        min_usize(params.leaf_knn, leaf_size - 1)
    };
    let rows: Vec<RowTopK> = block_topk(dists, 0, leaf_size, leaf_size, k);
    proof {
        lemma_nearest_rows_known(dists@, leaf_size as int, 0, leaf_size as int, k as int);
        let points = sketches.points(leaf@, params.m_hash_bits as int);
        assert(points.knows(row_views(rows@)));
    }
    connect_rows(&rows, 0, sketches, leaf, params, reservoirs);
}

/// The neighbours of a block's points are points of the leaf.
pub proof fn lemma_nearest_rows_known(dists: Seq<F32>, leaf_size: int, first: int, n: int, k: int)
    requires
        0 <= first,
        0 <= n,
        first + n <= leaf_size <= usize::MAX,
        dists.len() == n * leaf_size,
    ensures
        forall|i: int, r: int|
            0 <= i < n && 0 <= r < nearest_rows(dists, leaf_size, first, n, k)[i].len() ==> (
            #[trigger] nearest_rows(dists, leaf_size, first, n, k)[i][r]).index < leaf_size,
{
    let rows = nearest_rows(dists, leaf_size, first, n, k);
    assert forall|i: int, r: int| 0 <= i < n && 0 <= r < rows[i].len() implies (
    #[trigger] rows[i][r]).index < leaf_size by {
        lemma_row_bounds(i, n, leaf_size);
        lemma_nearest_row_indices(row_of(dists, leaf_size, i), first + i, k);
        assert(rows[i][r] == nearest_row(row_of(dists, leaf_size, i), first + i, k)[r]);
    }
}

/// A leaf that is worked on one block of points after the other: each block's
/// distances are computed elsewhere and handed in.
#[derive(Debug)]
pub struct LeafBlockRun {
    pub leaf_size: usize,
    pub k: usize,
    pub block_rows: usize,
    /// The neighbours of the points in front of the next block.
    pub rows: Vec<RowTopK>,
}

impl LeafBlockRun {
    pub open spec fn wf(&self) -> bool {
        &&& self.block_rows > 0
        &&& self.k <= MAX_ROW_TOPK
        &&& self.rows@.len() <= self.leaf_size
    }

    /// Where the next block ends.
    pub open spec fn block_end(&self) -> int {
        least(self.rows@.len() + self.block_rows, self.leaf_size as int)
    }

    pub fn start(leaf_size: usize, k: usize, block_rows: usize) -> (run: LeafBlockRun)
        requires
            k <= MAX_ROW_TOPK,
        ensures
            run.wf(),
            run.leaf_size == leaf_size,
            run.k == k,
            run.block_rows == greatest(block_rows as int, 1),
            run.rows@.len() == 0,
    {
        LeafBlockRun { leaf_size, k, block_rows: max_usize(block_rows, 1), rows: Vec::new() }
    }

    /// The points whose distances to all points of the leaf are needed next.
    pub fn next_block(&self) -> (block: Option<(usize, usize)>)
        requires
            self.wf(),
        ensures
            block == (if self.rows@.len() < self.leaf_size {
                Some((self.rows@.len() as usize, self.block_end() as usize))
            } else {
                None
            }),
    {
        let start: usize = self.rows.len();
        if start < self.leaf_size {
            let end: usize = if self.leaf_size - start < self.block_rows {
                self.leaf_size
            } else {
                start + self.block_rows
            };
            Some((start, end))
        } else {
            None
        }
    }

    /// Takes in the distances of the next block.
    pub fn add_block(&mut self, dists: &[F32])
        requires
            old(self).wf(),
            dists@.len() == (old(self).block_end() - old(self).rows@.len()) * old(self).leaf_size,
        ensures
            final(self).wf(),
            final(self).leaf_size == old(self).leaf_size,
            final(self).k == old(self).k,
            final(self).block_rows == old(self).block_rows,
            final(self).rows@.len() == old(self).block_end(),
            row_views(final(self).rows@) == row_views(old(self).rows@) + nearest_rows(
                dists@,
                old(self).leaf_size as int,
                old(self).rows@.len() as int,
                old(self).block_end() - old(self).rows@.len(),
                old(self).k as int,
            ),
    {
        let start: usize = self.rows.len();
        let end: usize = if self.leaf_size - start < self.block_rows {
            self.leaf_size
        } else {
            start + self.block_rows
        };
        let ghost before = self.rows@;
        let mut block: Vec<RowTopK> = block_topk(dists, start, end - start, self.leaf_size, self.k);
        let ghost added = block@;
        self.rows.append(&mut block);
        proof {
            assert(row_views(self.rows@) =~= row_views(before) + row_views(added));
        }
    }
}

/// The blocks of a leaf taken together give what the matrix of all distances gives:
/// handing in the next block of the matrix extends the neighbours of the points so
/// far by those of the next points.
pub proof fn law_block_run_follows_full_matrix(
    dists: Seq<F32>,
    leaf_size: int,
    done: int,
    end: int,
    k: int,
)
    requires
        0 <= done <= end <= leaf_size,
        dists.len() == leaf_size * leaf_size,
    ensures
        leaf_rows(dists, leaf_size, k).take(done) + nearest_rows(
            dists.subrange(done * leaf_size, end * leaf_size),
            leaf_size,
            done,
            end - done,
            k,
        ) == leaf_rows(dists, leaf_size, k).take(end),
{
    let part = nearest_rows(
        dists.subrange(done * leaf_size, end * leaf_size),
        leaf_size,
        done,
        end - done,
        k,
    );
    let left = leaf_rows(dists, leaf_size, k).take(done) + part;
    let right = leaf_rows(dists, leaf_size, k).take(end);
    assert forall|i: int| 0 <= i < end implies left[i] == right[i] by {
        if i >= done {
            crate::leaf_build::law_blocks_agree_with_full_matrix(
                dists,
                leaf_size,
                done,
                end - done,
                k,
                i - done,
            );
        }
    }
    assert(left =~= right);
}

/// Connects the points of a leaf with the neighbours that a finished run has found.
pub fn process_leaf_blockwise(
    run: &LeafBlockRun,
    sketches: &LeafSketchCache,
    leaf: &[u32],
    params: &ForgeANNParams,
    reservoirs: &mut Vec<HashPruneReservoir>,
)
    requires
        run.rows@.len() == leaf@.len(),
        sketches.fits(leaf@.len() as int, params.m_hash_bits as int),
        sketches.points(leaf@, params.m_hash_bits as int).knows(row_views(run.rows@)),
        leaf_within(leaf@, old(reservoirs)@.len() as int),
        all_wf(old(reservoirs)@),
    ensures
        leaf_connected(
            old(reservoirs)@,
            final(reservoirs)@,
            sketches.points(leaf@, params.m_hash_bits as int).edges(
                row_views(run.rows@),
                0,
                leaf@.len() as int,
            ),
        ),
{
    connect_rows(&run.rows, 0, sketches, leaf, params, reservoirs);
}

/// The neighbours of every row are points of the leaf.
pub open spec fn rows_within(rows: Seq<Seq<Neighbor>>, leaf_size: int) -> bool {
    forall|i: int, r: int|
        0 <= i < rows.len() && 0 <= r < rows[i].len() ==> (#[trigger] rows[i][r]).index < leaf_size
}

/// What a block of a large leaf comes to.
#[derive(Debug)]
pub struct ParallelBlockResult {
    pub block_start: usize,
    pub profile: LeafProfile,
    /// The nearest others of each of the block's points.
    pub rows: Vec<RowTopK>,
    pub edges: Vec<PendingEdge>,
    pub lune_witnesses: Vec<PendingLuneWitness>,
}

/// The edges of one block of a large leaf, from the distances of its points.
pub fn process_leaf_parallel_large_block(
    dists: &[F32],
    sketches: &LeafSketchCache,
    leaf: &[u32],
    params: &ForgeANNParams,
    block_start: usize,
    block_rows: usize,
    k: usize,
) -> (result: ParallelBlockResult)
    requires
        k <= MAX_ROW_TOPK,
        block_start < leaf@.len(),
        block_rows > 0,
        dists@.len() == (least(block_start + block_rows, leaf@.len() as int) - block_start)
            * leaf@.len(),
        sketches.fits(leaf@.len() as int, params.m_hash_bits as int),
    ensures
        result.block_start == block_start,
        result.profile.is_zero(),
        result.lune_witnesses@ == Seq::<PendingLuneWitness>::empty(),
        row_views(result.rows@) == nearest_rows(
            dists@,
            leaf@.len() as int,
            block_start as int,
            least(block_start + block_rows, leaf@.len() as int) - block_start,
            k as int,
        ),
        rows_within(row_views(result.rows@), leaf@.len() as int),
        ({
            let rows = least(block_start + block_rows, leaf@.len() as int) - block_start;
            result.edges@ == sketches.points(leaf@, params.m_hash_bits as int).edges(
                nearest_rows(
                    dists@,
                    leaf@.len() as int,
                    block_start as int,
                    rows,
                    k as int,
                ),
                block_start as int,
                rows,
            )
        }),
{
    let leaf_size: usize = leaf.len();
    let rows: usize = min_usize(block_rows, leaf_size - block_start);
    let topk: Vec<RowTopK> = block_topk(dists, block_start, rows, leaf_size, k);
    proof {
        lemma_nearest_rows_known(
            dists@,
            leaf_size as int,
            block_start as int,
            rows as int,
            k as int,
        );
        assert(sketches.points(leaf@, params.m_hash_bits as int).knows(row_views(topk@)));
    }
    let edges: Vec<PendingEdge> = emit_row_topk_edges(
        &topk,
        block_start,
        sketches,
        leaf,
        params.m_hash_bits,
    );
    ParallelBlockResult {
        block_start,
        profile: LeafProfile::default(),
        rows: topk,
        edges,
        lune_witnesses: Vec::new(),
    }
}

/// Bytes that the blocks of a wave may take together.
pub const TARGET_BLOCK_SCRATCH_BYTES: usize = 0x1000_0000;

/// The bytes of one block: its distances, and its edges in both directions.
pub open spec fn block_scratch_bytes(leaf_size: int, block_rows: int, leaf_knn: int) -> int {
    capped(
        capped(capped(block_rows * leaf_size) * 4) + capped(
            capped(capped(block_rows * greatest(leaf_knn, 1)) * 2) * core::mem::size_of::<
                PendingEdge,
            >(),
        ),
    )
}

/// The blocks that are worked on at once: no more than there are or than there are
/// threads, and as many as fit the scratch.
pub open spec fn wave_width(threads: int, scratch: int, total_blocks: int) -> int {
    let by_memory = if scratch == 0 {
        greatest(threads, 1)
    } else {
        greatest(TARGET_BLOCK_SCRATCH_BYTES as int / scratch, 1)
    };
    greatest(least(total_blocks, least(greatest(threads, 1), by_memory)), 1)
}

/// How many blocks of a large leaf `threads` threads work on at once.
pub fn choose_parallel_block_wave_width_for_threads(
    leaf_size: usize,
    block_rows: usize,
    leaf_knn: usize,
    total_blocks: usize,
    threads: usize,
) -> (width: usize)
    ensures
        width == wave_width(
            threads as int,
            block_scratch_bytes(leaf_size as int, block_rows as int, leaf_knn as int),
            total_blocks as int,
        ),
        1 <= width <= greatest(total_blocks as int, 1),
        width > 1 ==> width <= threads && width * block_scratch_bytes(
            leaf_size as int,
            block_rows as int,
            leaf_knn as int,
        ) <= 0x1000_0000,
        width < threads && width < total_blocks ==> (width + 1) * block_scratch_bytes(
            leaf_size as int,
            block_rows as int,
            leaf_knn as int,
        ) > 0x1000_0000,
{
    proof {
        let bytes = block_scratch_bytes(leaf_size as int, block_rows as int, leaf_knn as int);
        if bytes >= 0 {
            law_waves_fit_their_scratch(threads as int, bytes, total_blocks as int);
        }
    }
    let distances: usize = sat_mul(sat_mul(block_rows, leaf_size), 4);
    let edges: usize = sat_mul(
        sat_mul(sat_mul(block_rows, max_usize(leaf_knn, 1)), 2),
        core::mem::size_of::<PendingEdge>(),
    );
    let scratch: usize = distances.saturating_add(edges);
    let by_memory: usize = if scratch == 0 {
        max_usize(threads, 1)
    } else {
        max_usize(TARGET_BLOCK_SCRATCH_BYTES / scratch, 1)
    };
    max_usize(min_usize(total_blocks, min_usize(max_usize(threads, 1), by_memory)), 1)
}

/// How many blocks of a large leaf the current thread pool works on at once.
pub fn choose_parallel_block_wave_width(
    leaf_size: usize,
    block_rows: usize,
    leaf_knn: usize,
    total_blocks: usize,
) -> (width: usize)
    ensures
        1 <= width <= greatest(total_blocks as int, 1),
        exists|threads: usize|
            width == #[trigger] wave_width(
                threads as int,
                block_scratch_bytes(leaf_size as int, block_rows as int, leaf_knn as int),
                total_blocks as int,
            ),
{
    let threads: usize = crate::pool::current_num_threads();
    choose_parallel_block_wave_width_for_threads(
        leaf_size,
        block_rows,
        leaf_knn,
        total_blocks,
        threads,
    )
}

/// The edges of resident points, in order.
pub open spec fn resident_part(edges: Seq<PendingEdge>, resident_points: int) -> Seq<PendingEdge>
    decreases edges.len(),
{
    if edges.len() == 0 {
        edges
    } else if edges.last().p < resident_points {
        resident_part(edges.drop_last(), resident_points).push(edges.last())
    } else {
        resident_part(edges.drop_last(), resident_points)
    }
}

/// The edges of all other points, in order.
pub open spec fn spilled_part(edges: Seq<PendingEdge>, resident_points: int) -> Seq<PendingEdge>
    decreases edges.len(),
{
    if edges.len() == 0 {
        edges
    } else if edges.last().p < resident_points {
        spilled_part(edges.drop_last(), resident_points)
    } else {
        spilled_part(edges.drop_last(), resident_points).push(edges.last())
    }
}

/// Takes the edges apart into those of resident points and those to be spilled.
pub fn split_edges(edges: &mut Vec<PendingEdge>, resident_points: usize) -> (parts: (
    Vec<PendingEdge>,
    Vec<PendingEdge>,
))
    ensures
        final(edges)@.len() == 0,
        parts.0@ == resident_part(old(edges)@, resident_points as int),
        parts.1@ == spilled_part(old(edges)@, resident_points as int),
        exists|places: Seq<int>| #[trigger]
            edges_between(old(edges)@, 0, resident_points as int, parts.0@, places),
        exists|places: Seq<int>| #[trigger]
            edges_between(
                old(edges)@,
                resident_points as int,
                usize::MAX + 1,
                parts.1@,
                places,
            ),
{
    proof {
        law_parts_are_the_edges_of_their_points(edges@, resident_points as int);
    }
    let mut resident: Vec<PendingEdge> = Vec::new();
    let mut spilled: Vec<PendingEdge> = Vec::new();
    for i in 0..edges.len()
        invariant
            edges@ == old(edges)@,
            resident@ == resident_part(edges@.take(i as int), resident_points as int),
            spilled@ == spilled_part(edges@.take(i as int), resident_points as int),
    {
        let edge: PendingEdge = edges[i];
        proof {
            assert(edges@.take(i as int + 1).drop_last() =~= edges@.take(i as int));
        }
        if edge.p < resident_points {
            resident.push(edge);
        } else {
            spilled.push(edge);
        }
    }
    proof {
        assert(edges@.take(edges@.len() as int) =~= edges@);
    }
    edges.clear();
    (resident, spilled)
}

/// Every edge goes to one side: a resident point is fed by the resident edges as by
/// all of them, any other point by the spilled ones.
pub proof fn law_split_feeds_every_point(
    state: crate::hash_prune::ReservoirState,
    edges: Seq<PendingEdge>,
    resident_points: int,
    p: int,
)
    ensures
        p < resident_points ==> fed(state, resident_part(edges, resident_points), p) == fed(
            state,
            edges,
            p,
        ),
        p >= resident_points ==> fed(state, spilled_part(edges, resident_points), p) == fed(
            state,
            edges,
            p,
        ),
        resident_part(edges, resident_points).len() + spilled_part(edges, resident_points).len()
            == edges.len(),
    decreases edges.len(),
{
    if edges.len() > 0 {
        law_split_feeds_every_point(state, edges.drop_last(), resident_points, p);
        let head = edges.drop_last();
        if edges.last().p < resident_points {
            assert(resident_part(edges, resident_points).drop_last() =~= resident_part(
                head,
                resident_points,
            ));
        } else {
            assert(spilled_part(edges, resident_points).drop_last() =~= spilled_part(
                head,
                resident_points,
            ));
        }
    }
}

} // verus!
