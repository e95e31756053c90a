//! Sampling the rows of a leaf in tiles that are claimed one after the other.

use vstd::prelude::*;

use crate::ads_config::{LeafAdsOperatorRuntime, ADS_LEAF_ROW_CHUNK};
use crate::ads_scan::AdsCounters;
use crate::ann_result::{index_error, AnnResult};
use crate::arith::{div_ceil, greatest, least, max_usize, min_usize, product_is};
use crate::leaf_profile::LeafAdSamplingTelemetry;
use crate::order::{sorts, stable_order};
use crate::sketch_build::{chunks_of, sketch_chunks};
use crate::text::{decimal, with_number, with_numbers};
use crate::topk::Neighbor;

verus! {

/// Whether a matrix has the values of a leaf.
pub fn check_leaf_matrix(values: usize, leaf_size: usize, dim: usize) -> (result: AnnResult<()>)
    ensures
        match result {
            Ok(_) => values == leaf_size * dim,
            Err(error) => values != leaf_size * dim && error.is_index(
                "Invalid leaf ADSampling matrix: len="@ + decimal(values as nat) + " leaf_size="@
                    + decimal(leaf_size as nat) + " dim="@ + decimal(dim as nat) + ""@,
            ),
        },
{
    if !product_is(leaf_size, dim, values) {
        let head: String = with_numbers(
            "Invalid leaf ADSampling matrix: len=",
            values as u64,
            " leaf_size=",
            leaf_size as u64,
            " dim=",
        );
        return Err(index_error(with_number(head.as_str(), dim as u64, "")));
    }
    Ok(())
}

/// Whether a matrix has the values of a leaf that is scanned pair by pair.
pub fn check_wavefront_matrix(
    values: usize,
    leaf_size: usize,
    dim: usize,
) -> (result: AnnResult<()>)
    ensures
        match result {
            Ok(_) => values == leaf_size * dim,
            Err(error) => values != leaf_size * dim && error.is_index(
                "Invalid wavefront pair-mask leaf ADSampling matrix: len="@ + decimal(
                    values as nat,
                ) + " leaf_size="@ + decimal(leaf_size as nat) + " dim="@ + decimal(dim as nat)
                    + ""@,
            ),
        },
{
    if !product_is(leaf_size, dim, values) {
        let head: String = with_numbers(
            "Invalid wavefront pair-mask leaf ADSampling matrix: len=",
            values as u64,
            " leaf_size=",
            leaf_size as u64,
            " dim=",
        );
        return Err(index_error(with_number(head.as_str(), dim as u64, "")));
    }
    Ok(())
}

/// The row ranges of a leaf that is not cut into tiles: where each starts and its length.
pub fn leaf_row_ranges(leaf_size: usize) -> (ranges: Vec<(usize, usize)>)
    ensures
        chunks_of(leaf_size as int, ADS_LEAF_ROW_CHUNK as int, ranges@),
{
    sketch_chunks(leaf_size, ADS_LEAF_ROW_CHUNK)
}

/// What each row of a leaf keeps and is measured against first: `k` others, and as many
/// seeds as are asked for, but no more than there are others.
pub fn leaf_scan_sizes(rows: usize, k: usize, seed_exact: usize) -> (sizes: (usize, usize))
    ensures
        sizes.0 == greatest(least(k as int, rows - 1), 1),
        rows > 0 ==> sizes.1 == least(seed_exact as int, rows - 1),
        rows == 0 ==> sizes.1 == 0,
{
    let others: usize = if rows == 0 {
        0
    } else {
        rows - 1
    };
    (max_usize(min_usize(k, others), 1), min_usize(seed_exact, others))
}

/// The row that a row of a leaf is measured against as its `offset`-th seed.
pub fn seed_row(row: usize, offset: usize, rows: usize) -> (candidate: usize)
    requires
        row < rows,
        offset <= rows,
        2 * rows <= usize::MAX,
    ensures
        candidate == (row + offset) % rows as int,
        candidate < rows,
{
    (row + offset) % rows
}

/// How many workers a tiled leaf asks for: its share, but no more than it has tiles.
pub fn tile_workers(
    runtime: &LeafAdsOperatorRuntime,
    leaf_size: usize,
    tile_rows: usize,
) -> (workers: usize)
    requires
        runtime.wf(),
        tile_rows > 0,
    ensures
        1 <= workers <= runtime.config.cpu_budget,
        workers <= greatest(crate::arith::blocks_for(leaf_size as int, tile_rows as int), 1),
        workers == greatest(
            least(
                if runtime.active_contexts <= 1 {
                    runtime.config.cpu_budget as int
                } else {
                    least(
                        greatest(
                            runtime.config.cpu_budget as int / runtime.active_contexts as int,
                            4,
                        ),
                        runtime.config.cpu_budget as int,
                    )
                },
                greatest(crate::arith::blocks_for(leaf_size as int, tile_rows as int), 1),
            ),
            1,
        ),
{
    let tiles: usize = max_usize(div_ceil(leaf_size, tile_rows), 1);
    max_usize(min_usize(runtime.worker_cap_for_current_contexts(), tiles), 1)
}

/// Rows of a leaf that were not claimed yet.
#[derive(Clone, Copy, Debug, PartialEq, Eq, Structural)]
pub struct TileCursor {
    pub next: usize,
    pub rows: usize,
}

impl TileCursor {
    pub fn new(rows: usize) -> (cursor: Self)
        ensures
            cursor.next == 0,
            cursor.rows == rows,
    {
        TileCursor { next: 0, rows }
    }

    /// Claims the next rows, as many as a tile has or as are left.
    pub fn claim(&mut self, tile_rows: usize) -> (range: Option<(usize, usize)>)
        requires
            tile_rows > 0,
        ensures
            final(self).rows == old(self).rows,
            match range {
                Some((start, end)) => {
                    &&& start == old(self).next
                    &&& end == least(start + tile_rows, old(self).rows as int)
                    &&& start < end
                    &&& final(self).next == end
                },
                None => old(self).next >= old(self).rows && *final(self) == *old(self),
            },
    {
        if self.next >= self.rows {
            return None;
        }
        let start: usize = self.next;
        let end: usize = start + min_usize(tile_rows, self.rows - start);
        self.next = end;
        Some((start, end))
    }

    pub fn exhausted(&self) -> (done: bool)
        ensures
            done == (self.next >= self.rows),
    {
        self.next >= self.rows
    }
}

/// What happens after a tile of a leaf that runs in slices of time.
#[derive(Clone, Copy, Debug, PartialEq, Eq, Structural)]
pub enum SliceStep {
    /// Take the next tile.
    Continue,
    /// Let others run and come back.
    Requeue,
    /// All rows were claimed.
    Finish,
}

/// A slice ends after its time, and the leaf with its last row.
pub fn after_tile(cursor: &TileCursor, elapsed_ns: u64, quantum_ns: u64) -> (step: SliceStep)
    ensures
        step == if elapsed_ns < quantum_ns {
            SliceStep::Continue
        } else if cursor.next >= cursor.rows {
            SliceStep::Finish
        } else {
            SliceStep::Requeue
        },
{
    if elapsed_ns < quantum_ns {
        SliceStep::Continue
    } else if cursor.exhausted() {
        SliceStep::Finish
    } else {
        SliceStep::Requeue
    }
}

/// Rows `row_start..row_end` of a leaf: what each keeps, and what it has cost.
#[derive(Debug)]
pub struct LeafAdSamplingChunk {
    pub row_start: usize,
    pub row_end: usize,
    pub row_topk: Vec<Vec<Neighbor>>,
    pub telemetry: LeafAdSamplingTelemetry,
}

/// The telemetry of a range of rows.
pub fn range_telemetry(
    seed_ns: u64,
    scan_ns: u64,
    counters: &AdsCounters,
) -> (telemetry: LeafAdSamplingTelemetry)
    ensures
        counts_range(telemetry, seed_ns, scan_ns, *counters),
        telemetry.tile_count == 0,
        telemetry.tile_rows_total == 0,
        telemetry.tile_rows_min == 0,
        telemetry.tile_rows_max == 0,
        telemetry.tile_wall == 0,
        !telemetry.work_graph,
{
    let mut telemetry: LeafAdSamplingTelemetry = LeafAdSamplingTelemetry::default();
    telemetry.seed = seed_ns;
    telemetry.scan = scan_ns;
    telemetry.seed_evals = counters.seed_evals;
    telemetry.full_evals = counters.full_evals;
    telemetry.pruned_evals = counters.pruned_evals;
    telemetry.group_evals = counters.group_evals;
    telemetry.simd_group_calls = counters.simd_group_calls;
    telemetry.simd_active_lane_evals = counters.simd_active_lane_evals;
    telemetry.scalar_group_evals = counters.scalar_group_evals;
    telemetry
}

/// The times and counters of the rows, and nothing of tiles and workers.
pub open spec fn counts_range(
    telemetry: LeafAdSamplingTelemetry,
    seed_ns: u64,
    scan_ns: u64,
    counters: AdsCounters,
) -> bool {
    &&& telemetry.seed == seed_ns
    &&& telemetry.scan == scan_ns
    &&& telemetry.seed_evals == counters.seed_evals
    &&& telemetry.full_evals == counters.full_evals
    &&& telemetry.pruned_evals == counters.pruned_evals
    &&& telemetry.group_evals == counters.group_evals
    &&& telemetry.simd_group_calls == counters.simd_group_calls
    &&& telemetry.simd_active_lane_evals == counters.simd_active_lane_evals
    &&& telemetry.scalar_group_evals == counters.scalar_group_evals
    &&& telemetry.layout == 0
    &&& telemetry.tile_wait == 0
    &&& telemetry.tile_handle_requeues == 0
    &&& telemetry.cpu_budget == 0
    &&& telemetry.active_context_peak == 0
    &&& telemetry.active_workers_peak == 0
    &&& !telemetry.tiled
    &&& !telemetry.wavefront_pairmask
}

/// The telemetry of one tile.
pub fn tile_telemetry(
    rows: usize,
    wall_ns: u64,
    seed_ns: u64,
    scan_ns: u64,
    counters: &AdsCounters,
    work_graph: bool,
) -> (telemetry: LeafAdSamplingTelemetry)
    ensures
        counts_range(telemetry, seed_ns, scan_ns, *counters),
        telemetry.tile_count == 1,
        telemetry.tile_rows_total == rows,
        telemetry.tile_rows_min == rows,
        telemetry.tile_rows_max == rows,
        telemetry.tile_wall == wall_ns,
        telemetry.work_graph == work_graph,
{
    let mut telemetry: LeafAdSamplingTelemetry = range_telemetry(seed_ns, scan_ns, counters);
    telemetry.tile_count = 1;
    telemetry.tile_rows_total = rows;
    telemetry.tile_rows_min = rows;
    telemetry.tile_rows_max = rows;
    telemetry.tile_wall = wall_ns;
    telemetry.work_graph = work_graph;
    telemetry
}

/// What the rows of a leaf keep, and what it has cost.
#[derive(Debug)]
pub struct LeafAdSamplingResult {
    pub row_topk: Vec<Vec<Neighbor>>,
    pub telemetry: LeafAdSamplingTelemetry,
}

pub open spec fn row_views(rows: Seq<Vec<Neighbor>>) -> Seq<Seq<Neighbor>> {
    rows.map_values(|row: Vec<Neighbor>| row@)
}

pub open spec fn chunk_keys(chunks: Seq<LeafAdSamplingChunk>) -> Seq<u64> {
    chunks.map_values(|chunk: LeafAdSamplingChunk| chunk.row_start as u64)
}

/// The rows of the first `n` chunks in the given order, one chunk behind the other.
pub open spec fn rows_in_order(chunks: Seq<LeafAdSamplingChunk>, order: Seq<usize>, n: int) -> Seq<
    Seq<Neighbor>,
>
    decreases n,
{
    if n <= 0 {
        Seq::<Seq<Neighbor>>::empty()
    } else {
        rows_in_order(chunks, order, n - 1) + row_views(chunks[order[n - 1] as int].row_topk@)
    }
}

/// Times and counters of `steps` are those of the chunks in order, added one by one.
pub open spec fn telemetry_adds_up(
    steps: Seq<LeafAdSamplingTelemetry>,
    chunks: Seq<LeafAdSamplingChunk>,
    order: Seq<usize>,
) -> bool {
    &&& steps.len() == order.len() + 1
    &&& forall|i: int|
        0 <= i < order.len() ==> (#[trigger] steps[i + 1]).merges(
            steps[i],
            chunks[order[i] as int].telemetry,
        )
}

/// The telemetry that a tiled leaf starts from.
pub open spec fn tiled_start(
    telemetry: LeafAdSamplingTelemetry,
    layout_ns: u64,
    wait_ns: u64,
    runtime: LeafAdsOperatorRuntime,
) -> bool {
    &&& telemetry.layout == layout_ns
    &&& telemetry.tiled
    &&& telemetry.tile_wait == wait_ns
    &&& telemetry.cpu_budget == runtime.config.cpu_budget
    &&& telemetry.active_context_peak == runtime.active_context_peak
    &&& telemetry.active_workers_peak == runtime.active_workers_peak
    &&& telemetry.ewma_ns_per_row_by_bucket@ == runtime.ewma_ns_per_row_by_bucket@
    &&& telemetry.seed == 0 && telemetry.scan == 0 && telemetry.seed_evals == 0
        && telemetry.full_evals == 0 && telemetry.pruned_evals == 0 && telemetry.group_evals == 0
        && telemetry.simd_group_calls == 0 && telemetry.simd_active_lane_evals == 0
        && telemetry.scalar_group_evals == 0 && telemetry.tile_count == 0
        && telemetry.tile_rows_total == 0 && telemetry.tile_rows_min == 0
        && telemetry.tile_rows_max == 0 && telemetry.tile_wall == 0
        && telemetry.tile_handle_requeues == 0 && !telemetry.wavefront_pairmask
        && !telemetry.work_graph
}

/// No counter is over `limit`, and none that is as wide as a length is over `length`.
pub open spec fn counters_within(t: LeafAdSamplingTelemetry, limit: int, length: int) -> bool {
    &&& t.layout <= limit && t.seed <= limit && t.scan <= limit && t.seed_evals <= limit
    &&& t.full_evals <= limit && t.pruned_evals <= limit && t.group_evals <= limit
    &&& t.simd_group_calls <= limit && t.simd_active_lane_evals <= limit
    &&& t.scalar_group_evals <= limit && t.tile_wall <= limit && t.tile_wait <= limit
    &&& t.tile_count <= length && t.tile_rows_total <= length && t.tile_handle_requeues <= length
}

fn copy_row(row: &Vec<Neighbor>) -> (copy: Vec<Neighbor>)
    ensures
        copy@ == row@,
{
    let mut copy: Vec<Neighbor> = Vec::with_capacity(row.len());
    for i in 0..row.len()
        invariant
            copy@ == row@.take(i as int),
    {
        copy.push(row[i]);
        proof {
            assert(copy@ =~= row@.take(i + 1));
        }
    }
    proof {
        assert(copy@ =~= row@);
    }
    copy
}

fn append_rows(rows: &mut Vec<Vec<Neighbor>>, more: &Vec<Vec<Neighbor>>)
    ensures
        row_views(final(rows)@) == row_views(old(rows)@) + row_views(more@),
{
    for i in 0..more.len()
        invariant
            row_views(rows@) == row_views(old(rows)@) + row_views(more@.take(i as int)),
    {
        let ghost before = rows@;
        rows.push(copy_row(&more[i]));
        proof {
            assert(row_views(rows@) =~= row_views(before).push(more@[i as int]@));
            assert(row_views(more@.take(i + 1)) =~= row_views(more@.take(i as int)).push(
                more@[i as int]@,
            ));
        }
    }
    proof {
        assert(more@.take(more@.len() as int) =~= more@);
    }
}

/// Joins the chunks of a leaf in the given order, and adds up what they have cost.
fn join_chunks(
    chunks: &Vec<LeafAdSamplingChunk>,
    order: &Vec<usize>,
    start: LeafAdSamplingTelemetry,
) -> (result: LeafAdSamplingResult)
    requires
        order@.len() == chunks@.len(),
        forall|i: int| 0 <= i < order@.len() ==> #[trigger] order@[i] < chunks@.len(),
        counters_within(
            start,
            u64::MAX as int / (chunks@.len() + 1) as int,
            usize::MAX as int / (chunks@.len() + 1) as int,
        ),
        forall|i: int|
            0 <= i < chunks@.len() ==> counters_within(
                (#[trigger] chunks@[i]).telemetry,
                u64::MAX as int / (chunks@.len() + 1) as int,
                usize::MAX as int / (chunks@.len() + 1) as int,
            ),
    ensures
        row_views(result.row_topk@) == rows_in_order(chunks@, order@, chunks@.len() as int),
        exists|steps: Seq<LeafAdSamplingTelemetry>|
            {
                &&& #[trigger] telemetry_adds_up(steps, chunks@, order@)
                &&& steps[0] == start
                &&& steps[chunks@.len() as int] == result.telemetry
            },
{
    let total: usize = chunks.len();
    let mut telemetry: LeafAdSamplingTelemetry = start;
    let ghost mut steps: Seq<LeafAdSamplingTelemetry> = seq![telemetry];
    let ghost limit = u64::MAX as int / (chunks@.len() + 1) as int;
    let ghost length = usize::MAX as int / (chunks@.len() + 1) as int;
    proof {
        lemma_share(u64::MAX as int, total + 1);
        lemma_share(usize::MAX as int, total + 1);
        assert(1 * limit == limit && 1 * length == length);
    }
    let mut row_topk: Vec<Vec<Neighbor>> = Vec::new();
    for i in 0..order.len()
        invariant
            total == chunks@.len(),
            order@.len() == total,
            forall|k: int| 0 <= k < order@.len() ==> #[trigger] order@[k] < chunks@.len(),
            steps.len() == i + 1,
            steps[0] == start,
            steps[i as int] == telemetry,
            forall|k: int|
                0 <= k < i ==> (#[trigger] steps[k + 1]).merges(
                    steps[k],
                    chunks@[order@[k] as int].telemetry,
                ),
            row_views(row_topk@) == rows_in_order(chunks@, order@, i as int),
            limit >= 0,
            length >= 0,
            limit * (total + 1) <= u64::MAX,
            length * (total + 1) <= usize::MAX,
            counters_within(telemetry, (i + 1) * limit, (i + 1) * length),
            forall|k: int|
                0 <= k < chunks@.len() ==> counters_within(
                    (#[trigger] chunks@[k]).telemetry,
                    limit,
                    length,
                ),
    {
        let at: usize = order[i];
        proof {
            assert(counters_within(chunks@[at as int].telemetry, limit, length));
            assert((i + 2) * limit == (i + 1) * limit + limit && (i + 2) * length == (i + 1)
                * length + length) by (nonlinear_arith);
            assert((i + 2) * limit <= limit * (total + 1) && (i + 2) * length <= length * (total
                + 1)) by (nonlinear_arith)
                requires
                    i < total,
                    limit >= 0,
                    length >= 0,
            ;
        }
        let ghost before = steps;
        telemetry.merge(chunks[at].telemetry);
        proof {
            steps = steps.push(telemetry);
            assert forall|k: int| 0 <= k < i + 1 implies (#[trigger] steps[k + 1]).merges(
                steps[k],
                chunks@[order@[k] as int].telemetry,
            ) by {
                if k < i {
                    assert(steps[k + 1] == before[k + 1]);
                    assert(steps[k] == before[k]);
                }
            }
        }
        append_rows(&mut row_topk, &chunks[at].row_topk);
    }
    proof {
        assert(telemetry_adds_up(steps, chunks@, order@));
    }
    LeafAdSamplingResult { row_topk, telemetry }
}

/// Puts the chunks of a leaf in row order and adds up what they have cost.
pub fn finalize_leaf_ads_tiles(
    chunks: &Vec<LeafAdSamplingChunk>,
    layout_ns: u64,
    wait_ns: u64,
    runtime: &LeafAdsOperatorRuntime,
) -> (result: LeafAdSamplingResult)
    requires
        layout_ns as int <= u64::MAX as int / (chunks@.len() + 1) as int,
        wait_ns as int <= u64::MAX as int / (chunks@.len() + 1) as int,
        forall|i: int|
            0 <= i < chunks@.len() ==> counters_within(
                (#[trigger] chunks@[i]).telemetry,
                u64::MAX as int / (chunks@.len() + 1) as int,
                usize::MAX as int / (chunks@.len() + 1) as int,
            ),
    ensures
        exists|order: Seq<usize>, steps: Seq<LeafAdSamplingTelemetry>|
            #![trigger telemetry_adds_up(steps, chunks@, order)]
            {
                &&& sorts(chunk_keys(chunks@), order)
                &&& row_views(result.row_topk@) == rows_in_order(
                    chunks@,
                    order,
                    chunks@.len() as int,
                )
                &&& telemetry_adds_up(steps, chunks@, order)
                &&& tiled_start(steps[0], layout_ns, wait_ns, *runtime)
                &&& steps[chunks@.len() as int] == result.telemetry
            },
{
    let total: usize = chunks.len();
    let mut keys: Vec<u64> = Vec::with_capacity(total);
    for i in 0..total
        invariant
            total == chunks@.len(),
            keys@ == chunk_keys(chunks@.take(i as int)),
    {
        keys.push(chunks[i].row_start as u64);
        proof {
            assert(keys@ =~= chunk_keys(chunks@.take(i + 1)));
        }
    }
    proof {
        assert(chunks@.take(total as int) =~= chunks@);
    }
    let order: Vec<usize> = stable_order(&keys);
    let mut telemetry: LeafAdSamplingTelemetry = LeafAdSamplingTelemetry::default();
    telemetry.layout = layout_ns;
    telemetry.tiled = true;
    telemetry.tile_wait = wait_ns;
    telemetry.cpu_budget = runtime.cpu_budget();
    telemetry.active_context_peak = runtime.active_context_peak;
    telemetry.active_workers_peak = runtime.active_workers_peak;
    telemetry.ewma_ns_per_row_by_bucket = runtime.ewma_snapshot();
    proof {
        lemma_share(u64::MAX as int, total + 1);
        lemma_share(usize::MAX as int, total + 1);
    }
    join_chunks(chunks, &order, telemetry)
}

/// Joins the row ranges of a leaf that was not cut into tiles, as they stand, and adds up
/// what they have cost.
pub fn finalize_leaf_ads_ranges(
    chunks: &Vec<LeafAdSamplingChunk>,
    layout_ns: u64,
) -> (result: LeafAdSamplingResult)
    requires
        layout_ns as int <= u64::MAX as int / (chunks@.len() + 1) as int,
        forall|i: int|
            0 <= i < chunks@.len() ==> counters_within(
                (#[trigger] chunks@[i]).telemetry,
                u64::MAX as int / (chunks@.len() + 1) as int,
                usize::MAX as int / (chunks@.len() + 1) as int,
            ),
    ensures
        row_views(result.row_topk@) == rows_in_order(
            chunks@,
            as_given(chunks@.len()),
            chunks@.len() as int,
        ),
        exists|steps: Seq<LeafAdSamplingTelemetry>|
            {
                &&& #[trigger] telemetry_adds_up(steps, chunks@, as_given(chunks@.len()))
                &&& untiled_start(steps[0], layout_ns)
                &&& steps[chunks@.len() as int] == result.telemetry
            },
{
    let total: usize = chunks.len();
    let mut order: Vec<usize> = Vec::with_capacity(total);
    for i in 0..total
        invariant
            order@ == as_given(i as nat),
    {
        order.push(i);
        proof {
            assert(order@ =~= as_given((i + 1) as nat));
        }
    }
    let mut telemetry: LeafAdSamplingTelemetry = LeafAdSamplingTelemetry::default();
    telemetry.layout = layout_ns;
    proof {
        lemma_share(u64::MAX as int, total + 1);
        lemma_share(usize::MAX as int, total + 1);
    }
    join_chunks(chunks, &order, telemetry)
}

/// Chunks in the order in which they stand.
pub open spec fn as_given(n: nat) -> Seq<usize> {
    Seq::new(n, |i: int| i as usize)
}

/// The telemetry that a leaf without tiles starts from.
pub open spec fn untiled_start(telemetry: LeafAdSamplingTelemetry, layout_ns: u64) -> bool {
    &&& telemetry.layout == layout_ns
    &&& !telemetry.tiled && !telemetry.wavefront_pairmask && !telemetry.work_graph
    &&& telemetry.tile_wait == 0 && telemetry.cpu_budget == 0 && telemetry.active_context_peak == 0
        && telemetry.active_workers_peak == 0 && telemetry.seed == 0 && telemetry.scan == 0
        && telemetry.seed_evals == 0 && telemetry.full_evals == 0 && telemetry.pruned_evals == 0
        && telemetry.group_evals == 0 && telemetry.simd_group_calls == 0
        && telemetry.simd_active_lane_evals == 0 && telemetry.scalar_group_evals == 0
        && telemetry.tile_count == 0 && telemetry.tile_rows_total == 0 && telemetry.tile_rows_min
        == 0 && telemetry.tile_rows_max == 0 && telemetry.tile_wall == 0
        && telemetry.tile_handle_requeues == 0
}

proof fn lemma_share(whole: int, parts: int)
    requires
        whole >= 0,
        parts > 0,
    ensures
        whole / parts >= 0,
        (whole / parts) * parts <= whole,
{
    vstd::arithmetic::div_mod::lemma_fundamental_div_mod(whole, parts);
    vstd::arithmetic::div_mod::lemma_mod_bound(whole, parts);
    vstd::arithmetic::div_mod::lemma_div_pos_is_pos(whole, parts);
    assert((whole / parts) * parts == parts * (whole / parts)) by (nonlinear_arith);
}

/// The chunks in order lie end to end from row 0 on, and each has its rows.
pub open spec fn end_to_end(chunks: Seq<LeafAdSamplingChunk>, order: Seq<usize>, n: int) -> bool {
    forall|i: int|
        0 <= i < n ==> {
            let chunk = chunks[#[trigger] order[i] as int];
            &&& chunk.row_start == rows_in_order(chunks, order, i).len()
            &&& chunk.row_end == chunk.row_start + chunk.row_topk@.len()
        }
}

/// Where the chunks cover the leaf, each row of the result is what its chunk holds for
/// it, whichever worker had the chunk and whenever it came.
pub proof fn law_tiles_keep_row_order(
    chunks: Seq<LeafAdSamplingChunk>,
    order: Seq<usize>,
    n: int,
    i: int,
    row: int,
)
    requires
        0 <= i < n <= order.len(),
        end_to_end(chunks, order, n),
        chunks[order[i] as int].row_start <= row < chunks[order[i] as int].row_end,
    ensures
        rows_in_order(chunks, order, n).len() > row,
        rows_in_order(chunks, order, n)[row] == chunks[order[i] as int].row_topk@[row
            - chunks[order[i] as int].row_start]@,
    decreases n,
{
    if i < n - 1 {
        assert(end_to_end(chunks, order, n - 1));
        law_tiles_keep_row_order(chunks, order, n - 1, i, row);
    } else {
        let chunk = chunks[order[i] as int];
        assert(chunk.row_start == rows_in_order(chunks, order, i).len());
    }
}

} // verus!
