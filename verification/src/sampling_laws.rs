//! What the settings of sampling come to, said of rows, workers and times.

use vstd::arithmetic::div_mod::{
    lemma_fundamental_div_mod, lemma_mod_bound, lemma_mod_multiples_basic,
};
use vstd::arithmetic::power2::pow2;
use vstd::prelude::*;

use crate::ads_assign::{local_fanout, AssignmentPlan};
use crate::ads_config::{
    ads_gap_rows, ads_window_bytes, assignment_chunk_rows, automatic_budget, depth_fallback,
    samples_root, tile_aligned, AdSamplingConfig, AdsOverrides, LeafAdsOperatorRuntime,
};
use crate::arith::{blocks_for, capped, capped_u64, greatest, least};
use crate::io_plan_laws::lemma_blocks;
use crate::leaf_profile::size_bucket;
use crate::params::ForgeANNParams;

verus! {

/// Rows are rounded up to whole tiles of eight queries, and no farther.
pub proof fn law_tiles_are_whole(rows: int)
    requires
        0 <= rows,
    ensures
        tile_aligned(rows) % 8 == 0,
        tile_aligned(rows) >= 8,
        rows <= tile_aligned(rows),
        rows > 0 ==> tile_aligned(rows) < rows + 8,
{
    lemma_blocks(greatest(rows, 1), 8);
    lemma_mod_multiples_basic(blocks_for(greatest(rows, 1), 8), 8);
}

/// Of three workers or more at least two are left to others, and an eighth of them; never
/// all are.
pub proof fn law_automatic_budget_leaves_an_eighth(workers: int)
    requires
        1 <= workers,
    ensures
        1 <= automatic_budget(workers) <= workers,
        workers <= 2 ==> automatic_budget(workers) == 1,
        3 <= workers < 24 ==> automatic_budget(workers) == workers - 2,
        24 <= workers ==> workers - 8 < 8 * (workers - automatic_budget(workers)) <= workers,
{
}

/// A request for workers is granted exactly where one is left: as many as asked for, at
/// least one, or all that are left where that is fewer.
pub proof fn law_workers_are_granted_as_far_as_they_go(
    runtime: LeafAdsOperatorRuntime,
    requested: int,
)
    ensures
        runtime.granted(requested) is Some <==> runtime.active_workers < runtime.config.cpu_budget,
        runtime.granted(requested) matches Some(count) ==> {
            &&& 1 <= count
            &&& runtime.active_workers + count <= runtime.config.cpu_budget
            &&& requested >= 1 ==> count <= requested
            &&& requested < 1 ==> count == 1
            &&& count < requested ==> runtime.active_workers + count == runtime.config.cpu_budget
        },
{
}

/// A tile has whole query tiles within its bounds. Where the bounds leave it room it takes
/// as many rows as the known cost fits into the tile time.
pub proof fn law_tile_rows_fit_the_tile_time(runtime: LeafAdsOperatorRuntime, bucket: int)
    requires
        runtime.config.min_tile_rows <= runtime.config.max_tile_rows,
        runtime.config.target_tile_ms * 1_000_000 <= u64::MAX,
        runtime.config.target_tile_ms * 1_000_000 <= usize::MAX,
        0 <= bucket < 4,
    ensures
        ({
            let rows = runtime.tile_rows(bucket);
            let cost = runtime.ewma_ns_per_row_by_bucket@[bucket] as int;
            let time = runtime.config.target_tile_ms * 1_000_000;
            &&& rows % 8 == 0 && rows >= 8
            &&& rows >= runtime.config.min_tile_rows
            &&& rows < runtime.config.max_tile_rows + 8 || rows == 8
            &&& cost > 0 && rows > 8 && rows - 8 >= runtime.config.min_tile_rows ==> (rows - 7)
                * cost <= time
            &&& cost > 0 && rows < runtime.config.max_tile_rows ==> (rows + 1) * cost > time
            &&& cost == 0 && runtime.config.min_tile_rows <= 256
                <= runtime.config.max_tile_rows ==> rows == 256
        }),
{
    let cost = runtime.ewma_ns_per_row_by_bucket@[bucket] as int;
    let time = runtime.config.target_tile_ms * 1_000_000;
    let low = runtime.config.min_tile_rows as int;
    let high = runtime.config.max_tile_rows as int;
    let rows = runtime.tile_rows(bucket);
    if cost > 0 {
        let fitting = time / cost;
        lemma_fundamental_div_mod(time, cost);
        lemma_mod_bound(time, cost);
        assert(cost * fitting == fitting * cost) by (nonlinear_arith);
        assert(0 <= fitting <= time) by (nonlinear_arith)
            requires
                fitting == time / cost,
                time >= 0,
                cost >= 1,
        ;
        assert(capped(capped_u64(time) / cost) == fitting);
        let bounded = if fitting < low {
            low
        } else if fitting > high {
            high
        } else {
            fitting
        };
        law_tiles_are_whole(bounded);
        if rows > 8 && rows - 8 >= low {
            assert((rows - 7) * cost <= fitting * cost) by (nonlinear_arith)
                requires
                    rows - 7 <= fitting,
                    cost >= 1,
            ;
        }
        if rows < high {
            assert((rows + 1) * cost >= (fitting + 1) * cost) by (nonlinear_arith)
                requires
                    rows >= fitting,
                    cost >= 1,
            ;
            assert((fitting + 1) * cost == fitting * cost + cost) by (nonlinear_arith);
        }
    } else {
        law_tiles_are_whole(256);
        law_tiles_are_whole(low);
        law_tiles_are_whole(high);
    }
}

/// The first tile sets what a row costs, and each later one moves it by an eighth of the
/// way, rounded down. A tile's own cost is its time over its rows, and one at least.
pub proof fn law_costs_move_by_an_eighth(cost: int, rows: int, elapsed: int, sample: int)
    requires
        0 <= cost,
        1 <= rows,
        0 <= elapsed,
        1 <= sample,
        sample * rows <= elapsed < (sample + 1) * rows || (sample == 1 && elapsed < rows),
        7 * cost + sample <= u64::MAX,
    ensures
        cost == 0 ==> LeafAdsOperatorRuntime::cost_after(cost, rows, elapsed) == sample,
        cost > 0 ==> 8 * LeafAdsOperatorRuntime::cost_after(cost, rows, elapsed) <= 7 * cost
            + sample < 8 * LeafAdsOperatorRuntime::cost_after(cost, rows, elapsed) + 8,
        cost > 0 && sample <= cost ==> LeafAdsOperatorRuntime::cost_after(cost, rows, elapsed)
            <= cost,
        cost > 0 && sample >= cost ==> LeafAdsOperatorRuntime::cost_after(cost, rows, elapsed)
            >= cost,
{
    let share = elapsed / rows;
    lemma_fundamental_div_mod(elapsed, rows);
    lemma_mod_bound(elapsed, rows);
    assert(rows * share == share * rows) by (nonlinear_arith);
    if elapsed >= rows {
        assert(share == sample) by (nonlinear_arith)
            requires
                share * rows <= elapsed < share * rows + rows,
                sample * rows <= elapsed < (sample + 1) * rows,
                rows >= 1,
        ;
    } else {
        assert(share == 0) by (nonlinear_arith)
            requires
                share == elapsed / rows,
                0 <= elapsed < rows,
        ;
        assert(sample == 1) by (nonlinear_arith)
            requires
                sample == 1 || sample * rows <= elapsed,
                elapsed < rows,
                rows >= 1,
                sample >= 1,
        ;
    }
}

/// A setting for the place comes before one for all, and that before the parameters'. There
/// is a dimension in each group, and a seed for each that is kept.
pub proof fn law_nearer_settings_come_first(
    params: ForgeANNParams,
    fanout: int,
    near: AdsOverrides,
    far: AdsOverrides,
)
    requires
        0 <= fanout <= usize::MAX,
    ensures
        ({
            let root = AdSamplingConfig::for_root(params, fanout, near, far);
            let depth = AdSamplingConfig::for_depth(params, fanout, near, far);
            let leaf = AdSamplingConfig::for_leaf(params, fanout, near);
            &&& near.epsilon matches Some(value) ==> root.epsilon == value && depth.epsilon == value
                && leaf.epsilon == value
            &&& near.epsilon is None && far.epsilon is None ==> root.epsilon
                == params.adsampling_epsilon && depth.epsilon == params.adsampling_epsilon
            &&& near.epsilon is None ==> leaf.epsilon == params.adsampling_epsilon
            &&& near.epsilon is None && far.epsilon is Some ==> Some(root.epsilon) == far.epsilon
                && Some(depth.epsilon) == far.epsilon
            &&& near.group_dims matches Some(value) ==> value >= 1 ==> root.group_dims == value
                && depth.group_dims == value && leaf.group_dims == value
            &&& near.group_dims is None && far.group_dims is Some && far.group_dims->0 >= 1
                ==> root.group_dims == far.group_dims->0 && depth.group_dims == far.group_dims->0
            &&& near.group_dims is None && far.group_dims is None && params.adsampling_group_dims
                >= 1 ==> root.group_dims == params.adsampling_group_dims && depth.group_dims
                == params.adsampling_group_dims
            &&& near.group_dims is None && params.adsampling_group_dims >= 1 ==> leaf.group_dims
                == params.adsampling_group_dims
            &&& root.group_dims >= 1 && depth.group_dims >= 1 && leaf.group_dims >= 1
            &&& root.seed_exact >= fanout && depth.seed_exact >= fanout && leaf.seed_exact >= fanout
            &&& root.seed_exact >= 1 && depth.seed_exact >= 1 && leaf.seed_exact >= 1
            &&& near.seed_exact matches Some(value) ==> value >= 1 && value >= fanout
                ==> root.seed_exact == value
            &&& near.validate_sources matches Some(value) ==> root.validate_sources == value
            &&& depth.validate_sources == 0 && leaf.validate_sources == 0
        }),
{
}

/// Below the root sampling is used exactly at the depths that have it, for points that are
/// there, where each takes two leaders or more and there are more leaders than that.
pub proof fn law_depth_sampling_needs_a_choice(
    params: ForgeANNParams,
    depth: int,
    points: int,
    leaders: int,
    fanout: int,
)
    requires
        0 <= depth,
        0 <= points,
        0 <= fanout,
    ensures
        depth_fallback(params, depth, points, leaders, fanout) is None <==> 1 <= depth
            <= crate::params::ADS_DEPTH_MAX_DEPTH && points >= 1 && 2 <= fanout < leaders
            && params.adsampling_group_dims >= 1,
        samples_root(params, points, leaders, fanout) <==> params.root_adsampling_enable
            && params.adsampling_rotation_ready && points >= 1 && leaders >= 2 && leaders > fanout,
{
}

/// Chunks share the points out evenly: there are no more chunks than threads unless a chunk
/// is as large as it may be, and smaller chunks would be more than that unless they are as
/// small as they may be.
pub proof fn law_chunks_share_the_points_out(points: int, threads: int)
    requires
        1 <= points,
        1 <= threads,
    ensures
        256 <= assignment_chunk_rows(points, threads) <= 8192,
        assignment_chunk_rows(points, threads) < 8192 ==> assignment_chunk_rows(points, threads)
            * threads >= points,
        assignment_chunk_rows(points, threads) > 256 ==> (assignment_chunk_rows(points, threads)
            - 1) * threads < points,
{
    let most = blocks_for(points, 256);
    lemma_blocks(points, 256);
    let blocks = least(threads, most);
    lemma_blocks(points, blocks);
    let share = blocks_for(points, blocks);
    let rows = assignment_chunk_rows(points, threads);
    if rows < 8192 {
        if share >= 256 {
            assert(rows == share);
        }
        assert(rows * threads >= share * blocks) by (nonlinear_arith)
            requires
                rows >= share,
                threads >= blocks,
                share >= 0,
                blocks >= 1,
        ;
    }
    if rows > 256 {
        assert(share > 256);
        assert((share - 1) * blocks >= 256 * blocks) by (nonlinear_arith)
            requires
                share - 1 >= 256,
                blocks >= 1,
        ;
        if blocks == most {
            assert(blocks * 256 == 256 * blocks);
        }
        assert(blocks == threads);
        assert((rows - 1) * threads <= (share - 1) * threads) by (nonlinear_arith)
            requires
                rows <= share,
                threads >= 1,
        ;
    }
}

/// A window holds the rows that are asked for, as far as 4 mebibytes go, and 256 kibibytes
/// at least; where reads should be coalesced, a larger one that is set. Rows between wanted
/// ones never fill a whole window.
pub proof fn law_windows_hold_the_rows(
    dim: int,
    rows: int,
    coalesced: bool,
    set: Option<usize>,
    gap: Option<usize>,
)
    requires
        1 <= dim,
        1 <= rows,
        4 * dim <= usize::MAX,
        (4 * dim) * rows <= usize::MAX,
    ensures
        ({
            let plain = ads_window_bytes(dim, rows, false, set);
            let bytes = ads_window_bytes(dim, rows, coalesced, set);
            let between = ads_gap_rows(dim, bytes, coalesced, gap);
            &&& 0x4_0000 <= plain <= 0x40_0000
            &&& plain < 0x40_0000 ==> plain >= (4 * dim) * rows
            &&& plain > 0x4_0000 ==> plain <= (4 * dim) * rows
            &&& bytes >= plain
            &&& bytes > plain ==> coalesced && set == Some(bytes as usize)
            &&& coalesced && set is Some && set->0 > plain ==> bytes == set->0
            &&& !coalesced ==> (between == 1 <==> dim <= 1024) && (between == 0 <==> dim > 1024)
            &&& coalesced && gap is Some && gap->0 <= u32::MAX ==> between == gap->0
            &&& coalesced && gap is None && 4 * dim <= bytes && bytes <= u32::MAX ==> (between + 1)
                * (4 * dim) <= bytes < (between + 2) * (4 * dim)
        }),
{
    let bytes = ads_window_bytes(dim, rows, coalesced, set);
    let row = 4 * dim;
    assert(capped(dim * 4) == row);
    assert(capped(row * rows) == row * rows);
    if coalesced && gap is None && row <= bytes && bytes <= u32::MAX {
        let fitting = bytes / row;
        lemma_fundamental_div_mod(bytes, row);
        lemma_mod_bound(bytes, row);
        assert(row * fitting == fitting * row) by (nonlinear_arith);
        assert(1 <= fitting <= bytes) by (nonlinear_arith)
            requires
                fitting == bytes / row,
                row <= bytes,
                row >= 1,
        ;
        assert((fitting + 1) * row == fitting * row + row) by (nonlinear_arith);
    }
}

/// A point takes as many leaders as it is asked to, but one at least, no more than 32 and no
/// more than there are.
pub proof fn law_fanout_stays_within_the_leaders(requested: int, leaders: int)
    requires
        0 <= requested,
        1 <= leaders,
    ensures
        1 <= local_fanout(requested, leaders) <= 32,
        local_fanout(requested, leaders) <= leaders,
        requested >= 1 ==> local_fanout(requested, leaders) <= requested,
        local_fanout(requested, leaders) < requested ==> local_fanout(requested, leaders)
            == leaders || local_fanout(requested, leaders) == 32,
{
}

/// The chunks of an assignment hold all points, and one chunk fewer does not. There is a
/// seed for each leader that a point takes, as far as there are leaders.
pub proof fn law_assignment_chunks_hold_all_points(
    params: ForgeANNParams,
    points: int,
    leaders: int,
    requested_fanout: int,
    depth: int,
    level: AdsOverrides,
    general: AdsOverrides,
    threads: int,
    inside_pool: bool,
)
    requires
        1 <= points <= usize::MAX,
        1 <= leaders <= usize::MAX,
        0 <= requested_fanout,
        1 <= threads,
        2 * threads <= usize::MAX,
    ensures
        ({
            let plan = AssignmentPlan::planned(
                params,
                points,
                leaders,
                requested_fanout,
                depth,
                level,
                general,
                threads,
                inside_pool,
            );
            &&& plan.chunks * plan.chunk_rows >= points
            &&& plan.chunks >= 1
            &&& (plan.chunks - 1) * plan.chunk_rows < points
            &&& plan.fanout <= leaders
            &&& plan.fanout <= plan.seeds <= leaders
            &&& plan.queue_len == 2 * threads
            &&& plan.inside_pool == inside_pool
        }),
{
    let rows = assignment_chunk_rows(points, threads);
    law_chunks_share_the_points_out(points, threads);
    lemma_blocks(points, rows);
    let chunks = blocks_for(points, rows);
    assert(chunks <= points) by (nonlinear_arith)
        requires
            (chunks - 1) * rows < points,
            rows >= 256,
            points >= 1,
    ;
}

/// Leaves of 256 points or more are told apart by their sizes: each class starts at twice
/// the size of the one before, and the last one has no end.
pub proof fn law_size_classes_double(leaf_size: int)
    requires
        0 <= leaf_size,
    ensures
        size_bucket(leaf_size) is None <==> leaf_size < 256,
        size_bucket(leaf_size) matches Some(class) ==> {
            &&& class <= 4
            &&& leaf_size >= 256 * pow2(class as nat)
            &&& class < 4 ==> leaf_size < 512 * pow2(class as nat)
        },
{
    vstd::arithmetic::power2::lemma2_to64();
}

} // verus!
