//! What is counted, and under which name.

use vstd::prelude::*;

use crate::ads_config::LeafAdsOperatorRuntime;
use crate::ads_leaf::{counts_range, tiled_start, untiled_start};
use crate::ads_scan::AdsCounters;
use crate::gather::WindowedGatherStats;
use crate::io_plan::{IoPlanConfig, NodeAction, NodeExecutionPlan, PlannerCounters};
use crate::io_stats::{DepthIoPainStats, IoPlannerStats};
use crate::lane_mask::{group_set, groups_set, lane};
use crate::leaf_profile::{LeafAdSamplingTelemetry, LeafProfile, LeafSizeBucketProfile};
use crate::oom_files::TempFileReport;
use crate::resident_prefix::resident_counters;

verus! {

/// What a sampled leaf adds to a profile is what its sampling has counted, as one leaf with its
/// rows, and nothing else.
pub proof fn law_sampled_leaf_counts_its_telemetry(profile: LeafProfile, leaf_size: int,
    telemetry: LeafAdSamplingTelemetry)
    requires
        profile.is_sampled_leaf(leaf_size, telemetry),
    ensures
        profile.leaf_adsampling_layout == telemetry.layout,
        profile.leaf_adsampling_seed == telemetry.seed,
        profile.leaf_adsampling_scan == telemetry.scan,
        profile.leaf_adsampling_seed_evals == telemetry.seed_evals,
        profile.leaf_adsampling_full_evals == telemetry.full_evals,
        profile.leaf_adsampling_pruned_evals == telemetry.pruned_evals,
        profile.leaf_adsampling_group_evals == telemetry.group_evals,
        profile.leaf_adsampling_simd_group_calls == telemetry.simd_group_calls,
        profile.leaf_adsampling_simd_active_lane_evals == telemetry.simd_active_lane_evals,
        profile.leaf_adsampling_scalar_group_evals == telemetry.scalar_group_evals,
        profile.leaf_ads_tiles == telemetry.tile_count,
        profile.leaf_ads_tile_rows_total == telemetry.tile_rows_total,
        profile.leaf_ads_tile_wall == telemetry.tile_wall,
        profile.leaf_ads_tile_wait == telemetry.tile_wait,
        profile.leaf_ads_handle_requeues == telemetry.tile_handle_requeues,
        profile.leaf_ads_tiling_enabled == telemetry.tiled,
        profile.leaf_ads_wavefront_pairmask_enabled == telemetry.wavefront_pairmask,
        profile.leaf_ads_work_graph_enabled == telemetry.work_graph,
        profile.leaf_ads_tile_rows_min == telemetry.tile_rows_min,
        profile.leaf_ads_tile_rows_max == telemetry.tile_rows_max,
        profile.leaf_ads_cpu_budget == telemetry.cpu_budget,
        profile.leaf_ads_active_context_peak == telemetry.active_context_peak,
        profile.leaf_ads_active_workers_peak == telemetry.active_workers_peak,
        profile.leaf_ads_ewma_ns_per_row_by_bucket@ == telemetry.ewma_ns_per_row_by_bucket@,
        profile.leaf_adsampling_leaves == 1,
        profile.leaf_adsampling_rows == leaf_size,
        profile.leaf_ads_tiled_leaves == (if telemetry.tiled { 1int } else { 0 }),
        profile.leaf_ads_tiled_rows == (if telemetry.tiled { leaf_size } else { 0 }),
        profile.total_wall == 0,
        profile.load == 0,
        profile.distance == 0,
        profile.topk == 0,
        profile.hash == 0,
        profile.flush == 0,
        profile.leaves == 0,
        profile.points == 0,
        profile.blockwise_leaves == 0,
        profile.point_calls == 0,
        profile.range_calls == 0,
        profile.range_rows_read == 0,
        profile.bytes_read == 0,
        profile.sketch_prefetch == 0,
        profile.sketch_rows_prefetched == 0,
        profile.lune_witness_emit == 0,
        profile.lune_witness_records == 0,
{
}

/// The telemetry of a range of rows holds the times and counters of its scan, each under its own
/// name.
pub proof fn law_row_range_counts_its_scan(telemetry: LeafAdSamplingTelemetry, seed_ns: u64,
    scan_ns: u64, counters: AdsCounters)
    requires
        counts_range(telemetry, seed_ns, scan_ns, counters),
    ensures
        telemetry.seed == seed_ns,
        telemetry.scan == scan_ns,
        telemetry.seed_evals == counters.seed_evals,
        telemetry.full_evals == counters.full_evals,
        telemetry.pruned_evals == counters.pruned_evals,
        telemetry.group_evals == counters.group_evals,
        telemetry.simd_group_calls == counters.simd_group_calls,
        telemetry.simd_active_lane_evals == counters.simd_active_lane_evals,
        telemetry.scalar_group_evals == counters.scalar_group_evals,
        telemetry.layout == 0,
        telemetry.tile_wait == 0,
        telemetry.tile_handle_requeues == 0,
        telemetry.cpu_budget == 0,
        telemetry.active_context_peak == 0,
        telemetry.active_workers_peak == 0,
        !telemetry.tiled,
        !telemetry.wavefront_pairmask,
{
}

/// A leaf that is cut into tiles starts with nothing counted but what its layout took and what
/// the runtime has seen.
pub proof fn law_tiled_leaf_starts_from_its_runtime(telemetry: LeafAdSamplingTelemetry,
    layout_ns: u64, wait_ns: u64, runtime: LeafAdsOperatorRuntime)
    requires
        tiled_start(telemetry, layout_ns, wait_ns, runtime),
    ensures
        telemetry.layout == layout_ns,
        telemetry.tiled,
        telemetry.tile_wait == wait_ns,
        telemetry.cpu_budget == runtime.config.cpu_budget,
        telemetry.active_context_peak == runtime.active_context_peak,
        telemetry.active_workers_peak == runtime.active_workers_peak,
        telemetry.ewma_ns_per_row_by_bucket@ == runtime.ewma_ns_per_row_by_bucket@,
        telemetry.seed == 0 && telemetry.scan == 0 && telemetry.seed_evals == 0
            && telemetry.full_evals == 0 && telemetry.pruned_evals == 0
                && telemetry.group_evals == 0 && telemetry.simd_group_calls == 0
                    && telemetry.simd_active_lane_evals == 0
                        && telemetry.scalar_group_evals == 0 && telemetry.tile_count == 0
                            && telemetry.tile_rows_total == 0 && telemetry.tile_rows_min == 0
                                && telemetry.tile_rows_max == 0 && telemetry.tile_wall == 0
                                    && telemetry.tile_handle_requeues == 0
                                        && !telemetry.wavefront_pairmask && !telemetry.work_graph,
{
}

/// A leaf without tiles starts with nothing counted but what its layout took.
pub proof fn law_untiled_leaf_starts_from_nothing(telemetry: LeafAdSamplingTelemetry,
    layout_ns: u64)
    requires
        untiled_start(telemetry, layout_ns),
    ensures
        telemetry.layout == layout_ns,
        !telemetry.tiled && !telemetry.wavefront_pairmask && !telemetry.work_graph,
        telemetry.tile_wait == 0 && telemetry.cpu_budget == 0
            && telemetry.active_context_peak == 0 && telemetry.active_workers_peak == 0
                && telemetry.seed == 0 && telemetry.scan == 0 && telemetry.seed_evals == 0
                    && telemetry.full_evals == 0 && telemetry.pruned_evals == 0
                        && telemetry.group_evals == 0 && telemetry.simd_group_calls == 0
                            && telemetry.simd_active_lane_evals == 0
                                && telemetry.scalar_group_evals == 0
                                    && telemetry.tile_count == 0
                                        && telemetry.tile_rows_total == 0
                                            && telemetry.tile_rows_min == 0
                                                && telemetry.tile_rows_max == 0
                                                    && telemetry.tile_wall == 0
                                                        && telemetry.tile_handle_requeues == 0,
{
}

/// A sampled leaf counts in its class as one that was sampled, with all of its rows and what
/// the sampling took; another one as one that was measured in full. Its rows count once.
pub proof fn law_leaf_counts_in_its_class_once(
    profile: LeafProfile,
    leaf_size: int,
    adsampling: Option<LeafAdSamplingTelemetry>,
    bucket: LeafSizeBucketProfile,
)
    requires
        profile.leaf_bucket(leaf_size, adsampling, bucket),
    ensures
        bucket.leaves == 1 && bucket.rows == leaf_size,
        bucket.exact_leaves + bucket.adsampling_leaves == 1,
        bucket.exact_rows + bucket.adsampling_rows == leaf_size,
        bucket.exact_wall + bucket.adsampling_wall == profile.total_wall,
        adsampling is Some <==> bucket.adsampling_leaves == 1,
        adsampling matches Some(t) ==> bucket.adsampling_rows == leaf_size
            && bucket.adsampling_wall == profile.total_wall && bucket.adsampling_layout == t.layout
            && bucket.adsampling_seed == t.seed && bucket.adsampling_scan == t.scan
            && bucket.adsampling_seed_evals == t.seed_evals && bucket.adsampling_full_evals
            == t.full_evals && bucket.adsampling_pruned_evals == t.pruned_evals
            && bucket.adsampling_group_evals == t.group_evals && bucket.adsampling_simd_group_calls
            == t.simd_group_calls && bucket.adsampling_simd_active_lane_evals
            == t.simd_active_lane_evals && bucket.adsampling_scalar_group_evals
            == t.scalar_group_evals && bucket.exact_distance == 0 && bucket.exact_topk == 0,
        adsampling is None ==> bucket.exact_rows == leaf_size && bucket.exact_distance
            == profile.distance && bucket.exact_topk == profile.topk && bucket.adsampling_layout
            == 0 && bucket.adsampling_seed == 0 && bucket.adsampling_scan == 0,
{
}

/// A group of dimensions that is measured counts each active lane once in all, and once more
/// as measured by a vector kernel or one by one.
pub proof fn law_measured_lanes_count_once(
    counters: AdsCounters,
    active: int,
    masks: Seq<u64>,
    vector: bool,
)
    requires
        counters.has_room(),
        0 <= active <= 512,
        0 <= groups_set(masks, 4) <= 4,
    ensures
        ({
            let after = counters.after_group(active, masks, vector);
            &&& after.group_evals == counters.group_evals + active
            &&& vector ==> after.simd_active_lane_evals == counters.simd_active_lane_evals + active
                && after.scalar_group_evals == counters.scalar_group_evals
                && after.simd_group_calls == counters.simd_group_calls + groups_set(masks, 4)
            &&& !vector ==> after.scalar_group_evals == counters.scalar_group_evals + active
                && after.simd_active_lane_evals == counters.simd_active_lane_evals
                && after.simd_group_calls == counters.simd_group_calls
            &&& after.seed_evals == counters.seed_evals
            &&& after.full_evals == counters.full_evals
            &&& after.pruned_evals == counters.pruned_evals
        }),
{
}

/// A vector kernel is called for each group of lanes that has one set.
pub proof fn law_groups_with_lanes_are_counted(masks: Seq<u64>)
    ensures
        groups_set(masks, 4) == (if group_set(masks, 0) {
            1int
        } else {
            0
        }) + (if group_set(masks, 1) {
            1int
        } else {
            0
        }) + (if group_set(masks, 2) {
            1int
        } else {
            0
        }) + (if group_set(masks, 3) {
            1int
        } else {
            0
        }),
        forall|g: int|
            0 <= g < 4 ==> (#[trigger] group_set(masks, g) <==> exists|q: int, j: int|
                0 <= q < masks.len() && 16 * g <= j < 16 * g + 16 && #[trigger] lane(masks[q], j)),
{
    assert(groups_set(masks, 0) == 0);
    assert(groups_set(masks, 1) == groups_set(masks, 0) + if group_set(masks, 0) {
        1int
    } else {
        0
    });
    assert(groups_set(masks, 2) == groups_set(masks, 1) + if group_set(masks, 1) {
        1int
    } else {
        0
    });
    assert(groups_set(masks, 3) == groups_set(masks, 2) + if group_set(masks, 2) {
        1int
    } else {
        0
    });
}

/// A depth tells what a read costs where something was read and measured, and then by what
/// was measured there.
pub proof fn law_measured_depths_tell_their_cost(stats: DepthIoPainStats)
    ensures
        stats.telling() <==> stats.point_gather_windows >= 1 && stats.logical_bytes >= 1
            && stats.physical_bytes >= 1 && stats.io_ns >= 1,
        stats.sample().raw_read_calls == stats.point_gather_windows,
        stats.sample().logical_bytes == stats.logical_bytes,
        stats.sample().physical_bytes == stats.physical_bytes,
        stats.sample().consumer_wait_ns == stats.consumer_wait_ns,
        stats.sample().producer_wait_ns == stats.producer_wait_ns,
        stats.sample().io_wall_ns == stats.io_ns,
        stats.sample().observed_wait_ns == stats.io_ns,
        stats.sample().observed_reads == stats.point_gather_windows,
        stats.sample().compute_wall_ns == 0 && stats.sample().blocked_worker_wait_ns == 0,
{
}

/// A plan counts once in all and once under the way that it selects, with the reads and bytes
/// of plain reading before it and of the selected way after it.
pub proof fn law_plan_counts_under_its_selection(
    counters: PlannerCounters,
    plan: NodeExecutionPlan,
)
    requires
        IoPlannerStats::plan_fits(counters, plan),
    ensures
        ({
            let after = IoPlannerStats::planned(counters, plan);
            let cost = plan.selected_cost();
            &&& after.planned_nodes == counters.planned_nodes + 1
            &&& after.selected_external + after.selected_prefetch_streaming
                + after.selected_vector_run + after.selected_exact_fallback
                == counters.selected_external + counters.selected_prefetch_streaming
                + counters.selected_vector_run + counters.selected_exact_fallback + 1
            &&& plan.selected == NodeAction::ExternalStreaming <==> after.selected_external
                == counters.selected_external + 1
            &&& plan.selected == NodeAction::PrefetchStreaming
                <==> after.selected_prefetch_streaming == counters.selected_prefetch_streaming + 1
            &&& plan.selected == NodeAction::HotVectorRun <==> after.selected_vector_run
                == counters.selected_vector_run + 1
            &&& plan.selected == NodeAction::ExactFallback <==> after.selected_exact_fallback
                == counters.selected_exact_fallback + 1
            &&& after.estimated_before_raw_read_calls == counters.estimated_before_raw_read_calls
                + plan.external_streaming.estimated_raw_read_calls
            &&& after.estimated_before_raw_read_bytes == counters.estimated_before_raw_read_bytes
                + plan.external_streaming.estimated_raw_read_bytes
            &&& after.estimated_after_raw_read_calls == counters.estimated_after_raw_read_calls
                + cost.estimated_raw_read_calls
            &&& after.estimated_after_raw_read_bytes == counters.estimated_after_raw_read_bytes
                + cost.estimated_raw_read_bytes
            &&& counters.planned_temp_bytes + cost.temp_bytes <= usize::MAX
                ==> after.planned_temp_bytes == counters.planned_temp_bytes + cost.temp_bytes
            &&& after.executed_external == counters.executed_external
            &&& after.executed_vector_run == counters.executed_vector_run
        }),
        plan.selected == NodeAction::ExternalStreaming ==> plan.selected_cost()
            == plan.external_streaming,
        plan.selected == NodeAction::PrefetchStreaming ==> plan.selected_cost()
            == plan.prefetch_streaming,
        plan.selected == NodeAction::HotVectorRun ==> plan.selected_cost() == plan.hot_vector_run,
        plan.selected == NodeAction::ExactFallback ==> plan.selected_cost() == plan.exact_fallback,
{
}

/// What is told of a configuration: that there is one, its flags, and the larger budget.
pub proof fn law_configuration_is_taken_over(counters: PlannerCounters, config: IoPlanConfig)
    ensures
        ({
            let after = IoPlannerStats::configured(counters, config);
            &&& after.enabled
            &&& after.dry_run == config.dry_run
            &&& after.verify == config.verify
            &&& after.window_cache_budget_bytes >= counters.window_cache_budget_bytes
            &&& after.window_cache_budget_bytes >= config.window_cache_bytes
            &&& after.window_cache_budget_bytes == counters.window_cache_budget_bytes
                || after.window_cache_budget_bytes == config.window_cache_bytes
            &&& after.planned_nodes == counters.planned_nodes
        }),
{
}

/// Files of two directories add up, kind by kind.
pub proof fn law_merged_file_reports_add_up(a: TempFileReport, b: TempFileReport)
    requires
        a.wf(),
        b.wf(),
        a.total.files + b.total.files <= usize::MAX,
        a.total.bytes + b.total.bytes <= u64::MAX,
    ensures
        ({
            let both = a.merged(b);
            &&& both.total.files == a.total.files + b.total.files
            &&& both.total.bytes == a.total.bytes + b.total.bytes
            &&& both.candidate.files == a.candidate.files + b.candidate.files
            &&& both.candidate.bytes == a.candidate.bytes + b.candidate.bytes
            &&& both.partition_depth0.files == a.partition_depth0.files + b.partition_depth0.files
            &&& both.partition_depth0.bytes == a.partition_depth0.bytes + b.partition_depth0.bytes
            &&& both.partition_depth1.files == a.partition_depth1.files + b.partition_depth1.files
            &&& both.partition_depth1.bytes == a.partition_depth1.bytes + b.partition_depth1.bytes
            &&& both.partition_depth2.files == a.partition_depth2.files + b.partition_depth2.files
            &&& both.partition_depth2.bytes == a.partition_depth2.bytes + b.partition_depth2.bytes
            &&& both.partition_depth3.files == a.partition_depth3.files + b.partition_depth3.files
            &&& both.partition_depth3.bytes == a.partition_depth3.bytes + b.partition_depth3.bytes
            &&& both.other.files == a.other.files + b.other.files
            &&& both.other.bytes == a.other.bytes + b.other.bytes
            &&& both.wf()
        }),
{
}

/// Of rows that were in memory only what was asked for counts: no window was read, and no
/// byte.
pub proof fn law_rows_in_memory_count_no_read(
    stats: WindowedGatherStats,
    rows: int,
    width: int,
)
    requires
        0 <= rows <= u64::MAX,
        0 <= width,
        rows * (width * 4) <= u64::MAX,
    ensures
        ({
            let kept = stats.logical_part();
            let own = resident_counters(rows, width);
            &&& kept.rows_requested == stats.rows_requested
            &&& kept.logical_bytes == stats.logical_bytes
            &&& kept.scatter_ops == stats.scatter_ops
            &&& kept.windows_submitted == 0 && kept.physical_bytes == 0 && kept.range_windows == 0
            &&& kept.singleton_windows == 0 && kept.range_rows_read == 0 && kept.overread_rows == 0
            &&& kept.rows_per_window_sum == 0 && kept.alignment_waste_bytes == 0
            &&& own.rows_requested == rows && own.scatter_ops == rows
            &&& own.logical_bytes == 4 * (rows * width)
            &&& own.windows_submitted == 0 && own.physical_bytes == 0 && own.range_windows == 0
            &&& own.singleton_windows == 0 && own.overread_rows == 0
        }),
{
    assert(rows * (width * 4) == 4 * (rows * width)) by (nonlinear_arith);
    assert(0 <= rows * width) by (nonlinear_arith)
        requires
            0 <= rows,
            0 <= width,
    ;
}

} // verus!
