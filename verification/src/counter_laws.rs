//! What merging counters comes to, counter by counter.

use vstd::prelude::*;

use crate::ads_assign::AdsTotals;
use crate::gather::WindowedGatherStats;
use crate::io_plan::PlannerCounters;
use crate::io_stats::DepthIoPainStats;
use crate::leaf_profile::{LeafAdSamplingTelemetry, LeafProfile, LeafSizeBucketProfile};
use crate::window_cache::VectorWindowCacheStats;

verus! {

/// Of two caches together every counter is the sum of both, as far as it can be counted, and
/// the peak is the larger one.
pub proof fn law_merged_cache_counters_add_up(a: VectorWindowCacheStats, b: VectorWindowCacheStats)
    requires
        a.mergeable(b),
    ensures
        ({
            let both = a.merged(b);
            &&& both.hits == a.hits + b.hits
            &&& both.misses == a.misses + b.misses
            &&& both.inserts == a.inserts + b.inserts
            &&& both.evictions == a.evictions + b.evictions
            &&& a.used_peak_bytes <= both.used_peak_bytes
                && b.used_peak_bytes <= both.used_peak_bytes
                && (both.used_peak_bytes == a.used_peak_bytes || both.used_peak_bytes
                == b.used_peak_bytes)
            &&& (both.bytes_inserted == if a.bytes_inserted + b.bytes_inserted > usize::MAX {
            usize::MAX as int
        } else {
            a.bytes_inserted + b.bytes_inserted
        })
            &&& (both.bytes_evicted == if a.bytes_evicted + b.bytes_evicted > usize::MAX {
            usize::MAX as int
        } else {
            a.bytes_evicted + b.bytes_evicted
        })
            &&& both.saved_direct_read_calls
                == a.saved_direct_read_calls + b.saved_direct_read_calls
            &&& (both.logical_bytes == if a.logical_bytes + b.logical_bytes > u64::MAX {
            u64::MAX as int
        } else {
            a.logical_bytes + b.logical_bytes
        })
            &&& (both.physical_bytes == if a.physical_bytes + b.physical_bytes > u64::MAX {
            u64::MAX as int
        } else {
            a.physical_bytes + b.physical_bytes
        })
        }),
{
}

/// Of two builds together every counter is the sum of both, as far as it can be counted; what
/// was switched on in one of them counts as switched on, and a budget is the larger one.
pub proof fn law_merged_planner_counters_add_up(a: PlannerCounters, b: PlannerCounters)
    requires
        a.mergeable(b),
    ensures
        ({
            let both = a.merged(b);
            &&& (both.enabled <==> a.enabled || b.enabled)
            &&& (both.dry_run <==> a.dry_run || b.dry_run)
            &&& (both.verify <==> a.verify || b.verify)
            &&& both.planned_nodes == a.planned_nodes + b.planned_nodes
            &&& both.selected_external == a.selected_external + b.selected_external
            &&& both.selected_prefetch_streaming
                == a.selected_prefetch_streaming + b.selected_prefetch_streaming
            &&& both.selected_vector_run == a.selected_vector_run + b.selected_vector_run
            &&& both.selected_exact_fallback
                == a.selected_exact_fallback + b.selected_exact_fallback
            &&& both.executed_external == a.executed_external + b.executed_external
            &&& both.executed_prefetch_streaming
                == a.executed_prefetch_streaming + b.executed_prefetch_streaming
            &&& both.executed_vector_run == a.executed_vector_run + b.executed_vector_run
            &&& both.executed_exact_fallback
                == a.executed_exact_fallback + b.executed_exact_fallback
            &&& both.vector_to_external_fallbacks
                == a.vector_to_external_fallbacks + b.vector_to_external_fallbacks
            &&& both.child_extent_logical_extents
                == a.child_extent_logical_extents + b.child_extent_logical_extents
            &&& both.child_extent_coalesced_reads
                == a.child_extent_coalesced_reads + b.child_extent_coalesced_reads
            &&& both.child_extent_header_read_savings
                == a.child_extent_header_read_savings + b.child_extent_header_read_savings
            &&& both.small_run_waves == a.small_run_waves + b.small_run_waves
            &&& both.small_run_wave_runs == a.small_run_wave_runs + b.small_run_wave_runs
            &&& both.small_run_wave_points == a.small_run_wave_points + b.small_run_wave_points
            &&& (both.planned_temp_bytes
                == if a.planned_temp_bytes + b.planned_temp_bytes > usize::MAX {
            usize::MAX as int
        } else {
            a.planned_temp_bytes + b.planned_temp_bytes
        })
            &&& (both.materialized_temp_bytes
                == if a.materialized_temp_bytes + b.materialized_temp_bytes > usize::MAX {
            usize::MAX as int
        } else {
            a.materialized_temp_bytes + b.materialized_temp_bytes
        })
            &&& both.estimated_before_raw_read_calls
                == a.estimated_before_raw_read_calls + b.estimated_before_raw_read_calls
            &&& both.estimated_after_raw_read_calls
                == a.estimated_after_raw_read_calls + b.estimated_after_raw_read_calls
            &&& both.estimated_before_raw_read_bytes
                == a.estimated_before_raw_read_bytes + b.estimated_before_raw_read_bytes
            &&& both.estimated_after_raw_read_bytes
                == a.estimated_after_raw_read_bytes + b.estimated_after_raw_read_bytes
            &&& both.vector_run_materialize_ns
                == a.vector_run_materialize_ns + b.vector_run_materialize_ns
            &&& (both.child_extent_logical_bytes
                == if a.child_extent_logical_bytes + b.child_extent_logical_bytes > u64::MAX {
            u64::MAX as int
        } else {
            a.child_extent_logical_bytes + b.child_extent_logical_bytes
        })
            &&& (both.child_extent_physical_bytes
                == if a.child_extent_physical_bytes + b.child_extent_physical_bytes > u64::MAX {
            u64::MAX as int
        } else {
            a.child_extent_physical_bytes + b.child_extent_physical_bytes
        })
            &&& a.window_cache_budget_bytes <= both.window_cache_budget_bytes
                && b.window_cache_budget_bytes <= both.window_cache_budget_bytes
                && (both.window_cache_budget_bytes
                == a.window_cache_budget_bytes || both.window_cache_budget_bytes
                == b.window_cache_budget_bytes)
        }),
{
}

/// Of two assignments together every counter is the sum of both.
pub proof fn law_merged_assignment_totals_add_up(a: AdsTotals, b: AdsTotals)
    requires
        a.mergeable(b),
    ensures
        ({
            let both = a.merged(b);
            &&& both.seed_ns == a.seed_ns + b.seed_ns
            &&& both.scan_ns == a.scan_ns + b.scan_ns
            &&& both.full_evals == a.full_evals + b.full_evals
            &&& both.pruned_evals == a.pruned_evals + b.pruned_evals
            &&& both.group_evals == a.group_evals + b.group_evals
            &&& both.simd_group_calls == a.simd_group_calls + b.simd_group_calls
            &&& both.simd_active_lane_evals == a.simd_active_lane_evals + b.simd_active_lane_evals
            &&& both.scalar_group_evals == a.scalar_group_evals + b.scalar_group_evals
            &&& both.validation_sources == a.validation_sources + b.validation_sources
            &&& both.validation_mismatches == a.validation_mismatches + b.validation_mismatches
            &&& both.validation_recall_hits == a.validation_recall_hits + b.validation_recall_hits
            &&& both.validation_recall_total
                == a.validation_recall_total + b.validation_recall_total
        }),
{
}

/// Of two reads together every counter is the sum of both.
pub proof fn law_merged_gather_counters_add_up(a: WindowedGatherStats, b: WindowedGatherStats)
    requires
        a.mergeable(b),
    ensures
        ({
            let both = a.merged(b);
            &&& both.rows_requested == a.rows_requested + b.rows_requested
            &&& both.windows_submitted == a.windows_submitted + b.windows_submitted
            &&& both.rows_per_window_sum == a.rows_per_window_sum + b.rows_per_window_sum
            &&& both.singleton_windows == a.singleton_windows + b.singleton_windows
            &&& both.range_windows == a.range_windows + b.range_windows
            &&& both.range_rows_read == a.range_rows_read + b.range_rows_read
            &&& both.logical_bytes == a.logical_bytes + b.logical_bytes
            &&& both.physical_bytes == a.physical_bytes + b.physical_bytes
            &&& both.alignment_waste_bytes == a.alignment_waste_bytes + b.alignment_waste_bytes
            &&& both.overread_rows == a.overread_rows + b.overread_rows
            &&& both.scatter_ops == a.scatter_ops + b.scatter_ops
        }),
{
}

/// What two measures of a depth come to is the sum of both, as far as it can be counted, and
/// the peak is the larger one.
pub proof fn law_depth_counters_add_up(a: DepthIoPainStats, b: DepthIoPainStats)
    requires
        a.addable(b),
    ensures
        ({
            let both = a.plus(b);
            &&& both.point_gather_windows == a.point_gather_windows + b.point_gather_windows
            &&& both.point_gather_batches == a.point_gather_batches + b.point_gather_batches
            &&& (both.logical_bytes == if a.logical_bytes + b.logical_bytes > u64::MAX {
            u64::MAX as int
        } else {
            a.logical_bytes + b.logical_bytes
        })
            &&& (both.physical_bytes == if a.physical_bytes + b.physical_bytes > u64::MAX {
            u64::MAX as int
        } else {
            a.physical_bytes + b.physical_bytes
        })
            &&& (both.io_ns == if a.io_ns + b.io_ns > u64::MAX {
            u64::MAX as int
        } else {
            a.io_ns + b.io_ns
        })
            &&& (both.consumer_wait_ns == if a.consumer_wait_ns + b.consumer_wait_ns > u64::MAX {
            u64::MAX as int
        } else {
            a.consumer_wait_ns + b.consumer_wait_ns
        })
            &&& (both.producer_wait_ns == if a.producer_wait_ns + b.producer_wait_ns > u64::MAX {
            u64::MAX as int
        } else {
            a.producer_wait_ns + b.producer_wait_ns
        })
            &&& a.prefetch_used_peak_bytes <= both.prefetch_used_peak_bytes
                && b.prefetch_used_peak_bytes <= both.prefetch_used_peak_bytes
                && (both.prefetch_used_peak_bytes
                == a.prefetch_used_peak_bytes || both.prefetch_used_peak_bytes
                == b.prefetch_used_peak_bytes)
        }),
{
}

/// Raising a measure to another makes each counter the larger one of the two.
pub proof fn law_raised_depth_counters_are_the_larger_ones(a: DepthIoPainStats, b: DepthIoPainStats)
    ensures
        ({
            let both = a.at_least(b);
            &&& a.point_gather_windows <= both.point_gather_windows
                && b.point_gather_windows <= both.point_gather_windows
                && (both.point_gather_windows
                == a.point_gather_windows || both.point_gather_windows == b.point_gather_windows)
            &&& a.point_gather_batches <= both.point_gather_batches
                && b.point_gather_batches <= both.point_gather_batches
                && (both.point_gather_batches
                == a.point_gather_batches || both.point_gather_batches == b.point_gather_batches)
            &&& a.logical_bytes <= both.logical_bytes && b.logical_bytes <= both.logical_bytes
                && (both.logical_bytes == a.logical_bytes || both.logical_bytes == b.logical_bytes)
            &&& a.physical_bytes <= both.physical_bytes
                && b.physical_bytes <= both.physical_bytes
                && (both.physical_bytes == a.physical_bytes || both.physical_bytes
                == b.physical_bytes)
            &&& a.io_ns <= both.io_ns && b.io_ns <= both.io_ns
                && (both.io_ns == a.io_ns || both.io_ns == b.io_ns)
            &&& a.consumer_wait_ns <= both.consumer_wait_ns
                && b.consumer_wait_ns <= both.consumer_wait_ns
                && (both.consumer_wait_ns == a.consumer_wait_ns || both.consumer_wait_ns
                == b.consumer_wait_ns)
            &&& a.producer_wait_ns <= both.producer_wait_ns
                && b.producer_wait_ns <= both.producer_wait_ns
                && (both.producer_wait_ns == a.producer_wait_ns || both.producer_wait_ns
                == b.producer_wait_ns)
            &&& a.prefetch_used_peak_bytes <= both.prefetch_used_peak_bytes
                && b.prefetch_used_peak_bytes <= both.prefetch_used_peak_bytes
                && (both.prefetch_used_peak_bytes
                == a.prefetch_used_peak_bytes || both.prefetch_used_peak_bytes
                == b.prefetch_used_peak_bytes)
        }),
{
}

/// Of two samplings together every counter is the sum of both, a flag is set where one of
/// them has it set, and peaks are the larger ones; the least tile is the smaller one of those
/// that there are.
pub proof fn law_merged_sampling_counters_add_up(a: LeafAdSamplingTelemetry, b: LeafAdSamplingTelemetry, both: LeafAdSamplingTelemetry)
    requires
        both.merges(a, b),
    ensures
        both.layout == a.layout + b.layout,
        both.seed == a.seed + b.seed,
        both.scan == a.scan + b.scan,
        both.seed_evals == a.seed_evals + b.seed_evals,
        both.full_evals == a.full_evals + b.full_evals,
        both.pruned_evals == a.pruned_evals + b.pruned_evals,
        both.group_evals == a.group_evals + b.group_evals,
        both.simd_group_calls == a.simd_group_calls + b.simd_group_calls,
        both.simd_active_lane_evals == a.simd_active_lane_evals + b.simd_active_lane_evals,
        both.scalar_group_evals == a.scalar_group_evals + b.scalar_group_evals,
        both.tile_count == a.tile_count + b.tile_count,
        both.tile_rows_total == a.tile_rows_total + b.tile_rows_total,
        both.tile_wall == a.tile_wall + b.tile_wall,
        both.tile_wait == a.tile_wait + b.tile_wait,
        both.tile_handle_requeues == a.tile_handle_requeues + b.tile_handle_requeues,
        both.wavefront_pairmask <==> a.wavefront_pairmask || b.wavefront_pairmask,
        both.tiled <==> a.tiled || b.tiled,
        both.work_graph <==> a.work_graph || b.work_graph,
        a.tile_rows_max <= both.tile_rows_max && b.tile_rows_max <= both.tile_rows_max
            && (both.tile_rows_max == a.tile_rows_max || both.tile_rows_max == b.tile_rows_max),
        a.cpu_budget <= both.cpu_budget && b.cpu_budget <= both.cpu_budget
            && (both.cpu_budget == a.cpu_budget || both.cpu_budget == b.cpu_budget),
        a.active_context_peak <= both.active_context_peak
            && b.active_context_peak <= both.active_context_peak
            && (both.active_context_peak == a.active_context_peak || both.active_context_peak
            == b.active_context_peak),
        a.active_workers_peak <= both.active_workers_peak
            && b.active_workers_peak <= both.active_workers_peak
            && (both.active_workers_peak == a.active_workers_peak || both.active_workers_peak
            == b.active_workers_peak),
        (both.tile_rows_min == 0 <==> a.tile_rows_min == 0 && b.tile_rows_min == 0)
            && (a.tile_rows_min > 0 ==> both.tile_rows_min <= a.tile_rows_min)
            && (b.tile_rows_min > 0 ==> both.tile_rows_min <= b.tile_rows_min)
            && (both.tile_rows_min == a.tile_rows_min || both.tile_rows_min == b.tile_rows_min),
        forall|i: int|
            0 <= i < 4 ==> a.ewma_ns_per_row_by_bucket@[i] <= #[trigger] both.ewma_ns_per_row_by_bucket@[i] && b.ewma_ns_per_row_by_bucket@[i] <= both.ewma_ns_per_row_by_bucket@[i] && (both.ewma_ns_per_row_by_bucket@[i] == a.ewma_ns_per_row_by_bucket@[i] || both.ewma_ns_per_row_by_bucket@[i] == b.ewma_ns_per_row_by_bucket@[i]),
{
}

/// Of two buckets together every counter is the sum of both.
pub proof fn law_merged_bucket_counters_add_up(a: LeafSizeBucketProfile, b: LeafSizeBucketProfile, both: LeafSizeBucketProfile)
    requires
        both.merges(a, b),
    ensures
        both.leaves == a.leaves + b.leaves,
        both.rows == a.rows + b.rows,
        both.exact_leaves == a.exact_leaves + b.exact_leaves,
        both.exact_rows == a.exact_rows + b.exact_rows,
        both.exact_wall == a.exact_wall + b.exact_wall,
        both.exact_distance == a.exact_distance + b.exact_distance,
        both.exact_topk == a.exact_topk + b.exact_topk,
        both.adsampling_leaves == a.adsampling_leaves + b.adsampling_leaves,
        both.adsampling_rows == a.adsampling_rows + b.adsampling_rows,
        both.adsampling_wall == a.adsampling_wall + b.adsampling_wall,
        both.adsampling_layout == a.adsampling_layout + b.adsampling_layout,
        both.adsampling_seed == a.adsampling_seed + b.adsampling_seed,
        both.adsampling_scan == a.adsampling_scan + b.adsampling_scan,
        both.adsampling_seed_evals == a.adsampling_seed_evals + b.adsampling_seed_evals,
        both.adsampling_full_evals == a.adsampling_full_evals + b.adsampling_full_evals,
        both.adsampling_pruned_evals == a.adsampling_pruned_evals + b.adsampling_pruned_evals,
        both.adsampling_group_evals == a.adsampling_group_evals + b.adsampling_group_evals,
        both.adsampling_simd_group_calls
            == a.adsampling_simd_group_calls + b.adsampling_simd_group_calls,
        both.adsampling_simd_active_lane_evals
            == a.adsampling_simd_active_lane_evals + b.adsampling_simd_active_lane_evals,
        both.adsampling_scalar_group_evals
            == a.adsampling_scalar_group_evals + b.adsampling_scalar_group_evals,
{
}

/// Of two profiles together every counter is the sum of both, a flag is set where one of them
/// has it set, and peaks are the larger ones; the least tile is the smaller one of those that
/// there are.
pub proof fn law_merged_leaf_counters_add_up(a: LeafProfile, b: LeafProfile, both: LeafProfile)
    requires
        both.merges(a, b),
    ensures
        both.total_wall == a.total_wall + b.total_wall,
        both.load == a.load + b.load,
        both.distance == a.distance + b.distance,
        both.topk == a.topk + b.topk,
        both.hash == a.hash + b.hash,
        both.flush == a.flush + b.flush,
        both.leaves == a.leaves + b.leaves,
        both.points == a.points + b.points,
        both.blockwise_leaves == a.blockwise_leaves + b.blockwise_leaves,
        both.point_calls == a.point_calls + b.point_calls,
        both.range_calls == a.range_calls + b.range_calls,
        both.range_rows_read == a.range_rows_read + b.range_rows_read,
        both.bytes_read == a.bytes_read + b.bytes_read,
        both.sketch_prefetch == a.sketch_prefetch + b.sketch_prefetch,
        both.sketch_rows_prefetched == a.sketch_rows_prefetched + b.sketch_rows_prefetched,
        both.lune_witness_emit == a.lune_witness_emit + b.lune_witness_emit,
        both.lune_witness_records == a.lune_witness_records + b.lune_witness_records,
        both.leaf_adsampling_leaves == a.leaf_adsampling_leaves + b.leaf_adsampling_leaves,
        both.leaf_adsampling_rows == a.leaf_adsampling_rows + b.leaf_adsampling_rows,
        both.leaf_adsampling_layout == a.leaf_adsampling_layout + b.leaf_adsampling_layout,
        both.leaf_adsampling_seed == a.leaf_adsampling_seed + b.leaf_adsampling_seed,
        both.leaf_adsampling_scan == a.leaf_adsampling_scan + b.leaf_adsampling_scan,
        both.leaf_adsampling_seed_evals
            == a.leaf_adsampling_seed_evals + b.leaf_adsampling_seed_evals,
        both.leaf_adsampling_full_evals
            == a.leaf_adsampling_full_evals + b.leaf_adsampling_full_evals,
        both.leaf_adsampling_pruned_evals
            == a.leaf_adsampling_pruned_evals + b.leaf_adsampling_pruned_evals,
        both.leaf_adsampling_group_evals
            == a.leaf_adsampling_group_evals + b.leaf_adsampling_group_evals,
        both.leaf_adsampling_simd_group_calls
            == a.leaf_adsampling_simd_group_calls + b.leaf_adsampling_simd_group_calls,
        both.leaf_adsampling_simd_active_lane_evals
            == a.leaf_adsampling_simd_active_lane_evals + b.leaf_adsampling_simd_active_lane_evals,
        both.leaf_adsampling_scalar_group_evals
            == a.leaf_adsampling_scalar_group_evals + b.leaf_adsampling_scalar_group_evals,
        both.leaf_ads_tiled_leaves == a.leaf_ads_tiled_leaves + b.leaf_ads_tiled_leaves,
        both.leaf_ads_tiled_rows == a.leaf_ads_tiled_rows + b.leaf_ads_tiled_rows,
        both.leaf_ads_tiles == a.leaf_ads_tiles + b.leaf_ads_tiles,
        both.leaf_ads_tile_rows_total == a.leaf_ads_tile_rows_total + b.leaf_ads_tile_rows_total,
        both.leaf_ads_tile_wall == a.leaf_ads_tile_wall + b.leaf_ads_tile_wall,
        both.leaf_ads_tile_wait == a.leaf_ads_tile_wait + b.leaf_ads_tile_wait,
        both.leaf_ads_handle_requeues == a.leaf_ads_handle_requeues + b.leaf_ads_handle_requeues,
        both.leaf_ads_tiling_enabled <==> a.leaf_ads_tiling_enabled || b.leaf_ads_tiling_enabled,
        both.leaf_ads_wavefront_pairmask_enabled <==> a.leaf_ads_wavefront_pairmask_enabled
            || b.leaf_ads_wavefront_pairmask_enabled,
        both.leaf_ads_work_graph_enabled <==> a.leaf_ads_work_graph_enabled
            || b.leaf_ads_work_graph_enabled,
        a.leaf_ads_tile_rows_max <= both.leaf_ads_tile_rows_max
            && b.leaf_ads_tile_rows_max <= both.leaf_ads_tile_rows_max
            && (both.leaf_ads_tile_rows_max
            == a.leaf_ads_tile_rows_max || both.leaf_ads_tile_rows_max == b.leaf_ads_tile_rows_max),
        a.leaf_ads_cpu_budget <= both.leaf_ads_cpu_budget
            && b.leaf_ads_cpu_budget <= both.leaf_ads_cpu_budget
            && (both.leaf_ads_cpu_budget == a.leaf_ads_cpu_budget || both.leaf_ads_cpu_budget
            == b.leaf_ads_cpu_budget),
        a.leaf_ads_active_context_peak <= both.leaf_ads_active_context_peak
            && b.leaf_ads_active_context_peak <= both.leaf_ads_active_context_peak
            && (both.leaf_ads_active_context_peak
            == a.leaf_ads_active_context_peak || both.leaf_ads_active_context_peak
            == b.leaf_ads_active_context_peak),
        a.leaf_ads_active_workers_peak <= both.leaf_ads_active_workers_peak
            && b.leaf_ads_active_workers_peak <= both.leaf_ads_active_workers_peak
            && (both.leaf_ads_active_workers_peak
            == a.leaf_ads_active_workers_peak || both.leaf_ads_active_workers_peak
            == b.leaf_ads_active_workers_peak),
        (both.leaf_ads_tile_rows_min == 0 <==> a.leaf_ads_tile_rows_min == 0
            && b.leaf_ads_tile_rows_min == 0)
            && (a.leaf_ads_tile_rows_min > 0 ==> both.leaf_ads_tile_rows_min <= a.leaf_ads_tile_rows_min) && (b.leaf_ads_tile_rows_min > 0 ==> both.leaf_ads_tile_rows_min <= b.leaf_ads_tile_rows_min) && (both.leaf_ads_tile_rows_min == a.leaf_ads_tile_rows_min || both.leaf_ads_tile_rows_min == b.leaf_ads_tile_rows_min),
        forall|i: int|
            0 <= i < 4 ==> a.leaf_ads_ewma_ns_per_row_by_bucket@[i] <= #[trigger] both.leaf_ads_ewma_ns_per_row_by_bucket@[i] && b.leaf_ads_ewma_ns_per_row_by_bucket@[i] <= both.leaf_ads_ewma_ns_per_row_by_bucket@[i] && (both.leaf_ads_ewma_ns_per_row_by_bucket@[i] == a.leaf_ads_ewma_ns_per_row_by_bucket@[i] || both.leaf_ads_ewma_ns_per_row_by_bucket@[i] == b.leaf_ads_ewma_ns_per_row_by_bucket@[i]),
        forall|i: int|
            0 <= i < 5 ==> (#[trigger] both.leaf_size_buckets@[i]).leaves
                == a.leaf_size_buckets@[i].leaves + b.leaf_size_buckets@[i].leaves
                && both.leaf_size_buckets@[i].rows == a.leaf_size_buckets@[i].rows
                + b.leaf_size_buckets@[i].rows,
{
}

} // verus!
