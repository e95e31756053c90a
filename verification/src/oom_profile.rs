//! The report of an out-of-core build as JSON text.

use vstd::prelude::*;
use vstd::string::*;

use crate::ann_result::{AnnError, AnnResult};
use crate::env_config::{trim, trimmed};
use crate::io_stats::IoPlannerStats;
use crate::json_text::{
    bool_entry, bool_text, document_of, document_text, entry, entry_text, format_optional_number,
    list_of, list_text, number_entry, number_list, object_of, object_text, optional_text, quoted,
    string_entry, text_views,
};
use crate::leaf_profile::{
    bucket_label, leaf_size_bucket_label, LeafProfile, LeafSizeBucketProfile, LEAF_SIZE_BUCKETS,
};
use crate::oom_files::{FileCategoryStats, TempFileReport};
use crate::oom_memory::{memory_stage_profile_json, stages_text, OomMemoryReport};
use crate::text::decimal;
use crate::window_cache::VectorWindowCacheStats;

verus! {

/// Nanoseconds in a millisecond.
pub const NS_PER_MS: u64 = 1_000_000;

pub open spec fn ms_text(ns: u64) -> Seq<char> {
    decimal((ns as int / NS_PER_MS as int) as nat)
}

fn ms_entry(key: &str, ns: u64) -> (text: String)
    ensures
        text@ == entry_text(key@, ms_text(ns)),
{
    number_entry(key, ns / NS_PER_MS)
}

/// What was spilled.
#[derive(Clone, Copy, Debug, Default)]
pub struct SpillRunStats {
    pub part_files: u64,
    pub segment_count: u64,
    pub shard_groups: u64,
    pub max_parts_per_shard: u64,
    pub max_segments_per_shard: u64,
    pub record_bytes: u64,
    pub manifest_bytes: u64,
}

#[verifier::opaque]
pub open spec fn spill_entries(stats: SpillRunStats) -> Seq<Seq<char>> {
    seq![
        entry_text("part_files"@, decimal(stats.part_files as nat)),
        entry_text("segment_count"@, decimal(stats.segment_count as nat)),
        entry_text("shard_groups"@, decimal(stats.shard_groups as nat)),
        entry_text("max_parts_per_shard"@, decimal(stats.max_parts_per_shard as nat)),
        entry_text("max_segments_per_shard"@, decimal(stats.max_segments_per_shard as nat)),
        entry_text("record_bytes"@, decimal(stats.record_bytes as nat)),
        entry_text("manifest_bytes"@, decimal(stats.manifest_bytes as nat)),
    ]
}

/// What was spilled, as JSON.
pub open spec fn spill_text(stats: SpillRunStats) -> Seq<char> {
    object_text(spill_entries(stats))
}

pub fn spill_json(stats: &SpillRunStats) -> (text: String)
    ensures
        text@ == spill_text(*stats),
{
    let mut parts: Vec<String> = Vec::with_capacity(7);
    parts.push(number_entry("part_files", stats.part_files));
    parts.push(number_entry("segment_count", stats.segment_count));
    parts.push(number_entry("shard_groups", stats.shard_groups));
    parts.push(number_entry("max_parts_per_shard", stats.max_parts_per_shard));
    parts.push(number_entry("max_segments_per_shard", stats.max_segments_per_shard));
    parts.push(number_entry("record_bytes", stats.record_bytes));
    parts.push(number_entry("manifest_bytes", stats.manifest_bytes));
    proof {
        reveal(spill_entries);
        assert(text_views(parts@) =~= spill_entries(*stats));
    }
    object_of(&parts)
}

/// How spilled candidates were reduced.
#[derive(Clone, Copy, Debug, Default)]
pub struct SpillReduceStats {
    pub shard_groups: u64,
    pub segments_scanned: u64,
    pub part_files_opened: u64,
    pub max_segments_in_group: u64,
}

#[verifier::opaque]
pub open spec fn reduce_entries(stats: SpillReduceStats) -> Seq<Seq<char>> {
    seq![
        entry_text("shard_groups"@, decimal(stats.shard_groups as nat)),
        entry_text("segments_scanned"@, decimal(stats.segments_scanned as nat)),
        entry_text("part_files_opened"@, decimal(stats.part_files_opened as nat)),
        entry_text("max_segments_in_group"@, decimal(stats.max_segments_in_group as nat)),
    ]
}

/// How spilled candidates were reduced, as JSON.
pub open spec fn reduce_text(stats: SpillReduceStats) -> Seq<char> {
    object_text(reduce_entries(stats))
}

pub fn reduce_json(stats: &SpillReduceStats) -> (text: String)
    ensures
        text@ == reduce_text(*stats),
{
    let mut parts: Vec<String> = Vec::with_capacity(4);
    parts.push(number_entry("shard_groups", stats.shard_groups));
    parts.push(number_entry("segments_scanned", stats.segments_scanned));
    parts.push(number_entry("part_files_opened", stats.part_files_opened));
    parts.push(number_entry("max_segments_in_group", stats.max_segments_in_group));
    proof {
        reveal(reduce_entries);
        assert(text_views(parts@) =~= reduce_entries(*stats));
    }
    object_of(&parts)
}

/// How long the stages of a build took, in nanoseconds.
#[derive(Clone, Copy, Debug, Default)]
pub struct StageTimes {
    pub sketch_persist: u64,
    pub streaming: u64,
    pub reduce: u64,
    pub emit: u64,
    pub total: u64,
}

#[verifier::opaque]
pub open spec fn stage_ms_entries(stages: StageTimes) -> Seq<Seq<char>> {
    seq![
        entry_text("sketch_persist"@, ms_text(stages.sketch_persist)),
        entry_text("streaming"@, ms_text(stages.streaming)),
        entry_text("reduce"@, ms_text(stages.reduce)),
        entry_text("emit"@, ms_text(stages.emit)),
        entry_text("total"@, ms_text(stages.total)),
    ]
}

/// The stages in milliseconds, as JSON.
pub open spec fn stage_ms_text(stages: StageTimes) -> Seq<char> {
    object_text(stage_ms_entries(stages))
}

pub fn stage_ms_json(stages: &StageTimes) -> (text: String)
    ensures
        text@ == stage_ms_text(*stages),
{
    let mut parts: Vec<String> = Vec::with_capacity(5);
    parts.push(ms_entry("sketch_persist", stages.sketch_persist));
    parts.push(ms_entry("streaming", stages.streaming));
    parts.push(ms_entry("reduce", stages.reduce));
    parts.push(ms_entry("emit", stages.emit));
    parts.push(ms_entry("total", stages.total));
    proof {
        reveal(stage_ms_entries);
        assert(text_views(parts@) =~= stage_ms_entries(*stages));
    }
    object_of(&parts)
}

/// Reads that were gathered by queue.
#[derive(Clone, Copy, Debug, Default)]
pub struct UringStats {
    pub point_gather_batches: u64,
    pub point_gather_windows: u64,
    pub point_gather_bytes: u64,
    pub point_gather_fallbacks: u64,
}

#[verifier::opaque]
pub open spec fn uring_entries(stats: UringStats) -> Seq<Seq<char>> {
    seq![
        entry_text("point_gather_batches"@, decimal(stats.point_gather_batches as nat)),
        entry_text("point_gather_windows"@, decimal(stats.point_gather_windows as nat)),
        entry_text("point_gather_bytes"@, decimal(stats.point_gather_bytes as nat)),
        entry_text("point_gather_fallbacks"@, decimal(stats.point_gather_fallbacks as nat)),
    ]
}

/// Reads that were gathered by queue, as JSON.
pub open spec fn uring_text(stats: UringStats) -> Seq<char> {
    object_text(uring_entries(stats))
}

pub fn uring_json(stats: &UringStats) -> (text: String)
    ensures
        text@ == uring_text(*stats),
{
    let mut parts: Vec<String> = Vec::with_capacity(4);
    parts.push(number_entry("point_gather_batches", stats.point_gather_batches));
    parts.push(number_entry("point_gather_windows", stats.point_gather_windows));
    parts.push(number_entry("point_gather_bytes", stats.point_gather_bytes));
    parts.push(number_entry("point_gather_fallbacks", stats.point_gather_fallbacks));
    proof {
        reveal(uring_entries);
        assert(text_views(parts@) =~= uring_entries(*stats));
    }
    object_of(&parts)
}

/// What the scheduler of leaves has seen.
#[derive(Clone, Copy, Debug, Default)]
pub struct SchedulerTelemetry {
    pub peak_inflight_leaf_tasks: u64,
    pub peak_leaf_backlog: u64,
    pub leaf_backlog: u64,
    pub producer_leaf_backlog_soft_limit: u64,
    pub outstanding_leaf_tasks: u64,
    pub inflight_leaf_tasks: u64,
    pub active_leaf_drainers: u64,
    pub leaf_drainer_limit: u64,
    pub inline_leaf_fallbacks: u64,
    pub producer_help_drains: u64,
    pub producer_help_drain_ms: u64,
    pub backlog_full_help_drains: u64,
    pub backlog_full_help_ms: u64,
    pub producer_help_yields: u64,
    pub large_leaf_count: u64,
    pub large_leaf_block_tasks: u64,
    pub active_large_assignment_peak: u64,
    pub large_assignment_guard_count: u64,
    pub leaf_cap_large_assignment_hits: u64,
    pub leaf_cap_producer_hits: u64,
    pub leaf_cap_done_hits: u64,
    pub batched_leaf_drains: u64,
    pub batched_leaf_leaves: u64,
    pub batched_leaf_points: u64,
    pub batched_leaf_unique_points: u64,
    pub batched_leaf_load_ms: u64,
    pub leaf_batch_hydration_limit: u64,
    pub leaf_batch_post_producer_scale: u64,
    pub peak_leaf_batch_leaves: u64,
    pub peak_leaf_batch_points: u64,
    pub peak_leaf_batch_unique_points: u64,
    pub active_leaf_batch_hydrations: u64,
    pub peak_leaf_batch_hydrations: u64,
    pub leaf_batch_hydration_wait_ms: u64,
    pub work_graph_enabled: bool,
    pub queued_work_ms_peak: u64,
    pub queued_mem_bytes_peak: u64,
    pub replay_admitted_runs: u64,
    pub replay_paused_ms: u64,
    pub worker_busy_ms: u64,
    pub worker_idle_ms: u64,
}

#[verifier::opaque]
pub open spec fn scheduler_entries(stats: SchedulerTelemetry) -> Seq<Seq<char>> {
    seq![
        entry_text("peak_inflight_leaf_tasks"@, decimal(stats.peak_inflight_leaf_tasks as nat)),
        entry_text("peak_leaf_backlog"@, decimal(stats.peak_leaf_backlog as nat)),
        entry_text("leaf_backlog"@, decimal(stats.leaf_backlog as nat)),
        entry_text(
            "producer_leaf_backlog_soft_limit"@,
            decimal(stats.producer_leaf_backlog_soft_limit as nat),
        ),
        entry_text("outstanding_leaf_tasks"@, decimal(stats.outstanding_leaf_tasks as nat)),
        entry_text("inflight_leaf_tasks"@, decimal(stats.inflight_leaf_tasks as nat)),
        entry_text("active_leaf_drainers"@, decimal(stats.active_leaf_drainers as nat)),
        entry_text("leaf_drainer_limit"@, decimal(stats.leaf_drainer_limit as nat)),
        entry_text("inline_leaf_fallbacks"@, decimal(stats.inline_leaf_fallbacks as nat)),
        entry_text("producer_help_drains"@, decimal(stats.producer_help_drains as nat)),
        entry_text("producer_help_drain_ms"@, decimal(stats.producer_help_drain_ms as nat)),
        entry_text("backlog_full_help_drains"@, decimal(stats.backlog_full_help_drains as nat)),
        entry_text("backlog_full_help_ms"@, decimal(stats.backlog_full_help_ms as nat)),
        entry_text("producer_help_yields"@, decimal(stats.producer_help_yields as nat)),
        entry_text("large_leaf_count"@, decimal(stats.large_leaf_count as nat)),
        entry_text("large_leaf_block_tasks"@, decimal(stats.large_leaf_block_tasks as nat)),
        entry_text(
            "active_large_assignment_peak"@,
            decimal(stats.active_large_assignment_peak as nat),
        ),
        entry_text(
            "large_assignment_guard_count"@,
            decimal(stats.large_assignment_guard_count as nat),
        ),
        entry_text(
            "leaf_cap_large_assignment_hits"@,
            decimal(stats.leaf_cap_large_assignment_hits as nat),
        ),
        entry_text("leaf_cap_producer_hits"@, decimal(stats.leaf_cap_producer_hits as nat)),
        entry_text("leaf_cap_done_hits"@, decimal(stats.leaf_cap_done_hits as nat)),
        entry_text("batched_leaf_drains"@, decimal(stats.batched_leaf_drains as nat)),
        entry_text("batched_leaf_leaves"@, decimal(stats.batched_leaf_leaves as nat)),
        entry_text("batched_leaf_points"@, decimal(stats.batched_leaf_points as nat)),
        entry_text("batched_leaf_unique_points"@, decimal(stats.batched_leaf_unique_points as nat)),
        entry_text("batched_leaf_load_ms"@, decimal(stats.batched_leaf_load_ms as nat)),
        entry_text("leaf_batch_hydration_limit"@, decimal(stats.leaf_batch_hydration_limit as nat)),
        entry_text(
            "leaf_batch_post_producer_scale"@,
            decimal(stats.leaf_batch_post_producer_scale as nat),
        ),
        entry_text("peak_leaf_batch_leaves"@, decimal(stats.peak_leaf_batch_leaves as nat)),
        entry_text("peak_leaf_batch_points"@, decimal(stats.peak_leaf_batch_points as nat)),
        entry_text(
            "peak_leaf_batch_unique_points"@,
            decimal(stats.peak_leaf_batch_unique_points as nat),
        ),
        entry_text(
            "active_leaf_batch_hydrations"@,
            decimal(stats.active_leaf_batch_hydrations as nat),
        ),
        entry_text("peak_leaf_batch_hydrations"@, decimal(stats.peak_leaf_batch_hydrations as nat)),
        entry_text(
            "leaf_batch_hydration_wait_ms"@,
            decimal(stats.leaf_batch_hydration_wait_ms as nat),
        ),
        entry_text("work_graph_enabled"@, bool_text(stats.work_graph_enabled)),
        entry_text("queued_work_ms_peak"@, decimal(stats.queued_work_ms_peak as nat)),
        entry_text("queued_mem_bytes_peak"@, decimal(stats.queued_mem_bytes_peak as nat)),
        entry_text("replay_admitted_runs"@, decimal(stats.replay_admitted_runs as nat)),
        entry_text("replay_paused_ms"@, decimal(stats.replay_paused_ms as nat)),
        entry_text("worker_busy_ms"@, decimal(stats.worker_busy_ms as nat)),
        entry_text("worker_idle_ms"@, decimal(stats.worker_idle_ms as nat)),
    ]
}

/// What the scheduler of leaves has seen, as JSON.
pub open spec fn scheduler_text(stats: SchedulerTelemetry) -> Seq<char> {
    object_text(scheduler_entries(stats))
}

pub fn scheduler_json(stats: &SchedulerTelemetry) -> (text: String)
    ensures
        text@ == scheduler_text(*stats),
{
    let mut parts: Vec<String> = Vec::with_capacity(41);
    parts.push(number_entry("peak_inflight_leaf_tasks", stats.peak_inflight_leaf_tasks));
    parts.push(number_entry("peak_leaf_backlog", stats.peak_leaf_backlog));
    parts.push(number_entry("leaf_backlog", stats.leaf_backlog));
    parts.push(
        number_entry("producer_leaf_backlog_soft_limit", stats.producer_leaf_backlog_soft_limit),
    );
    parts.push(number_entry("outstanding_leaf_tasks", stats.outstanding_leaf_tasks));
    parts.push(number_entry("inflight_leaf_tasks", stats.inflight_leaf_tasks));
    parts.push(number_entry("active_leaf_drainers", stats.active_leaf_drainers));
    parts.push(number_entry("leaf_drainer_limit", stats.leaf_drainer_limit));
    parts.push(number_entry("inline_leaf_fallbacks", stats.inline_leaf_fallbacks));
    parts.push(number_entry("producer_help_drains", stats.producer_help_drains));
    parts.push(number_entry("producer_help_drain_ms", stats.producer_help_drain_ms));
    parts.push(number_entry("backlog_full_help_drains", stats.backlog_full_help_drains));
    parts.push(number_entry("backlog_full_help_ms", stats.backlog_full_help_ms));
    parts.push(number_entry("producer_help_yields", stats.producer_help_yields));
    parts.push(number_entry("large_leaf_count", stats.large_leaf_count));
    parts.push(number_entry("large_leaf_block_tasks", stats.large_leaf_block_tasks));
    parts.push(number_entry("active_large_assignment_peak", stats.active_large_assignment_peak));
    parts.push(number_entry("large_assignment_guard_count", stats.large_assignment_guard_count));
    parts.push(
        number_entry("leaf_cap_large_assignment_hits", stats.leaf_cap_large_assignment_hits),
    );
    parts.push(number_entry("leaf_cap_producer_hits", stats.leaf_cap_producer_hits));
    parts.push(number_entry("leaf_cap_done_hits", stats.leaf_cap_done_hits));
    parts.push(number_entry("batched_leaf_drains", stats.batched_leaf_drains));
    parts.push(number_entry("batched_leaf_leaves", stats.batched_leaf_leaves));
    parts.push(number_entry("batched_leaf_points", stats.batched_leaf_points));
    parts.push(number_entry("batched_leaf_unique_points", stats.batched_leaf_unique_points));
    parts.push(number_entry("batched_leaf_load_ms", stats.batched_leaf_load_ms));
    parts.push(number_entry("leaf_batch_hydration_limit", stats.leaf_batch_hydration_limit));
    parts.push(
        number_entry("leaf_batch_post_producer_scale", stats.leaf_batch_post_producer_scale),
    );
    parts.push(number_entry("peak_leaf_batch_leaves", stats.peak_leaf_batch_leaves));
    parts.push(number_entry("peak_leaf_batch_points", stats.peak_leaf_batch_points));
    parts.push(number_entry("peak_leaf_batch_unique_points", stats.peak_leaf_batch_unique_points));
    parts.push(number_entry("active_leaf_batch_hydrations", stats.active_leaf_batch_hydrations));
    parts.push(number_entry("peak_leaf_batch_hydrations", stats.peak_leaf_batch_hydrations));
    parts.push(number_entry("leaf_batch_hydration_wait_ms", stats.leaf_batch_hydration_wait_ms));
    parts.push(bool_entry("work_graph_enabled", stats.work_graph_enabled));
    parts.push(number_entry("queued_work_ms_peak", stats.queued_work_ms_peak));
    parts.push(number_entry("queued_mem_bytes_peak", stats.queued_mem_bytes_peak));
    parts.push(number_entry("replay_admitted_runs", stats.replay_admitted_runs));
    parts.push(number_entry("replay_paused_ms", stats.replay_paused_ms));
    parts.push(number_entry("worker_busy_ms", stats.worker_busy_ms));
    parts.push(number_entry("worker_idle_ms", stats.worker_idle_ms));
    proof {
        reveal(scheduler_entries);
        assert(text_views(parts@) =~= scheduler_entries(*stats));
    }
    object_of(&parts)
}

/// How sampled assignments were scheduled.
#[derive(Clone, Copy, Debug, Default)]
pub struct AdsSchedulerTelemetry {
    pub ads_large_tasks: u64,
    pub ads_chunks_total: u64,
    pub ads_waves: u64,
    pub ads_exact_fallback_small: u64,
    pub ads_exact_fallback_nested: u64,
    pub ads_parallelism_collapse_count: u64,
}

#[verifier::opaque]
pub open spec fn ads_scheduler_entries(stats: AdsSchedulerTelemetry) -> Seq<Seq<char>> {
    seq![
        entry_text("ads_large_tasks"@, decimal(stats.ads_large_tasks as nat)),
        entry_text("ads_chunks_total"@, decimal(stats.ads_chunks_total as nat)),
        entry_text("ads_waves"@, decimal(stats.ads_waves as nat)),
        entry_text("ads_exact_fallback_small"@, decimal(stats.ads_exact_fallback_small as nat)),
        entry_text("ads_exact_fallback_nested"@, decimal(stats.ads_exact_fallback_nested as nat)),
        entry_text(
            "ads_parallelism_collapse_count"@,
            decimal(stats.ads_parallelism_collapse_count as nat),
        ),
    ]
}

/// How sampled assignments were scheduled, as JSON.
pub open spec fn ads_scheduler_text(stats: AdsSchedulerTelemetry) -> Seq<char> {
    object_text(ads_scheduler_entries(stats))
}

pub fn ads_scheduler_json(stats: &AdsSchedulerTelemetry) -> (text: String)
    ensures
        text@ == ads_scheduler_text(*stats),
{
    let mut parts: Vec<String> = Vec::with_capacity(6);
    parts.push(number_entry("ads_large_tasks", stats.ads_large_tasks));
    parts.push(number_entry("ads_chunks_total", stats.ads_chunks_total));
    parts.push(number_entry("ads_waves", stats.ads_waves));
    parts.push(number_entry("ads_exact_fallback_small", stats.ads_exact_fallback_small));
    parts.push(number_entry("ads_exact_fallback_nested", stats.ads_exact_fallback_nested));
    parts.push(
        number_entry("ads_parallelism_collapse_count", stats.ads_parallelism_collapse_count),
    );
    proof {
        reveal(ads_scheduler_entries);
        assert(text_views(parts@) =~= ads_scheduler_entries(*stats));
    }
    object_of(&parts)
}

#[verifier::opaque]
pub open spec fn window_cache_entries(cache: VectorWindowCacheStats) -> Seq<Seq<char>> {
    seq![
        entry_text("hits"@, decimal(cache.hits as nat)),
        entry_text("misses"@, decimal(cache.misses as nat)),
        entry_text("inserts"@, decimal(cache.inserts as nat)),
        entry_text("evictions"@, decimal(cache.evictions as nat)),
        entry_text("used_peak_bytes"@, decimal(cache.used_peak_bytes as nat)),
        entry_text("saved_direct_read_calls"@, decimal(cache.saved_direct_read_calls as nat)),
        entry_text("logical_bytes"@, decimal(cache.logical_bytes as nat)),
        entry_text("physical_bytes"@, decimal(cache.physical_bytes as nat)),
    ]
}

/// A cache of windows, as JSON.
pub open spec fn window_cache_text(cache: VectorWindowCacheStats) -> Seq<char> {
    object_text(window_cache_entries(cache))
}

pub fn window_cache_json(cache: &VectorWindowCacheStats) -> (text: String)
    ensures
        text@ == window_cache_text(*cache),
{
    let mut parts: Vec<String> = Vec::with_capacity(8);
    parts.push(number_entry("hits", cache.hits as u64));
    parts.push(number_entry("misses", cache.misses as u64));
    parts.push(number_entry("inserts", cache.inserts as u64));
    parts.push(number_entry("evictions", cache.evictions as u64));
    parts.push(number_entry("used_peak_bytes", cache.used_peak_bytes as u64));
    parts.push(number_entry("saved_direct_read_calls", cache.saved_direct_read_calls as u64));
    parts.push(number_entry("logical_bytes", cache.logical_bytes));
    parts.push(number_entry("physical_bytes", cache.physical_bytes));
    proof {
        reveal(window_cache_entries);
        assert(text_views(parts@) =~= window_cache_entries(*cache));
    }
    object_of(&parts)
}

/// Points that were read ahead. Times are in nanoseconds.
#[derive(Debug, Default)]
pub struct PointPipelineStats {
    pub batches: u64,
    pub points: u64,
    pub requested_rows: u64,
    pub physical_rows: u64,
    pub planned_windows: u64,
    pub logical_bytes: u64,
    pub physical_bytes: u64,
    pub direct_read_calls_avoided: u64,
    pub read_wall: u64,
    pub consumer_wait: u64,
    pub producer_wait: u64,
    pub budget_wait: u64,
    pub ready_queue_depth_peak: u64,
    pub permit_peak_bytes: u64,
    pub window_cache: VectorWindowCacheStats,
}

/// Averages of points that were read ahead, written with three decimals.
#[derive(Debug, Default)]
pub struct PointPipelineRatios {
    pub avg_rows_per_window: String,
    pub avg_read_size_bytes: String,
    pub read_amplification: String,
}

#[verifier::opaque]
pub open spec fn point_pipeline_entries(
    stats: PointPipelineStats,
    ratios: PointPipelineRatios,
) -> Seq<Seq<char>> {
    seq![
        entry_text("batches"@, decimal(stats.batches as nat)),
        entry_text("points"@, decimal(stats.points as nat)),
        entry_text("requested_rows"@, decimal(stats.requested_rows as nat)),
        entry_text("physical_rows"@, decimal(stats.physical_rows as nat)),
        entry_text("planned_windows"@, decimal(stats.planned_windows as nat)),
        entry_text("logical_bytes"@, decimal(stats.logical_bytes as nat)),
        entry_text("physical_bytes"@, decimal(stats.physical_bytes as nat)),
        entry_text("avg_rows_per_window"@, ratios.avg_rows_per_window@),
        entry_text("avg_read_size_bytes"@, ratios.avg_read_size_bytes@),
        entry_text("read_amplification"@, ratios.read_amplification@),
        entry_text("direct_read_calls_avoided"@, decimal(stats.direct_read_calls_avoided as nat)),
        entry_text("read_wall_ms"@, ms_text(stats.read_wall)),
        entry_text("consumer_wait_ms"@, ms_text(stats.consumer_wait)),
        entry_text("producer_wait_ms"@, ms_text(stats.producer_wait)),
        entry_text("budget_wait_ms"@, ms_text(stats.budget_wait)),
        entry_text("ready_queue_depth_peak"@, decimal(stats.ready_queue_depth_peak as nat)),
        entry_text("permit_peak_bytes"@, decimal(stats.permit_peak_bytes as nat)),
        entry_text("window_cache"@, window_cache_text(stats.window_cache)),
    ]
}

/// Points that were read ahead, as JSON.
pub open spec fn point_pipeline_text(
    stats: PointPipelineStats,
    ratios: PointPipelineRatios,
) -> Seq<char> {
    object_text(point_pipeline_entries(stats, ratios))
}

pub fn point_pipeline_json(
    stats: &PointPipelineStats,
    ratios: &PointPipelineRatios,
) -> (text: String)
    ensures
        text@ == point_pipeline_text(*stats, *ratios),
{
    let cache: String = window_cache_json(&stats.window_cache);
    let mut parts: Vec<String> = Vec::with_capacity(18);
    parts.push(number_entry("batches", stats.batches));
    parts.push(number_entry("points", stats.points));
    parts.push(number_entry("requested_rows", stats.requested_rows));
    parts.push(number_entry("physical_rows", stats.physical_rows));
    parts.push(number_entry("planned_windows", stats.planned_windows));
    parts.push(number_entry("logical_bytes", stats.logical_bytes));
    parts.push(number_entry("physical_bytes", stats.physical_bytes));
    parts.push(entry("avg_rows_per_window", ratios.avg_rows_per_window.as_str()));
    parts.push(entry("avg_read_size_bytes", ratios.avg_read_size_bytes.as_str()));
    parts.push(entry("read_amplification", ratios.read_amplification.as_str()));
    parts.push(number_entry("direct_read_calls_avoided", stats.direct_read_calls_avoided));
    parts.push(ms_entry("read_wall_ms", stats.read_wall));
    parts.push(ms_entry("consumer_wait_ms", stats.consumer_wait));
    parts.push(ms_entry("producer_wait_ms", stats.producer_wait));
    parts.push(ms_entry("budget_wait_ms", stats.budget_wait));
    parts.push(number_entry("ready_queue_depth_peak", stats.ready_queue_depth_peak));
    parts.push(number_entry("permit_peak_bytes", stats.permit_peak_bytes));
    parts.push(entry("window_cache", cache.as_str()));
    proof {
        reveal(point_pipeline_entries);
        assert(text_views(parts@) =~= point_pipeline_entries(*stats, *ratios));
    }
    object_of(&parts)
}

#[verifier::opaque]
pub open spec fn file_category_entries(stats: FileCategoryStats) -> Seq<Seq<char>> {
    seq![
        entry_text("files"@, decimal(stats.files as nat)),
        entry_text("bytes"@, decimal(stats.bytes as nat)),
    ]
}

/// Files of one kind, as JSON.
pub open spec fn file_category_text(stats: FileCategoryStats) -> Seq<char> {
    object_text(file_category_entries(stats))
}

pub fn file_category_json(stats: &FileCategoryStats) -> (text: String)
    ensures
        text@ == file_category_text(*stats),
{
    let mut parts: Vec<String> = Vec::with_capacity(2);
    parts.push(number_entry("files", stats.files as u64));
    parts.push(number_entry("bytes", stats.bytes));
    proof {
        reveal(file_category_entries);
        assert(text_views(parts@) =~= file_category_entries(*stats));
    }
    object_of(&parts)
}

#[verifier::opaque]
pub open spec fn temp_files_entries(report: TempFileReport) -> Seq<Seq<char>> {
    seq![
        entry_text("total"@, file_category_text(report.total)),
        entry_text("candidate"@, file_category_text(report.candidate)),
        entry_text("partition_depth0"@, file_category_text(report.partition_depth0)),
        entry_text("partition_depth1"@, file_category_text(report.partition_depth1)),
        entry_text("partition_depth2"@, file_category_text(report.partition_depth2)),
        entry_text("partition_depth3"@, file_category_text(report.partition_depth3)),
        entry_text("other"@, file_category_text(report.other)),
    ]
}

/// Temporary files by kind, as JSON.
pub open spec fn temp_files_text(report: TempFileReport) -> Seq<char> {
    object_text(temp_files_entries(report))
}

pub fn temp_files_json(report: &TempFileReport) -> (text: String)
    ensures
        text@ == temp_files_text(*report),
{
    let total: String = file_category_json(&report.total);
    let candidate: String = file_category_json(&report.candidate);
    let partition_depth0: String = file_category_json(&report.partition_depth0);
    let partition_depth1: String = file_category_json(&report.partition_depth1);
    let partition_depth2: String = file_category_json(&report.partition_depth2);
    let partition_depth3: String = file_category_json(&report.partition_depth3);
    let other: String = file_category_json(&report.other);
    let mut parts: Vec<String> = Vec::with_capacity(7);
    parts.push(entry("total", total.as_str()));
    parts.push(entry("candidate", candidate.as_str()));
    parts.push(entry("partition_depth0", partition_depth0.as_str()));
    parts.push(entry("partition_depth1", partition_depth1.as_str()));
    parts.push(entry("partition_depth2", partition_depth2.as_str()));
    parts.push(entry("partition_depth3", partition_depth3.as_str()));
    parts.push(entry("other", other.as_str()));
    proof {
        reveal(temp_files_entries);
        assert(text_views(parts@) =~= temp_files_entries(*report));
    }
    object_of(&parts)
}

#[verifier::opaque]
pub open spec fn memory_entries(report: OomMemoryReport) -> Seq<Seq<char>> {
    seq![
        entry_text("rss_kb_samples"@, list_text(
                    report.rss_kb_samples@.map_values(|value: u64| decimal(value as nat)),
                )),
        entry_text("rss_hwm_kb"@, optional_text(report.rss_hwm_kb)),
        entry_text("vm_peak_kb"@, optional_text(report.vm_peak_kb)),
        entry_text("rss_by_stage"@, stages_text(report)),
    ]
}

/// The memory of a build, as JSON.
pub open spec fn memory_text(report: OomMemoryReport) -> Seq<char> {
    object_text(memory_entries(report))
}

pub fn memory_json(report: &OomMemoryReport) -> (text: String)
    ensures
        text@ == memory_text(*report),
{
    let samples: String = number_list(report.rss_kb_samples.as_slice());
    let hwm: String = format_optional_number(report.rss_hwm_kb);
    let peak: String = format_optional_number(report.vm_peak_kb);
    let stages: String = memory_stage_profile_json(report);
    let mut parts: Vec<String> = Vec::with_capacity(4);
    parts.push(entry("rss_kb_samples", samples.as_str()));
    parts.push(entry("rss_hwm_kb", hwm.as_str()));
    parts.push(entry("vm_peak_kb", peak.as_str()));
    parts.push(entry("rss_by_stage", stages.as_str()));
    proof {
        reveal(memory_entries);
        assert(text_views(parts@) =~= memory_entries(*report));
    }
    object_of(&parts)
}

/// Milliseconds per row of a class of leaf sizes, written with six decimals.
#[derive(Debug, Default)]
pub struct BucketRatios {
    pub exact_ms_per_row: String,
    pub adsampling_ms_per_row: String,
}

#[verifier::opaque]
pub open spec fn leaf_bucket_entries(
    index: int,
    bucket: LeafSizeBucketProfile,
    ratios: BucketRatios,
) -> Seq<Seq<char>> {
    seq![
        entry_text("label"@, quoted(bucket_label(index))),
        entry_text("leaves"@, decimal(bucket.leaves as nat)),
        entry_text("rows"@, decimal(bucket.rows as nat)),
        entry_text("exact_leaves"@, decimal(bucket.exact_leaves as nat)),
        entry_text("exact_rows"@, decimal(bucket.exact_rows as nat)),
        entry_text("exact_wall_ms"@, ms_text(bucket.exact_wall)),
        entry_text("exact_ms_per_row"@, ratios.exact_ms_per_row@),
        entry_text("exact_distance_ms"@, ms_text(bucket.exact_distance)),
        entry_text("exact_topk_ms"@, ms_text(bucket.exact_topk)),
        entry_text("adsampling_leaves"@, decimal(bucket.adsampling_leaves as nat)),
        entry_text("adsampling_rows"@, decimal(bucket.adsampling_rows as nat)),
        entry_text("adsampling_wall_ms"@, ms_text(bucket.adsampling_wall)),
        entry_text("adsampling_ms_per_row"@, ratios.adsampling_ms_per_row@),
        entry_text("adsampling_layout_ms"@, ms_text(bucket.adsampling_layout)),
        entry_text("adsampling_seed_ms"@, ms_text(bucket.adsampling_seed)),
        entry_text("adsampling_scan_ms"@, ms_text(bucket.adsampling_scan)),
        entry_text("adsampling_seed_evals"@, decimal(bucket.adsampling_seed_evals as nat)),
        entry_text("adsampling_full_evals"@, decimal(bucket.adsampling_full_evals as nat)),
        entry_text("adsampling_pruned_evals"@, decimal(bucket.adsampling_pruned_evals as nat)),
        entry_text("adsampling_group_evals"@, decimal(bucket.adsampling_group_evals as nat)),
        entry_text(
            "adsampling_simd_group_calls"@,
            decimal(bucket.adsampling_simd_group_calls as nat),
        ),
        entry_text(
            "adsampling_simd_active_lane_evals"@,
            decimal(bucket.adsampling_simd_active_lane_evals as nat),
        ),
        entry_text(
            "adsampling_scalar_group_evals"@,
            decimal(bucket.adsampling_scalar_group_evals as nat),
        ),
    ]
}

/// One class of leaf sizes, as JSON.
pub open spec fn leaf_bucket_text(
    index: int,
    bucket: LeafSizeBucketProfile,
    ratios: BucketRatios,
) -> Seq<char> {
    object_text(leaf_bucket_entries(index, bucket, ratios))
}

pub fn leaf_bucket_json(
    index: usize,
    bucket: &LeafSizeBucketProfile,
    ratios: &BucketRatios,
) -> (text: String)
    ensures
        text@ == leaf_bucket_text(index as int, *bucket, *ratios),
{
    let mut parts: Vec<String> = Vec::with_capacity(23);
    parts.push(string_entry("label", leaf_size_bucket_label(index)));
    parts.push(number_entry("leaves", bucket.leaves as u64));
    parts.push(number_entry("rows", bucket.rows as u64));
    parts.push(number_entry("exact_leaves", bucket.exact_leaves as u64));
    parts.push(number_entry("exact_rows", bucket.exact_rows as u64));
    parts.push(ms_entry("exact_wall_ms", bucket.exact_wall));
    parts.push(entry("exact_ms_per_row", ratios.exact_ms_per_row.as_str()));
    parts.push(ms_entry("exact_distance_ms", bucket.exact_distance));
    parts.push(ms_entry("exact_topk_ms", bucket.exact_topk));
    parts.push(number_entry("adsampling_leaves", bucket.adsampling_leaves as u64));
    parts.push(number_entry("adsampling_rows", bucket.adsampling_rows as u64));
    parts.push(ms_entry("adsampling_wall_ms", bucket.adsampling_wall));
    parts.push(entry("adsampling_ms_per_row", ratios.adsampling_ms_per_row.as_str()));
    parts.push(ms_entry("adsampling_layout_ms", bucket.adsampling_layout));
    parts.push(ms_entry("adsampling_seed_ms", bucket.adsampling_seed));
    parts.push(ms_entry("adsampling_scan_ms", bucket.adsampling_scan));
    parts.push(number_entry("adsampling_seed_evals", bucket.adsampling_seed_evals));
    parts.push(number_entry("adsampling_full_evals", bucket.adsampling_full_evals));
    parts.push(number_entry("adsampling_pruned_evals", bucket.adsampling_pruned_evals));
    parts.push(number_entry("adsampling_group_evals", bucket.adsampling_group_evals));
    parts.push(number_entry("adsampling_simd_group_calls", bucket.adsampling_simd_group_calls));
    parts.push(
        number_entry("adsampling_simd_active_lane_evals", bucket.adsampling_simd_active_lane_evals),
    );
    parts.push(number_entry("adsampling_scalar_group_evals", bucket.adsampling_scalar_group_evals));
    proof {
        reveal(leaf_bucket_entries);
        assert(text_views(parts@) =~= leaf_bucket_entries(index as int, *bucket, *ratios));
    }
    object_of(&parts)
}

/// The classes of leaf sizes up to the `n`-th.
pub open spec fn leaf_bucket_texts(profile: LeafProfile, ratios: Seq<BucketRatios>, n: int) -> Seq<
    Seq<char>,
>
    decreases n,
{
    if n <= 0 {
        Seq::<Seq<char>>::empty()
    } else {
        leaf_bucket_texts(profile, ratios, n - 1).push(
            leaf_bucket_text(n - 1, profile.leaf_size_buckets@[n - 1], ratios[n - 1]),
        )
    }
}

/// All classes of leaf sizes as a JSON list.
pub fn leaf_size_bucket_profile_json(
    profile: &LeafProfile,
    ratios: &Vec<BucketRatios>,
) -> (text: String)
    requires
        ratios@.len() == LEAF_SIZE_BUCKETS,
    ensures
        text@ == list_text(leaf_bucket_texts(*profile, ratios@, LEAF_SIZE_BUCKETS as int)),
{
    let mut parts: Vec<String> = Vec::with_capacity(LEAF_SIZE_BUCKETS);
    proof {
        assert(text_views(parts@) =~= leaf_bucket_texts(*profile, ratios@, 0));
    }
    for i in 0..LEAF_SIZE_BUCKETS
        invariant
            ratios@.len() == LEAF_SIZE_BUCKETS,
            parts@.len() == i,
            text_views(parts@) == leaf_bucket_texts(*profile, ratios@, i as int),
    {
        let ghost before = parts@;
        let bucket: LeafSizeBucketProfile = profile.leaf_size_buckets[i];
        parts.push(leaf_bucket_json(i, &bucket, &ratios[i]));
        proof {
            assert(text_views(parts@) =~= text_views(before).push(parts@[i as int]@));
        }
    }
    list_of(&parts)
}

#[verifier::opaque]
pub open spec fn leaf_entries(
    leaf: LeafProfile,
    tile_rows_avg: Seq<char>,
    ratios: Seq<BucketRatios>,
) -> Seq<Seq<char>> {
    seq![
        entry_text("leaves"@, decimal(leaf.leaves as nat)),
        entry_text("points"@, decimal(leaf.points as nat)),
        entry_text("blockwise_leaves"@, decimal(leaf.blockwise_leaves as nat)),
        entry_text("total_wall_ms"@, ms_text(leaf.total_wall)),
        entry_text("load_ms"@, ms_text(leaf.load)),
        entry_text("distance_ms"@, ms_text(leaf.distance)),
        entry_text("topk_ms"@, ms_text(leaf.topk)),
        entry_text("hash_ms"@, ms_text(leaf.hash)),
        entry_text("flush_ms"@, ms_text(leaf.flush)),
        entry_text("leaf_adsampling_leaves"@, decimal(leaf.leaf_adsampling_leaves as nat)),
        entry_text("leaf_adsampling_rows"@, decimal(leaf.leaf_adsampling_rows as nat)),
        entry_text("leaf_adsampling_layout_ms"@, ms_text(leaf.leaf_adsampling_layout)),
        entry_text("leaf_adsampling_seed_ms"@, ms_text(leaf.leaf_adsampling_seed)),
        entry_text("leaf_adsampling_scan_ms"@, ms_text(leaf.leaf_adsampling_scan)),
        entry_text("leaf_adsampling_seed_evals"@, decimal(leaf.leaf_adsampling_seed_evals as nat)),
        entry_text("leaf_adsampling_full_evals"@, decimal(leaf.leaf_adsampling_full_evals as nat)),
        entry_text(
            "leaf_adsampling_pruned_evals"@,
            decimal(leaf.leaf_adsampling_pruned_evals as nat),
        ),
        entry_text(
            "leaf_adsampling_group_evals"@,
            decimal(leaf.leaf_adsampling_group_evals as nat),
        ),
        entry_text(
            "leaf_adsampling_simd_group_calls"@,
            decimal(leaf.leaf_adsampling_simd_group_calls as nat),
        ),
        entry_text(
            "leaf_adsampling_simd_active_lane_evals"@,
            decimal(leaf.leaf_adsampling_simd_active_lane_evals as nat),
        ),
        entry_text(
            "leaf_adsampling_scalar_group_evals"@,
            decimal(leaf.leaf_adsampling_scalar_group_evals as nat),
        ),
        entry_text("leaf_ads_tiling_enabled"@, bool_text(leaf.leaf_ads_tiling_enabled)),
        entry_text(
            "leaf_ads_wavefront_pairmask_enabled"@,
            bool_text(leaf.leaf_ads_wavefront_pairmask_enabled),
        ),
        entry_text("leaf_ads_work_graph_enabled"@, bool_text(leaf.leaf_ads_work_graph_enabled)),
        entry_text("leaf_ads_tiled_leaves"@, decimal(leaf.leaf_ads_tiled_leaves as nat)),
        entry_text("leaf_ads_tiled_rows"@, decimal(leaf.leaf_ads_tiled_rows as nat)),
        entry_text("leaf_ads_tiles"@, decimal(leaf.leaf_ads_tiles as nat)),
        entry_text("leaf_ads_tile_rows_min"@, decimal(leaf.leaf_ads_tile_rows_min as nat)),
        entry_text("leaf_ads_tile_rows_max"@, decimal(leaf.leaf_ads_tile_rows_max as nat)),
        entry_text("leaf_ads_tile_rows_avg"@, tile_rows_avg),
        entry_text("leaf_ads_tile_wall_ms"@, ms_text(leaf.leaf_ads_tile_wall)),
        entry_text("leaf_ads_tile_wait_ms"@, ms_text(leaf.leaf_ads_tile_wait)),
        entry_text("leaf_ads_handle_requeues"@, decimal(leaf.leaf_ads_handle_requeues as nat)),
        entry_text("leaf_ads_cpu_budget"@, decimal(leaf.leaf_ads_cpu_budget as nat)),
        entry_text(
            "leaf_ads_active_context_peak"@,
            decimal(leaf.leaf_ads_active_context_peak as nat),
        ),
        entry_text(
            "leaf_ads_active_workers_peak"@,
            decimal(leaf.leaf_ads_active_workers_peak as nat),
        ),
        entry_text("leaf_ads_ewma_ns_per_row_by_bucket"@, list_text(
                    leaf.leaf_ads_ewma_ns_per_row_by_bucket@.map_values(
                        |value: u64| decimal(value as nat),
                    ),
                )),
        entry_text(
            "size_buckets"@,
            list_text(leaf_bucket_texts(leaf, ratios, LEAF_SIZE_BUCKETS as int)),
        ),
    ]
}

/// The leaves of a build, as JSON.
pub open spec fn leaf_text(
    leaf: LeafProfile,
    tile_rows_avg: Seq<char>,
    ratios: Seq<BucketRatios>,
) -> Seq<char> {
    object_text(leaf_entries(leaf, tile_rows_avg, ratios))
}

pub fn leaf_json(
    leaf: &LeafProfile,
    tile_rows_avg: &String,
    ratios: &Vec<BucketRatios>,
) -> (text: String)
    requires
        ratios@.len() == LEAF_SIZE_BUCKETS,
    ensures
        text@ == leaf_text(*leaf, tile_rows_avg@, ratios@),
{
    let ewma: String = number_list(leaf.leaf_ads_ewma_ns_per_row_by_bucket.as_slice());
    let buckets: String = leaf_size_bucket_profile_json(leaf, ratios);
    let mut parts: Vec<String> = Vec::with_capacity(38);
    parts.push(number_entry("leaves", leaf.leaves as u64));
    parts.push(number_entry("points", leaf.points as u64));
    parts.push(number_entry("blockwise_leaves", leaf.blockwise_leaves as u64));
    parts.push(ms_entry("total_wall_ms", leaf.total_wall));
    parts.push(ms_entry("load_ms", leaf.load));
    parts.push(ms_entry("distance_ms", leaf.distance));
    parts.push(ms_entry("topk_ms", leaf.topk));
    parts.push(ms_entry("hash_ms", leaf.hash));
    parts.push(ms_entry("flush_ms", leaf.flush));
    parts.push(number_entry("leaf_adsampling_leaves", leaf.leaf_adsampling_leaves as u64));
    parts.push(number_entry("leaf_adsampling_rows", leaf.leaf_adsampling_rows as u64));
    parts.push(ms_entry("leaf_adsampling_layout_ms", leaf.leaf_adsampling_layout));
    parts.push(ms_entry("leaf_adsampling_seed_ms", leaf.leaf_adsampling_seed));
    parts.push(ms_entry("leaf_adsampling_scan_ms", leaf.leaf_adsampling_scan));
    parts.push(number_entry("leaf_adsampling_seed_evals", leaf.leaf_adsampling_seed_evals));
    parts.push(number_entry("leaf_adsampling_full_evals", leaf.leaf_adsampling_full_evals));
    parts.push(number_entry("leaf_adsampling_pruned_evals", leaf.leaf_adsampling_pruned_evals));
    parts.push(number_entry("leaf_adsampling_group_evals", leaf.leaf_adsampling_group_evals));
    parts.push(
        number_entry("leaf_adsampling_simd_group_calls", leaf.leaf_adsampling_simd_group_calls),
    );
    parts.push(
        number_entry(
            "leaf_adsampling_simd_active_lane_evals",
            leaf.leaf_adsampling_simd_active_lane_evals,
        ),
    );
    parts.push(
        number_entry("leaf_adsampling_scalar_group_evals", leaf.leaf_adsampling_scalar_group_evals),
    );
    parts.push(bool_entry("leaf_ads_tiling_enabled", leaf.leaf_ads_tiling_enabled));
    parts.push(
        bool_entry("leaf_ads_wavefront_pairmask_enabled", leaf.leaf_ads_wavefront_pairmask_enabled),
    );
    parts.push(bool_entry("leaf_ads_work_graph_enabled", leaf.leaf_ads_work_graph_enabled));
    parts.push(number_entry("leaf_ads_tiled_leaves", leaf.leaf_ads_tiled_leaves as u64));
    parts.push(number_entry("leaf_ads_tiled_rows", leaf.leaf_ads_tiled_rows as u64));
    parts.push(number_entry("leaf_ads_tiles", leaf.leaf_ads_tiles as u64));
    parts.push(number_entry("leaf_ads_tile_rows_min", leaf.leaf_ads_tile_rows_min as u64));
    parts.push(number_entry("leaf_ads_tile_rows_max", leaf.leaf_ads_tile_rows_max as u64));
    parts.push(entry("leaf_ads_tile_rows_avg", tile_rows_avg.as_str()));
    parts.push(ms_entry("leaf_ads_tile_wall_ms", leaf.leaf_ads_tile_wall));
    parts.push(ms_entry("leaf_ads_tile_wait_ms", leaf.leaf_ads_tile_wait));
    parts.push(number_entry("leaf_ads_handle_requeues", leaf.leaf_ads_handle_requeues as u64));
    parts.push(number_entry("leaf_ads_cpu_budget", leaf.leaf_ads_cpu_budget as u64));
    parts.push(
        number_entry("leaf_ads_active_context_peak", leaf.leaf_ads_active_context_peak as u64),
    );
    parts.push(
        number_entry("leaf_ads_active_workers_peak", leaf.leaf_ads_active_workers_peak as u64),
    );
    parts.push(entry("leaf_ads_ewma_ns_per_row_by_bucket", ewma.as_str()));
    parts.push(entry("size_buckets", buckets.as_str()));
    proof {
        reveal(leaf_entries);
        assert(text_views(parts@) =~= leaf_entries(*leaf, tile_rows_avg@, ratios@));
    }
    object_of(&parts)
}

/// Assignments at some depth with so many leaders. Times are in nanoseconds, ratios are
/// written with six decimals.
#[derive(Debug, Default)]
pub struct AssignmentBucket {
    pub label: String,
    pub nodes: u64,
    pub points: u64,
    pub work: u64,
    pub max_points: u64,
    pub max_leaders: u64,
    pub max_work: u64,
    pub gemm_nodes: u64,
    pub gemm_points: u64,
    pub gemm_wall: u64,
    pub adsampling_nodes: u64,
    pub adsampling_points: u64,
    pub adsampling_wall: u64,
    pub adsampling_recall_samples: u64,
    pub adsampling_mismatches: u64,
    pub gemm_ms_per_work_m: String,
    pub adsampling_ms_per_work_m: String,
    pub adsampling_avg_recall_at_fanout: String,
}

#[verifier::opaque]
pub open spec fn assignment_bucket_entries(bucket: AssignmentBucket) -> Seq<Seq<char>> {
    seq![
        entry_text("label"@, quoted(bucket.label@)),
        entry_text("nodes"@, decimal(bucket.nodes as nat)),
        entry_text("points"@, decimal(bucket.points as nat)),
        entry_text("work"@, decimal(bucket.work as nat)),
        entry_text("max_points"@, decimal(bucket.max_points as nat)),
        entry_text("max_leaders"@, decimal(bucket.max_leaders as nat)),
        entry_text("max_work"@, decimal(bucket.max_work as nat)),
        entry_text("gemm_nodes"@, decimal(bucket.gemm_nodes as nat)),
        entry_text("gemm_points"@, decimal(bucket.gemm_points as nat)),
        entry_text("gemm_wall_ms"@, ms_text(bucket.gemm_wall)),
        entry_text("gemm_ms_per_work_m"@, bucket.gemm_ms_per_work_m@),
        entry_text("adsampling_nodes"@, decimal(bucket.adsampling_nodes as nat)),
        entry_text("adsampling_points"@, decimal(bucket.adsampling_points as nat)),
        entry_text("adsampling_wall_ms"@, ms_text(bucket.adsampling_wall)),
        entry_text("adsampling_ms_per_work_m"@, bucket.adsampling_ms_per_work_m@),
        entry_text("adsampling_avg_recall_at_fanout"@, bucket.adsampling_avg_recall_at_fanout@),
        entry_text("adsampling_recall_samples"@, decimal(bucket.adsampling_recall_samples as nat)),
        entry_text("adsampling_mismatches"@, decimal(bucket.adsampling_mismatches as nat)),
    ]
}

/// One class of assignments, as JSON.
pub open spec fn assignment_bucket_text(bucket: AssignmentBucket) -> Seq<char> {
    object_text(assignment_bucket_entries(bucket))
}

pub fn assignment_bucket_json(bucket: &AssignmentBucket) -> (text: String)
    ensures
        text@ == assignment_bucket_text(*bucket),
{
    let mut parts: Vec<String> = Vec::with_capacity(18);
    parts.push(string_entry("label", bucket.label.as_str()));
    parts.push(number_entry("nodes", bucket.nodes));
    parts.push(number_entry("points", bucket.points));
    parts.push(number_entry("work", bucket.work));
    parts.push(number_entry("max_points", bucket.max_points));
    parts.push(number_entry("max_leaders", bucket.max_leaders));
    parts.push(number_entry("max_work", bucket.max_work));
    parts.push(number_entry("gemm_nodes", bucket.gemm_nodes));
    parts.push(number_entry("gemm_points", bucket.gemm_points));
    parts.push(ms_entry("gemm_wall_ms", bucket.gemm_wall));
    parts.push(entry("gemm_ms_per_work_m", bucket.gemm_ms_per_work_m.as_str()));
    parts.push(number_entry("adsampling_nodes", bucket.adsampling_nodes));
    parts.push(number_entry("adsampling_points", bucket.adsampling_points));
    parts.push(ms_entry("adsampling_wall_ms", bucket.adsampling_wall));
    parts.push(entry("adsampling_ms_per_work_m", bucket.adsampling_ms_per_work_m.as_str()));
    parts.push(
        entry("adsampling_avg_recall_at_fanout", bucket.adsampling_avg_recall_at_fanout.as_str()),
    );
    parts.push(number_entry("adsampling_recall_samples", bucket.adsampling_recall_samples));
    parts.push(number_entry("adsampling_mismatches", bucket.adsampling_mismatches));
    proof {
        reveal(assignment_bucket_entries);
        assert(text_views(parts@) =~= assignment_bucket_entries(*bucket));
    }
    object_of(&parts)
}

/// Assignments at one depth, by their number of leaders.
#[derive(Debug)]
pub struct AssignmentDepth {
    pub label: String,
    pub leader_buckets: Vec<AssignmentBucket>,
}

/// How often one reason kept points from being assigned by sampling.
#[derive(Debug)]
pub struct FallbackCount {
    pub reason: String,
    pub count: u64,
}

/// How points were assigned.
#[derive(Debug)]
pub struct AssignmentDecisionProfile {
    pub depths: Vec<AssignmentDepth>,
    pub fallback_reasons: Vec<FallbackCount>,
}

pub open spec fn assignment_bucket_texts(buckets: Seq<AssignmentBucket>) -> Seq<Seq<char>> {
    buckets.map_values(|bucket: AssignmentBucket| assignment_bucket_text(bucket))
}

pub open spec fn assignment_depth_text(depth: AssignmentDepth) -> Seq<char> {
    object_text(
        seq![
            entry_text("label"@, quoted(depth.label@)),
            entry_text(
                "leader_buckets"@,
                list_text(assignment_bucket_texts(depth.leader_buckets@)),
            ),
        ],
    )
}

pub open spec fn assignment_text(profile: AssignmentDecisionProfile) -> Seq<char> {
    object_text(
        seq![
            entry_text(
                "depth_leader_buckets"@,
                list_text(
                    profile.depths@.map_values(|depth: AssignmentDepth| assignment_depth_text(depth)),
                ),
            ),
            entry_text(
                "fallback_reasons"@,
                object_text(
                    profile.fallback_reasons@.map_values(
                        |f: FallbackCount| entry_text(f.reason@, decimal(f.count as nat)),
                    ),
                ),
            ),
        ],
    )
}

fn assignment_depth_json(depth: &AssignmentDepth) -> (text: String)
    ensures
        text@ == assignment_depth_text(*depth),
{
    let mut buckets: Vec<String> = Vec::with_capacity(depth.leader_buckets.len());
    for i in 0..depth.leader_buckets.len()
        invariant
            text_views(buckets@) == assignment_bucket_texts(
                depth.leader_buckets@.take(i as int),
            ),
    {
        let ghost before = buckets@;
        buckets.push(assignment_bucket_json(&depth.leader_buckets[i]));
        proof {
            assert(text_views(buckets@) =~= text_views(before).push(buckets@[i as int]@));
            assert(assignment_bucket_texts(depth.leader_buckets@.take(i + 1))
                =~= assignment_bucket_texts(depth.leader_buckets@.take(i as int)).push(
                assignment_bucket_text(depth.leader_buckets@[i as int]),
            ));
        }
    }
    proof {
        assert(depth.leader_buckets@.take(depth.leader_buckets@.len() as int)
            =~= depth.leader_buckets@);
    }
    let list: String = list_of(&buckets);
    let mut parts: Vec<String> = Vec::with_capacity(2);
    parts.push(string_entry("label", depth.label.as_str()));
    parts.push(entry("leader_buckets", list.as_str()));
    let text: String = object_of(&parts);
    proof {
        assert(text_views(parts@) =~= seq![
            entry_text("label"@, quoted(depth.label@)),
            entry_text(
                "leader_buckets"@,
                list_text(assignment_bucket_texts(depth.leader_buckets@)),
            ),
        ]);
    }
    text
}

/// How points were assigned, as JSON.
pub fn assignment_decision_profile_json(profile: &AssignmentDecisionProfile) -> (text: String)
    ensures
        text@ == assignment_text(*profile),
{
    let mut depths: Vec<String> = Vec::with_capacity(profile.depths.len());
    for i in 0..profile.depths.len()
        invariant
            text_views(depths@) == profile.depths@.take(i as int).map_values(
                |depth: AssignmentDepth| assignment_depth_text(depth),
            ),
    {
        let ghost before = depths@;
        depths.push(assignment_depth_json(&profile.depths[i]));
        proof {
            assert(text_views(depths@) =~= text_views(before).push(depths@[i as int]@));
            assert(profile.depths@.take(i + 1).map_values(
                |depth: AssignmentDepth| assignment_depth_text(depth),
            ) =~= profile.depths@.take(i as int).map_values(
                |depth: AssignmentDepth| assignment_depth_text(depth),
            ).push(assignment_depth_text(profile.depths@[i as int])));
        }
    }
    let mut reasons: Vec<String> = Vec::with_capacity(profile.fallback_reasons.len());
    for i in 0..profile.fallback_reasons.len()
        invariant
            text_views(reasons@) == profile.fallback_reasons@.take(i as int).map_values(
                |f: FallbackCount| entry_text(f.reason@, decimal(f.count as nat)),
            ),
    {
        let ghost before = reasons@;
        let reason: &FallbackCount = &profile.fallback_reasons[i];
        reasons.push(number_entry(reason.reason.as_str(), reason.count));
        proof {
            assert(text_views(reasons@) =~= text_views(before).push(reasons@[i as int]@));
            assert(profile.fallback_reasons@.take(i + 1).map_values(
                |f: FallbackCount| entry_text(f.reason@, decimal(f.count as nat)),
            ) =~= profile.fallback_reasons@.take(i as int).map_values(
                |f: FallbackCount| entry_text(f.reason@, decimal(f.count as nat)),
            ).push(entry_text(reason.reason@, decimal(reason.count as nat))));
        }
    }
    proof {
        assert(profile.depths@.take(profile.depths@.len() as int) =~= profile.depths@);
        assert(profile.fallback_reasons@.take(profile.fallback_reasons@.len() as int)
            =~= profile.fallback_reasons@);
    }
    let depth_list: String = list_of(&depths);
    let reason_object: String = object_of(&reasons);
    let mut parts: Vec<String> = Vec::with_capacity(2);
    parts.push(entry("depth_leader_buckets", depth_list.as_str()));
    parts.push(entry("fallback_reasons", reason_object.as_str()));
    let text: String = object_of(&parts);
    proof {
        assert(text_views(parts@) =~= seq![
            entry_text(
                "depth_leader_buckets"@,
                list_text(
                    profile.depths@.map_values(|depth: AssignmentDepth| assignment_depth_text(depth)),
                ),
            ),
            entry_text(
                "fallback_reasons"@,
                object_text(
                    profile.fallback_reasons@.map_values(
                        |f: FallbackCount| entry_text(f.reason@, decimal(f.count as nat)),
                    ),
                ),
            ),
        ]);
    }
    text
}

/// All that is reported of a build. Of the root's assignment it holds the entries, and of
/// the planning the object, as JSON.
#[derive(Debug)]
pub struct OomProfile {
    pub num_points: u64,
    pub dim: u64,
    pub point_store_backend: String,
    pub memory_budget_bytes: u64,
    pub effective_threads: u64,
    pub pool_threads: u64,
    pub leaf_budget_threads: u64,
    pub reduce_shard_points: u64,
    pub sketch_bytes: u64,
    pub sketch_file_bytes: u64,
    pub spill: SpillRunStats,
    pub reduce: SpillReduceStats,
    pub stages: StageTimes,
    pub memory: OomMemoryReport,
    pub temp_files: TempFileReport,
    pub uring: UringStats,
    pub scheduler: SchedulerTelemetry,
    pub root_fanout: String,
    pub assignment_decisions: AssignmentDecisionProfile,
    pub ads_scheduler: AdsSchedulerTelemetry,
    pub io_planned: String,
    pub point_pipeline: PointPipelineStats,
    pub point_pipeline_ratios: PointPipelineRatios,
    pub leaf: LeafProfile,
    pub leaf_tile_rows_avg: String,
    pub leaf_bucket_ratios: Vec<BucketRatios>,
}

pub open spec fn profile_entries(profile: OomProfile) -> Seq<Seq<char>> {
    seq![
        entry_text("num_points"@, decimal(profile.num_points as nat)),
        entry_text("dim"@, decimal(profile.dim as nat)),
        entry_text("point_store_backend"@, quoted(profile.point_store_backend@)),
        entry_text("memory_budget_bytes"@, decimal(profile.memory_budget_bytes as nat)),
        entry_text("effective_threads"@, decimal(profile.effective_threads as nat)),
        entry_text("pool_threads"@, decimal(profile.pool_threads as nat)),
        entry_text("leaf_budget_threads"@, decimal(profile.leaf_budget_threads as nat)),
        entry_text("reduce_shard_points"@, decimal(profile.reduce_shard_points as nat)),
        entry_text("sketch_bytes"@, decimal(profile.sketch_bytes as nat)),
        entry_text("sketch_file_bytes"@, decimal(profile.sketch_file_bytes as nat)),
        entry_text("spill"@, spill_text(profile.spill)),
        entry_text("reduce"@, reduce_text(profile.reduce)),
        entry_text("stage_ms"@, stage_ms_text(profile.stages)),
        entry_text("memory"@, memory_text(profile.memory)),
        entry_text("temp_files"@, temp_files_text(profile.temp_files)),
        entry_text("io_uring"@, uring_text(profile.uring)),
        entry_text("scheduler"@, scheduler_text(profile.scheduler)),
        profile.root_fanout@,
        entry_text("assignment_decisions"@, assignment_text(profile.assignment_decisions)),
        entry_text("ads_scheduler"@, ads_scheduler_text(profile.ads_scheduler)),
        entry_text("io_planned_forgeann"@, profile.io_planned@),
        entry_text(
            "point_pipeline"@,
            point_pipeline_text(profile.point_pipeline, profile.point_pipeline_ratios),
        ),
        entry_text("leaf"@, leaf_text(
                    profile.leaf,
                    profile.leaf_tile_rows_avg@,
                    profile.leaf_bucket_ratios@,
                )),
    ]
}

/// The report as JSON, one entry on each line.
pub open spec fn profile_text(profile: OomProfile) -> Seq<char> {
    document_text(profile_entries(profile))
}

/// What stands between the braces of a JSON object; nothing of any other text.
pub open spec fn object_body(text: Seq<char>) -> Option<Seq<char>> {
    if text.len() >= 2 && text[0] == '{' && text.last() == '}' {
        Some(text.subrange(1, text.len() - 1))
    } else {
        None
    }
}

pub fn braces_stripped(text: &str) -> (body: Option<&str>)
    ensures
        match body {
            Some(inner) => object_body(text@) == Some(inner@),
            None => object_body(text@) is None,
        },
{
    let total: usize = text.unicode_len();
    if total >= 2 && text.get_char(0) == '{' && text.get_char(total - 1) == '}' {
        Some(text.substring_char(1, total - 1))
    } else {
        None
    }
}

/// The entries of the root's report, taken out of the object around them.
pub fn root_entries(root_json: &str) -> (text: String)
    ensures
        text@ == match object_body(trimmed(root_json@)) {
            Some(body) => trimmed(body),
            None => "\"root_fanout\": null"@,
        },
{
    match braces_stripped(trim(root_json)) {
        Some(inner) => trim(inner).to_owned(),
        None => "\"root_fanout\": null".to_owned(),
    }
}

/// Whether a build that was really planned has measured what its reads cost.
pub fn validate_oom_profile(planner: &IoPlannerStats) -> (result: AnnResult<()>)
    ensures
        match result {
            Ok(_) => !(planner.counters.enabled && !planner.counters.dry_run
                && planner.counters.planned_nodes > 0 && planner.io_pain_by_depth@.len() == 0),
            Err(error) => {
                &&& planner.counters.enabled && !planner.counters.dry_run
                    && planner.counters.planned_nodes > 0 && planner.io_pain_by_depth@.len() == 0
                &&& error matches AnnError::IndexConfig { parameter, err } && parameter@
                    == "io_pain_by_depth"@ && err@
                    == "actual io-planned ForgeANN profile has empty io_pain_by_depth"@
            },
        },
{
    if planner.counters.enabled && !planner.counters.dry_run && planner.counters.planned_nodes > 0
        && planner.io_pain_by_depth.len() == 0 {
        return Err(
            AnnError::log_index_config_error(
                "io_pain_by_depth".to_owned(),
                "actual io-planned ForgeANN profile has empty io_pain_by_depth".to_owned(),
            ),
        );
    }
    Ok(())
}

/// The text of the report.
pub fn oom_profile_json(profile: &OomProfile) -> (text: String)
    requires
        profile.leaf_bucket_ratios@.len() == LEAF_SIZE_BUCKETS,
    ensures
        text@ == profile_text(*profile),
{
    let spill: String = spill_json(&profile.spill);
    let reduce: String = reduce_json(&profile.reduce);
    let stages: String = stage_ms_json(&profile.stages);
    let memory: String = memory_json(&profile.memory);
    let temp_files: String = temp_files_json(&profile.temp_files);
    let uring: String = uring_json(&profile.uring);
    let scheduler: String = scheduler_json(&profile.scheduler);
    let decisions: String = assignment_decision_profile_json(&profile.assignment_decisions);
    let ads_scheduler: String = ads_scheduler_json(&profile.ads_scheduler);
    let point_pipeline: String = point_pipeline_json(
        &profile.point_pipeline,
        &profile.point_pipeline_ratios,
    );
    let leaf: String = leaf_json(
        &profile.leaf,
        &profile.leaf_tile_rows_avg,
        &profile.leaf_bucket_ratios,
    );
    let mut parts: Vec<String> = Vec::with_capacity(23);
    parts.push(number_entry("num_points", profile.num_points));
    parts.push(number_entry("dim", profile.dim));
    parts.push(string_entry("point_store_backend", profile.point_store_backend.as_str()));
    parts.push(number_entry("memory_budget_bytes", profile.memory_budget_bytes));
    parts.push(number_entry("effective_threads", profile.effective_threads));
    parts.push(number_entry("pool_threads", profile.pool_threads));
    parts.push(number_entry("leaf_budget_threads", profile.leaf_budget_threads));
    parts.push(number_entry("reduce_shard_points", profile.reduce_shard_points));
    parts.push(number_entry("sketch_bytes", profile.sketch_bytes));
    parts.push(number_entry("sketch_file_bytes", profile.sketch_file_bytes));
    parts.push(entry("spill", spill.as_str()));
    parts.push(entry("reduce", reduce.as_str()));
    parts.push(entry("stage_ms", stages.as_str()));
    parts.push(entry("memory", memory.as_str()));
    parts.push(entry("temp_files", temp_files.as_str()));
    parts.push(entry("io_uring", uring.as_str()));
    parts.push(entry("scheduler", scheduler.as_str()));
    parts.push(profile.root_fanout.clone());
    parts.push(entry("assignment_decisions", decisions.as_str()));
    parts.push(entry("ads_scheduler", ads_scheduler.as_str()));
    parts.push(entry("io_planned_forgeann", profile.io_planned.as_str()));
    parts.push(entry("point_pipeline", point_pipeline.as_str()));
    parts.push(entry("leaf", leaf.as_str()));
    proof {
        assert(text_views(parts@) =~= profile_entries(*profile));
    }
    document_of(&parts)
}

} // verus!
