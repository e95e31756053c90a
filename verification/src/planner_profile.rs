//! What is reported of a planned build, as JSON with its keys in order.

use vstd::prelude::*;
use vstd::string::*;

use crate::io_stats::{DepthIoPainStats, IoPlannerStats};
use crate::json_text::{
    bool_text, compact_bool_entry, compact_entry, compact_entry_text, compact_list,
    compact_list_text, compact_number_entry, compact_object, compact_object_text, text_views,
};
use crate::oom_profile::{ms_text, NS_PER_MS};
use crate::text::decimal;

verus! {

/// Ratios and times of the reads at one depth, as numbers in JSON.
#[derive(Debug)]
pub struct DepthPainRatios {
    pub avg_read_size: String,
    pub read_amplification: String,
    pub io_ms: String,
    pub consumer_wait_ms: String,
    pub producer_wait_ms: String,
    pub consumer_wait_over_io: String,
}

#[verifier::opaque]
pub open spec fn depth_pain_entries(
    pain: DepthIoPainStats,
    ratios: DepthPainRatios,
) -> Seq<Seq<char>> {
    seq![
        compact_entry_text("avg_read_size"@, ratios.avg_read_size@),
        compact_entry_text("consumer_wait_ms"@, ratios.consumer_wait_ms@),
        compact_entry_text("consumer_wait_over_io"@, ratios.consumer_wait_over_io@),
        compact_entry_text("depth"@, decimal(pain.depth as nat)),
        compact_entry_text("io_ms"@, ratios.io_ms@),
        compact_entry_text("logical_bytes"@, decimal(pain.logical_bytes as nat)),
        compact_entry_text("physical_bytes"@, decimal(pain.physical_bytes as nat)),
        compact_entry_text("point_gather_batches"@, decimal(pain.point_gather_batches as nat)),
        compact_entry_text("point_gather_windows"@, decimal(pain.point_gather_windows as nat)),
        compact_entry_text(
            "prefetch_used_peak_bytes"@,
            decimal(pain.prefetch_used_peak_bytes as nat),
        ),
        compact_entry_text("producer_wait_ms"@, ratios.producer_wait_ms@),
        compact_entry_text("read_amplification"@, ratios.read_amplification@),
    ]
}

/// Reads at one depth, as JSON.
pub open spec fn depth_pain_text(pain: DepthIoPainStats, ratios: DepthPainRatios) -> Seq<char> {
    compact_object_text(depth_pain_entries(pain, ratios))
}

pub fn depth_pain_json(pain: &DepthIoPainStats, ratios: &DepthPainRatios) -> (text: String)
    ensures
        text@ == depth_pain_text(*pain, *ratios),
{
    let mut parts: Vec<String> = Vec::with_capacity(12);
    parts.push(compact_entry("avg_read_size", ratios.avg_read_size.as_str()));
    parts.push(compact_entry("consumer_wait_ms", ratios.consumer_wait_ms.as_str()));
    parts.push(compact_entry("consumer_wait_over_io", ratios.consumer_wait_over_io.as_str()));
    parts.push(compact_number_entry("depth", pain.depth as u64));
    parts.push(compact_entry("io_ms", ratios.io_ms.as_str()));
    parts.push(compact_number_entry("logical_bytes", pain.logical_bytes));
    parts.push(compact_number_entry("physical_bytes", pain.physical_bytes));
    parts.push(compact_number_entry("point_gather_batches", pain.point_gather_batches as u64));
    parts.push(compact_number_entry("point_gather_windows", pain.point_gather_windows as u64));
    parts.push(
        compact_number_entry("prefetch_used_peak_bytes", pain.prefetch_used_peak_bytes as u64),
    );
    parts.push(compact_entry("producer_wait_ms", ratios.producer_wait_ms.as_str()));
    parts.push(compact_entry("read_amplification", ratios.read_amplification.as_str()));
    proof {
        reveal(depth_pain_entries);
        assert(text_views(parts@) =~= depth_pain_entries(*pain, *ratios));
    }
    compact_object(&parts)
}

pub open spec fn depth_pain_texts(
    pain: Seq<DepthIoPainStats>,
    ratios: Seq<DepthPainRatios>,
    n: int,
) -> Seq<
    Seq<char>,
>
    decreases n,
{
    if n <= 0 {
        Seq::<Seq<char>>::empty()
    } else {
        depth_pain_texts(pain, ratios, n - 1).push(depth_pain_text(pain[n - 1], ratios[n - 1]))
    }
}

fn depth_pain_list(pain: &Vec<DepthIoPainStats>, ratios: &Vec<DepthPainRatios>) -> (text: String)
    requires
        ratios@.len() == pain@.len(),
    ensures
        text@ == compact_list_text(depth_pain_texts(pain@, ratios@, pain@.len() as int)),
{
    let mut parts: Vec<String> = Vec::with_capacity(pain.len());
    proof {
        assert(text_views(parts@) =~= depth_pain_texts(pain@, ratios@, 0));
    }
    for i in 0..pain.len()
        invariant
            ratios@.len() == pain@.len(),
            parts@.len() == i,
            text_views(parts@) == depth_pain_texts(pain@, ratios@, i as int),
    {
        let ghost before = parts@;
        let one: DepthIoPainStats = pain[i];
        parts.push(depth_pain_json(&one, &ratios[i]));
        proof {
            assert(text_views(parts@) =~= text_views(before).push(parts@[i as int]@));
        }
    }
    compact_list(&parts)
}

#[verifier::opaque]
pub open spec fn selected_actions_entries(stats: IoPlannerStats) -> Seq<Seq<char>> {
    seq![
        compact_entry_text(
            "exact_fallback"@,
            decimal(stats.counters.selected_exact_fallback as nat),
        ),
        compact_entry_text("external_streaming"@, decimal(stats.counters.selected_external as nat)),
        compact_entry_text("hot_vector_run"@, decimal(stats.counters.selected_vector_run as nat)),
        compact_entry_text(
            "prefetch_streaming"@,
            decimal(stats.counters.selected_prefetch_streaming as nat),
        ),
    ]
}

/// How nodes were selected to be read, as JSON.
pub open spec fn selected_actions_text(stats: IoPlannerStats) -> Seq<char> {
    compact_object_text(selected_actions_entries(stats))
}

fn selected_actions_json(stats: &IoPlannerStats) -> (text: String)
    ensures
        text@ == selected_actions_text(*stats),
{
    let mut parts: Vec<String> = Vec::with_capacity(4);
    parts.push(
        compact_number_entry("exact_fallback", stats.counters.selected_exact_fallback as u64),
    );
    parts.push(compact_number_entry("external_streaming", stats.counters.selected_external as u64));
    parts.push(compact_number_entry("hot_vector_run", stats.counters.selected_vector_run as u64));
    parts.push(
        compact_number_entry(
            "prefetch_streaming",
            stats.counters.selected_prefetch_streaming as u64,
        ),
    );
    proof {
        reveal(selected_actions_entries);
        assert(text_views(parts@) =~= selected_actions_entries(*stats));
    }
    compact_object(&parts)
}

#[verifier::opaque]
pub open spec fn executed_actions_entries(stats: IoPlannerStats) -> Seq<Seq<char>> {
    seq![
        compact_entry_text(
            "exact_fallback"@,
            decimal(stats.counters.executed_exact_fallback as nat),
        ),
        compact_entry_text("external_streaming"@, decimal(stats.counters.executed_external as nat)),
        compact_entry_text("hot_vector_run"@, decimal(stats.counters.executed_vector_run as nat)),
        compact_entry_text(
            "prefetch_streaming"@,
            decimal(stats.counters.executed_prefetch_streaming as nat),
        ),
    ]
}

/// How nodes were read, as JSON.
pub open spec fn executed_actions_text(stats: IoPlannerStats) -> Seq<char> {
    compact_object_text(executed_actions_entries(stats))
}

fn executed_actions_json(stats: &IoPlannerStats) -> (text: String)
    ensures
        text@ == executed_actions_text(*stats),
{
    let mut parts: Vec<String> = Vec::with_capacity(4);
    parts.push(
        compact_number_entry("exact_fallback", stats.counters.executed_exact_fallback as u64),
    );
    parts.push(compact_number_entry("external_streaming", stats.counters.executed_external as u64));
    parts.push(compact_number_entry("hot_vector_run", stats.counters.executed_vector_run as u64));
    parts.push(
        compact_number_entry(
            "prefetch_streaming",
            stats.counters.executed_prefetch_streaming as u64,
        ),
    );
    proof {
        reveal(executed_actions_entries);
        assert(text_views(parts@) =~= executed_actions_entries(*stats));
    }
    compact_object(&parts)
}

#[verifier::opaque]
pub open spec fn action_counts_entries(stats: IoPlannerStats) -> Seq<Seq<char>> {
    seq![
        compact_entry_text("executed"@, executed_actions_text(stats)),
        compact_entry_text("selected"@, selected_actions_text(stats)),
    ]
}

/// Selected and executed ways of reading, as JSON.
pub open spec fn action_counts_text(stats: IoPlannerStats) -> Seq<char> {
    compact_object_text(action_counts_entries(stats))
}

fn action_counts_json(stats: &IoPlannerStats) -> (text: String)
    ensures
        text@ == action_counts_text(*stats),
{
    let selected: String = selected_actions_json(stats);
    let executed: String = executed_actions_json(stats);
    let mut parts: Vec<String> = Vec::with_capacity(2);
    parts.push(compact_entry("executed", executed.as_str()));
    parts.push(compact_entry("selected", selected.as_str()));
    proof {
        reveal(action_counts_entries);
        assert(text_views(parts@) =~= action_counts_entries(*stats));
    }
    compact_object(&parts)
}

#[verifier::opaque]
pub open spec fn fallbacks_entries(stats: IoPlannerStats) -> Seq<Seq<char>> {
    seq![
        compact_entry_text(
            "hot_vector_run_to_external"@,
            decimal(stats.counters.vector_to_external_fallbacks as nat),
        ),
    ]
}

/// Fallbacks, as JSON.
pub open spec fn fallbacks_text(stats: IoPlannerStats) -> Seq<char> {
    compact_object_text(fallbacks_entries(stats))
}

fn fallbacks_json(stats: &IoPlannerStats) -> (text: String)
    ensures
        text@ == fallbacks_text(*stats),
{
    let mut parts: Vec<String> = Vec::with_capacity(1);
    parts.push(
        compact_number_entry(
            "hot_vector_run_to_external",
            stats.counters.vector_to_external_fallbacks as u64,
        ),
    );
    proof {
        reveal(fallbacks_entries);
        assert(text_views(parts@) =~= fallbacks_entries(*stats));
    }
    compact_object(&parts)
}

#[verifier::opaque]
pub open spec fn temp_bytes_entries(stats: IoPlannerStats) -> Seq<Seq<char>> {
    seq![
        compact_entry_text("materialized"@, decimal(stats.counters.materialized_temp_bytes as nat)),
        compact_entry_text("planned"@, decimal(stats.counters.planned_temp_bytes as nat)),
    ]
}

/// Temporary bytes, as JSON.
pub open spec fn temp_bytes_text(stats: IoPlannerStats) -> Seq<char> {
    compact_object_text(temp_bytes_entries(stats))
}

fn temp_bytes_json(stats: &IoPlannerStats) -> (text: String)
    ensures
        text@ == temp_bytes_text(*stats),
{
    let mut parts: Vec<String> = Vec::with_capacity(2);
    parts.push(compact_number_entry("materialized", stats.counters.materialized_temp_bytes as u64));
    parts.push(compact_number_entry("planned", stats.counters.planned_temp_bytes as u64));
    proof {
        reveal(temp_bytes_entries);
        assert(text_views(parts@) =~= temp_bytes_entries(*stats));
    }
    compact_object(&parts)
}

#[verifier::opaque]
pub open spec fn benefit_density_entries(density: Seq<char>) -> Seq<Seq<char>> {
    seq![
        compact_entry_text("temp"@, density),
    ]
}

/// What a temporary byte is worth, as JSON.
pub open spec fn benefit_density_text(density: Seq<char>) -> Seq<char> {
    compact_object_text(benefit_density_entries(density))
}

fn benefit_density_json(density: &String) -> (text: String)
    ensures
        text@ == benefit_density_text(density@),
{
    let mut parts: Vec<String> = Vec::with_capacity(1);
    parts.push(compact_entry("temp", density.as_str()));
    proof {
        reveal(benefit_density_entries);
        assert(text_views(parts@) =~= benefit_density_entries(density@));
    }
    compact_object(&parts)
}

#[verifier::opaque]
pub open spec fn point_runtime_entries(stats: IoPlannerStats) -> Seq<Seq<char>> {
    seq![
        compact_entry_text(
            "executed_prefetch_streaming"@,
            decimal(stats.counters.executed_prefetch_streaming as nat),
        ),
    ]
}

/// Nodes that were read ahead, as JSON.
pub open spec fn point_runtime_text(stats: IoPlannerStats) -> Seq<char> {
    compact_object_text(point_runtime_entries(stats))
}

fn point_runtime_json(stats: &IoPlannerStats) -> (text: String)
    ensures
        text@ == point_runtime_text(*stats),
{
    let mut parts: Vec<String> = Vec::with_capacity(1);
    parts.push(
        compact_number_entry(
            "executed_prefetch_streaming",
            stats.counters.executed_prefetch_streaming as u64,
        ),
    );
    proof {
        reveal(point_runtime_entries);
        assert(text_views(parts@) =~= point_runtime_entries(*stats));
    }
    compact_object(&parts)
}

#[verifier::opaque]
pub open spec fn vector_window_cache_entries(stats: IoPlannerStats) -> Seq<Seq<char>> {
    seq![
        compact_entry_text(
            "budget_bytes"@,
            decimal(stats.counters.window_cache_budget_bytes as nat),
        ),
        compact_entry_text("evictions"@, decimal(stats.counters.window_cache.evictions as nat)),
        compact_entry_text("hits"@, decimal(stats.counters.window_cache.hits as nat)),
        compact_entry_text("inserts"@, decimal(stats.counters.window_cache.inserts as nat)),
        compact_entry_text(
            "logical_bytes"@,
            decimal(stats.counters.window_cache.logical_bytes as nat),
        ),
        compact_entry_text("misses"@, decimal(stats.counters.window_cache.misses as nat)),
        compact_entry_text(
            "physical_bytes"@,
            decimal(stats.counters.window_cache.physical_bytes as nat),
        ),
        compact_entry_text(
            "saved_direct_read_calls"@,
            decimal(stats.counters.window_cache.saved_direct_read_calls as nat),
        ),
        compact_entry_text(
            "used_peak_bytes"@,
            decimal(stats.counters.window_cache.used_peak_bytes as nat),
        ),
    ]
}

/// The cache of windows and its budget, as JSON.
pub open spec fn vector_window_cache_text(stats: IoPlannerStats) -> Seq<char> {
    compact_object_text(vector_window_cache_entries(stats))
}

fn vector_window_cache_json(stats: &IoPlannerStats) -> (text: String)
    ensures
        text@ == vector_window_cache_text(*stats),
{
    let mut parts: Vec<String> = Vec::with_capacity(9);
    parts.push(
        compact_number_entry("budget_bytes", stats.counters.window_cache_budget_bytes as u64),
    );
    parts.push(compact_number_entry("evictions", stats.counters.window_cache.evictions as u64));
    parts.push(compact_number_entry("hits", stats.counters.window_cache.hits as u64));
    parts.push(compact_number_entry("inserts", stats.counters.window_cache.inserts as u64));
    parts.push(compact_number_entry("logical_bytes", stats.counters.window_cache.logical_bytes));
    parts.push(compact_number_entry("misses", stats.counters.window_cache.misses as u64));
    parts.push(compact_number_entry("physical_bytes", stats.counters.window_cache.physical_bytes));
    parts.push(
        compact_number_entry(
            "saved_direct_read_calls",
            stats.counters.window_cache.saved_direct_read_calls as u64,
        ),
    );
    parts.push(
        compact_number_entry("used_peak_bytes", stats.counters.window_cache.used_peak_bytes as u64),
    );
    proof {
        reveal(vector_window_cache_entries);
        assert(text_views(parts@) =~= vector_window_cache_entries(*stats));
    }
    compact_object(&parts)
}

#[verifier::opaque]
pub open spec fn small_run_wave_entries(stats: IoPlannerStats) -> Seq<Seq<char>> {
    seq![
        compact_entry_text("enabled"@, bool_text((stats.counters.small_run_waves > 0))),
        compact_entry_text("points"@, decimal(stats.counters.small_run_wave_points as nat)),
        compact_entry_text("runs"@, decimal(stats.counters.small_run_wave_runs as nat)),
        compact_entry_text("waves"@, decimal(stats.counters.small_run_waves as nat)),
    ]
}

/// Waves of small runs, as JSON.
pub open spec fn small_run_wave_text(stats: IoPlannerStats) -> Seq<char> {
    compact_object_text(small_run_wave_entries(stats))
}

fn small_run_wave_json(stats: &IoPlannerStats) -> (text: String)
    ensures
        text@ == small_run_wave_text(*stats),
{
    let mut parts: Vec<String> = Vec::with_capacity(4);
    parts.push(compact_bool_entry("enabled", (stats.counters.small_run_waves > 0)));
    parts.push(compact_number_entry("points", stats.counters.small_run_wave_points as u64));
    parts.push(compact_number_entry("runs", stats.counters.small_run_wave_runs as u64));
    parts.push(compact_number_entry("waves", stats.counters.small_run_waves as u64));
    proof {
        reveal(small_run_wave_entries);
        assert(text_views(parts@) =~= small_run_wave_entries(*stats));
    }
    compact_object(&parts)
}

#[verifier::opaque]
pub open spec fn child_extent_entries(stats: IoPlannerStats) -> Seq<Seq<char>> {
    seq![
        compact_entry_text(
            "coalesced_reads"@,
            decimal(stats.counters.child_extent_coalesced_reads as nat),
        ),
        compact_entry_text(
            "enabled"@,
            bool_text((stats.counters.child_extent_logical_extents > 0)),
        ),
        compact_entry_text(
            "header_read_savings"@,
            decimal(stats.counters.child_extent_header_read_savings as nat),
        ),
        compact_entry_text(
            "logical_bytes"@,
            decimal(stats.counters.child_extent_logical_bytes as nat),
        ),
        compact_entry_text(
            "logical_extents"@,
            decimal(stats.counters.child_extent_logical_extents as nat),
        ),
        compact_entry_text(
            "physical_bytes"@,
            decimal(stats.counters.child_extent_physical_bytes as nat),
        ),
    ]
}

/// Extents that were read together, as JSON.
pub open spec fn child_extent_text(stats: IoPlannerStats) -> Seq<char> {
    compact_object_text(child_extent_entries(stats))
}

fn child_extent_json(stats: &IoPlannerStats) -> (text: String)
    ensures
        text@ == child_extent_text(*stats),
{
    let mut parts: Vec<String> = Vec::with_capacity(6);
    parts.push(
        compact_number_entry("coalesced_reads", stats.counters.child_extent_coalesced_reads as u64),
    );
    parts.push(compact_bool_entry("enabled", (stats.counters.child_extent_logical_extents > 0)));
    parts.push(
        compact_number_entry(
            "header_read_savings",
            stats.counters.child_extent_header_read_savings as u64,
        ),
    );
    parts.push(compact_number_entry("logical_bytes", stats.counters.child_extent_logical_bytes));
    parts.push(
        compact_number_entry("logical_extents", stats.counters.child_extent_logical_extents as u64),
    );
    parts.push(compact_number_entry("physical_bytes", stats.counters.child_extent_physical_bytes));
    proof {
        reveal(child_extent_entries);
        assert(text_views(parts@) =~= child_extent_entries(*stats));
    }
    compact_object(&parts)
}

/// Ratios of a planned build, as numbers in JSON.
#[derive(Debug)]
pub struct PlannerRatios {
    pub estimated_speedup: String,
    pub benefit_per_temp_byte: String,
    pub depths: Vec<DepthPainRatios>,
}

#[verifier::opaque]
pub open spec fn planner_entries(stats: IoPlannerStats, ratios: PlannerRatios) -> Seq<Seq<char>> {
    seq![
        compact_entry_text("action_counts"@, action_counts_text(stats)),
        compact_entry_text("benefit_density"@, benefit_density_text(ratios.benefit_per_temp_byte@)),
        compact_entry_text("child_extent_batching"@, child_extent_text(stats)),
        compact_entry_text("dry_run"@, bool_text(stats.counters.dry_run)),
        compact_entry_text("enabled"@, bool_text(stats.counters.enabled)),
        compact_entry_text(
            "estimated_after_raw_read_bytes"@,
            decimal(stats.counters.estimated_after_raw_read_bytes as nat),
        ),
        compact_entry_text(
            "estimated_after_raw_read_calls"@,
            decimal(stats.counters.estimated_after_raw_read_calls as nat),
        ),
        compact_entry_text(
            "estimated_before_raw_read_bytes"@,
            decimal(stats.counters.estimated_before_raw_read_bytes as nat),
        ),
        compact_entry_text(
            "estimated_before_raw_read_calls"@,
            decimal(stats.counters.estimated_before_raw_read_calls as nat),
        ),
        compact_entry_text("estimated_speedup"@, ratios.estimated_speedup@),
        compact_entry_text("executed"@, executed_actions_text(stats)),
        compact_entry_text("fallbacks"@, fallbacks_text(stats)),
        compact_entry_text("global_point_runtime"@, point_runtime_text(stats)),
        compact_entry_text("io_pain_by_depth"@, compact_list_text(
                    depth_pain_texts(
                        stats.io_pain_by_depth@,
                        ratios.depths@,
                        stats.io_pain_by_depth@.len() as int,
                    ),
                )),
        compact_entry_text("planned_nodes"@, decimal(stats.counters.planned_nodes as nat)),
        compact_entry_text("selected"@, selected_actions_text(stats)),
        compact_entry_text("small_run_wave"@, small_run_wave_text(stats)),
        compact_entry_text("temp_bytes"@, temp_bytes_text(stats)),
        compact_entry_text(
            "vector_run_materialize_wall_ms"@,
            ms_text(stats.counters.vector_run_materialize_ns),
        ),
        compact_entry_text("vector_window_cache"@, vector_window_cache_text(stats)),
        compact_entry_text("verify"@, bool_text(stats.counters.verify)),
    ]
}

/// A planned build, as JSON.
pub open spec fn planner_text(stats: IoPlannerStats, ratios: PlannerRatios) -> Seq<char> {
    compact_object_text(planner_entries(stats, ratios))
}

fn planner_json(stats: &IoPlannerStats, ratios: &PlannerRatios) -> (text: String)
    requires
        ratios.depths@.len() == stats.io_pain_by_depth@.len(),
    ensures
        text@ == planner_text(*stats, *ratios),
{
    let action_counts: String = action_counts_json(stats);
    let selected: String = selected_actions_json(stats);
    let executed: String = executed_actions_json(stats);
    let fallbacks: String = fallbacks_json(stats);
    let temp_bytes: String = temp_bytes_json(stats);
    let density: String = benefit_density_json(&ratios.benefit_per_temp_byte);
    let runtime: String = point_runtime_json(stats);
    let cache: String = vector_window_cache_json(stats);
    let waves: String = small_run_wave_json(stats);
    let extents: String = child_extent_json(stats);
    let pain: String = depth_pain_list(&stats.io_pain_by_depth, &ratios.depths);
    let mut parts: Vec<String> = Vec::with_capacity(21);
    parts.push(compact_entry("action_counts", action_counts.as_str()));
    parts.push(compact_entry("benefit_density", density.as_str()));
    parts.push(compact_entry("child_extent_batching", extents.as_str()));
    parts.push(compact_bool_entry("dry_run", stats.counters.dry_run));
    parts.push(compact_bool_entry("enabled", stats.counters.enabled));
    parts.push(
        compact_number_entry(
            "estimated_after_raw_read_bytes",
            stats.counters.estimated_after_raw_read_bytes,
        ),
    );
    parts.push(
        compact_number_entry(
            "estimated_after_raw_read_calls",
            stats.counters.estimated_after_raw_read_calls,
        ),
    );
    parts.push(
        compact_number_entry(
            "estimated_before_raw_read_bytes",
            stats.counters.estimated_before_raw_read_bytes,
        ),
    );
    parts.push(
        compact_number_entry(
            "estimated_before_raw_read_calls",
            stats.counters.estimated_before_raw_read_calls,
        ),
    );
    parts.push(compact_entry("estimated_speedup", ratios.estimated_speedup.as_str()));
    parts.push(compact_entry("executed", executed.as_str()));
    parts.push(compact_entry("fallbacks", fallbacks.as_str()));
    parts.push(compact_entry("global_point_runtime", runtime.as_str()));
    parts.push(compact_entry("io_pain_by_depth", pain.as_str()));
    parts.push(compact_number_entry("planned_nodes", stats.counters.planned_nodes as u64));
    parts.push(compact_entry("selected", selected.as_str()));
    parts.push(compact_entry("small_run_wave", waves.as_str()));
    parts.push(compact_entry("temp_bytes", temp_bytes.as_str()));
    parts.push(
        compact_number_entry(
            "vector_run_materialize_wall_ms",
            stats.counters.vector_run_materialize_ns / NS_PER_MS,
        ),
    );
    parts.push(compact_entry("vector_window_cache", cache.as_str()));
    parts.push(compact_bool_entry("verify", stats.counters.verify));
    proof {
        reveal(planner_entries);
        assert(text_views(parts@) =~= planner_entries(*stats, *ratios));
    }
    compact_object(&parts)
}

/// What is reported of a planned build: `null` where nothing was planned.
pub fn profile_json(stats: &IoPlannerStats, ratios: &PlannerRatios) -> (text: String)
    requires
        ratios.depths@.len() == stats.io_pain_by_depth@.len(),
    ensures
        text@ == if stats.counters.enabled {
            planner_text(*stats, *ratios)
        } else {
            "null"@
        },
{
    if !stats.counters.enabled {
        return "null".to_owned();
    }
    planner_json(stats, ratios)
}

} // verus!
