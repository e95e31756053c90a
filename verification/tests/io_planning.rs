use forgeann::float_bits::F64;
use forgeann::io_plan::{
    estimate_node, plan_node_with_pain_observed, IoPainSample, IoPlanBudgetState, IoPlanConfig,
    NodeAction, NodeBenefits, NodeExecutionPlan, StorageState,
};
use forgeann::io_stats::{DepthIoPainStats, IoPlannerStats};
use forgeann::planner_profile::{profile_json, DepthPainRatios, PlannerRatios};
use forgeann::window_cache::VectorWindowCacheStats;

fn bits(value: f64) -> F64 {
    F64 {
        bits: value.to_bits(),
    }
}

fn test_default() -> IoPlanConfig {
    IoPlanConfig {
        enabled: true,
        dry_run: true,
        allow_full_build: false,
        min_depth: 2,
        vector_run_enable: true,
        resident_enable: true,
        prefetch_streaming_enable: true,
        small_run_wave_enable: true,
        child_run_batching_enable: true,
        temp_budget_bytes: 1 << 30,
        window_cache_bytes: 0,
        min_resident_points: 1,
        max_resident_points: 0,
        max_avg_read_size_bytes: 16 * 1024,
        min_consumer_wait_ratio: bits(0.5),
        min_saved_wait_ms: bits(50.0),
        min_saved_wait_per_gib_ms: bits(1_000.0),
        verify: false,
    }
}

/// Milliseconds of waiting that fewer reads save.
fn saved_wait_ms(before: u64, after: u64, pain: &IoPainSample) -> f64 {
    let latency = if pain.observed_reads > 0 && pain.observed_wait_ns > 0 {
        pain.observed_wait_ns as f64 / pain.observed_reads as f64 / 1e6
    } else {
        0.002
    };
    let by_calls = before.saturating_sub(after) as f64 * latency;
    let by_wait = pain.consumer_wait_ns as f64 / 1e6 * 0.75;
    by_calls.max(by_wait) + pain.blocked_worker_wait_ns as f64 / 1e6
}

fn plan_node(
    config: IoPlanConfig,
    state: StorageState,
    depth: usize,
    points: usize,
    fanout: usize,
    row_bytes: usize,
    pain: IoPainSample,
) -> NodeExecutionPlan {
    let estimates = estimate_node(&config, points, fanout, row_bytes, &pain);
    let vector_run = saved_wait_ms(estimates.before_calls, estimates.vector_calls, &pain);
    let benefits = NodeBenefits {
        prefetch: bits(
            saved_wait_ms(estimates.before_calls, estimates.prefetch_calls, &pain) * 0.5,
        ),
        vector_run: bits(vector_run),
        benefit_per_temp_byte: bits(if estimates.temp_bytes == 0 {
            0.0
        } else {
            vector_run / estimates.temp_bytes as f64
        }),
    };
    plan_node_with_pain_observed(
        &config, state, depth, points, fanout, row_bytes, 0, &pain, false, &benefits,
    )
}

#[test]
fn io_cost_model_selects_external_and_vector_run_cases() {
    let external = plan_node(
        IoPlanConfig {
            vector_run_enable: true,
            resident_enable: false,
            prefetch_streaming_enable: false,
            min_depth: 2,
            ..test_default()
        },
        StorageState::RawIds,
        1,
        20_000,
        8,
        512,
        IoPainSample::estimated(20_000, 512),
    );
    assert_eq!(external.selected, NodeAction::ExternalStreaming);
    assert_eq!(external.before_calls, 20_000);
    assert_eq!(external.after_calls, 20_000);

    let vector_run = plan_node(
        IoPlanConfig {
            vector_run_enable: true,
            resident_enable: false,
            min_depth: 1,
            temp_budget_bytes: 2 << 30,
            ..test_default()
        },
        StorageState::RawIds,
        2,
        200_000,
        1,
        512,
        IoPainSample::estimated(200_000, 512),
    );
    assert_eq!(vector_run.selected, NodeAction::HotVectorRun);
    assert_eq!(vector_run.after_calls, 1);
    assert_eq!(vector_run.hot_vector_run.temp_bytes, 200_000 * 512);
    assert_eq!(vector_run.hot_vector_run.gate(), "allowed");
    assert_eq!(vector_run.exact_fallback.gate(), "blocked");
}

#[test]
fn node_is_planned_only_within_the_temporary_budget() {
    let plan = plan_node(
        IoPlanConfig {
            prefetch_streaming_enable: false,
            temp_budget_bytes: 200_000 * 512 - 1,
            ..test_default()
        },
        StorageState::RawIds,
        2,
        200_000,
        1,
        512,
        IoPainSample::estimated(200_000, 512),
    );
    assert_eq!(plan.selected, NodeAction::ExternalStreaming);
    assert!(!plan.hot_vector_run.allowed);
    let resident = plan_node(
        test_default(),
        StorageState::Resident,
        2,
        200_000,
        1,
        512,
        IoPainSample::estimated(200_000, 512),
    );
    assert!(!resident.prefetch_streaming.allowed);
    assert_eq!(resident.selected, NodeAction::ExternalStreaming);
}

#[test]
fn releasing_undoes_a_reservation() {
    let mut budget = IoPlanBudgetState::new(100);
    assert!(budget.try_reserve_temp(60));
    assert!(!budget.try_reserve_temp(41));
    assert_eq!(budget.temp_reserved(), 60);
    assert!(budget.try_reserve_temp(40));
    budget.release_temp(40);
    assert_eq!(budget.temp_reserved(), 60);
    budget.record_temp_written(7);
    assert_eq!(budget.temp_written_bytes, 7);
}

fn depth_pain(depth: usize, windows: usize, batches: usize, bytes: u64) -> DepthIoPainStats {
    DepthIoPainStats {
        point_gather_windows: windows,
        point_gather_batches: batches,
        logical_bytes: bytes,
        physical_bytes: bytes,
        ..DepthIoPainStats::new(depth)
    }
}

#[test]
fn depth_pain_sample_uses_nearest_prior_depth_when_exact_depth_is_missing() {
    let mut stats = IoPlannerStats::new();
    let mut pain = depth_pain(1, 128, 4, 128 * 3_072);
    pain.io_ns = 64_000_000;
    pain.consumer_wait_ns = 60_000_000;
    stats.record_depth_io_pain(&pain);

    assert!(stats.pain_sample_for_depth(2).is_some());
    assert!(stats.pain_sample_for_depth(0).is_none());
    let sample = stats.pain_sample_for_depth(1).unwrap();
    assert_eq!(sample.raw_read_calls, 128);
    assert_eq!(sample.consumer_wait_ns, 60_000_000);
}

#[test]
fn planner_profile_emits_depth_pain_and_window_cache() {
    let mut stats = IoPlannerStats::new();
    let pain = IoPainSample {
        raw_read_calls: 8,
        logical_bytes: 8 * 128,
        physical_bytes: 8 * 128,
        consumer_wait_ns: 20_000_000,
        producer_wait_ns: 2_000_000,
        io_wall_ns: 30_000_000,
        compute_wall_ns: 40_000_000,
        observed_wait_ns: 200_000,
        observed_reads: 1,
        blocked_worker_wait_ns: 1_000_000,
    };
    let plan = plan_node(
        IoPlanConfig {
            min_depth: 3,
            prefetch_streaming_enable: true,
            window_cache_bytes: 256 * 1024 * 1024,
            ..test_default()
        },
        StorageState::RawIds,
        2,
        8,
        2,
        128,
        pain,
    );

    stats.record_plan(
        &plan,
        &IoPlanConfig {
            window_cache_bytes: 256 * 1024 * 1024,
            ..test_default()
        },
    );
    stats.record_depth_point_pipeline(
        &depth_pain(2, 4, 2, 8 * 128),
        &VectorWindowCacheStats::default(),
    );

    let mut depths = Vec::new();
    for _ in 0..stats.io_pain_by_depth.len() {
        depths.push(DepthPainRatios {
            avg_read_size: "256.0".to_string(),
            read_amplification: "1.0".to_string(),
            io_ms: "0.0".to_string(),
            consumer_wait_ms: "0.0".to_string(),
            producer_wait_ms: "0.0".to_string(),
            consumer_wait_over_io: "0.0".to_string(),
        });
    }
    let ratios = PlannerRatios {
        estimated_speedup: "1.0".to_string(),
        benefit_per_temp_byte: "0.0".to_string(),
        depths,
    };
    let text = profile_json(&stats, &ratios);
    let json: serde_json::Value = serde_json::from_str(&text).unwrap();
    assert_eq!(json.to_string(), text);
    let pain_by_depth = json["io_pain_by_depth"].as_array().unwrap();
    assert_eq!(pain_by_depth.len(), 1);
    assert_eq!(pain_by_depth[0]["depth"].as_u64(), Some(2));
    assert_eq!(pain_by_depth[0]["point_gather_windows"].as_u64(), Some(4));
    assert_eq!(pain_by_depth[0]["point_gather_batches"].as_u64(), Some(2));
    assert_eq!(
        json["vector_window_cache"]["budget_bytes"].as_u64(),
        Some(256 * 1024 * 1024)
    );
    assert_eq!(json["planned_nodes"].as_u64(), Some(1));
    assert_eq!(json["selected"]["prefetch_streaming"].as_u64(), Some(1));
}

#[test]
fn nothing_is_reported_of_a_build_without_a_plan() {
    let ratios = PlannerRatios {
        estimated_speedup: "1.0".to_string(),
        benefit_per_temp_byte: "0.0".to_string(),
        depths: Vec::new(),
    };
    assert_eq!(profile_json(&IoPlannerStats::new(), &ratios), "null");
}

#[test]
fn planner_statistics_add_up_whatever_the_order() {
    let mut a = IoPlannerStats::new();
    a.record_external_execution();
    a.record_small_run_wave(3, 30);
    a.record_depth_io_pain(&depth_pain(1, 2, 1, 100));
    let mut b = IoPlannerStats::new();
    b.record_prefetch_streaming_execution();
    b.record_exact_fallback_execution();
    b.record_vector_to_external_fallback();
    b.record_vector_run_execution(50, 5);
    b.record_child_extent_batching(4, 2, 10, 12, 1);
    b.record_depth_io_pain(&depth_pain(1, 1, 1, 50));
    b.record_depth_io_pain(&depth_pain(3, 1, 1, 7));

    let mut ab = IoPlannerStats::new();
    ab.merge(&a);
    ab.merge(&b);
    let mut ba = IoPlannerStats::new();
    ba.merge(&b);
    ba.merge(&a);
    assert_eq!(ab.counters, ba.counters);
    assert_eq!(ab.io_pain_by_depth, ba.io_pain_by_depth);
    assert_eq!(ab.io_pain_by_depth.len(), 2);
    assert_eq!(ab.io_pain_by_depth[0].logical_bytes, 150);
    assert_eq!(ab.counters.executed_external, 1);
    assert_eq!(ab.counters.small_run_wave_points, 30);
    assert_eq!(ab.counters.materialized_temp_bytes, 50);
    assert_eq!(ab.counters.child_extent_coalesced_reads, 2);
}

#[test]
fn a_snapshot_that_is_taken_over_twice_counts_once() {
    let mut snapshot = IoPlannerStats::new();
    snapshot.record_depth_io_pain(&depth_pain(1, 2, 1, 100));
    let mut stats = IoPlannerStats::new();
    stats.merge_depth_io_pain_from(&snapshot);
    let once = stats.io_pain_by_depth.clone();
    stats.merge_depth_io_pain_from(&snapshot);
    assert_eq!(stats.io_pain_by_depth, once);
}
