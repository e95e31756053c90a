use forgeann::graph_build::{oom_io_config, plan_oom_build, OomBuildMode};
use forgeann::leaf_profile::StreamingProfile;
use forgeann::memory_plan::{
    derive_oom_execution_threads, derive_oom_worker_count, derive_spill_shard_points,
    estimate_leaf_scratch_bytes, estimate_reservoir_bytes, plan_resident_reservoir_prefix,
    plan_resident_reservoir_prefix_from_cap, should_use_full_resident_sketch_cache, OomMemoryPlan,
};
use forgeann::params::ForgeANNParams;
use forgeann::scheduler::{
    apply_immediate_leaf_drain_budget, forgeann_rayon_worker_stack_bytes,
    normalize_forgeann_rayon_stack_mb, SchedulerBudget,
};

#[test]
fn streaming_profile_idle_time_saturates_at_zero() {
    let mut profile = StreamingProfile::default();
    profile.total_wall = 25_000_000;
    profile.leaf.total_wall = 40_000_000;

    assert_eq!(profile.leaf_idle_time(), 0);
}

#[test]
fn streaming_profile_idle_time_is_the_rest() {
    let mut profile = StreamingProfile::default();
    profile.total_wall = 40_000_000;
    profile.leaf.total_wall = 25_000_000;

    assert_eq!(profile.leaf_idle_time(), 15_000_000);
}

#[test]
fn scheduler_budget_uses_bounded_leaf_backlog() {
    let budget = SchedulerBudget::for_worker_count(42, 3500);

    assert_eq!(budget.worker_count, 42);
    assert_eq!(budget.leaf_backlog_capacity, 42 * 2048);
    assert_eq!(budget.producer_leaf_backlog_soft_limit, 0);
    assert_eq!(budget.large_leaf_min_size, 7000);
    assert_eq!(budget.leaf_block_rows, 1024);
    assert_eq!(apply_immediate_leaf_drain_budget(budget, 42), budget);
}

#[test]
fn oom_scheduler_budget_allows_d1_leaf_burst_without_inline_help() {
    let budget = SchedulerBudget::for_memory_budget(42, 3500, 32 * 1024 * 1024 * 1024);

    assert_eq!(budget.worker_count, 42);
    assert_eq!(budget.producer_leaf_backlog_soft_limit, 0);
    assert!(
        budget.leaf_backlog_capacity >= 700_000,
        "a large build can emit hundreds of thousands of leaves before children are processed"
    );
    assert!(budget.leaf_backlog_capacity <= 1_048_576);
}

#[test]
fn forgeann_rayon_worker_stack_policy_clamps_diagnostic_override() {
    assert_eq!(normalize_forgeann_rayon_stack_mb(None), 32);
    assert_eq!(normalize_forgeann_rayon_stack_mb(Some(1)), 8);
    assert_eq!(normalize_forgeann_rayon_stack_mb(Some(64)), 64);
    assert_eq!(normalize_forgeann_rayon_stack_mb(Some(1024)), 256);
}

#[test]
fn worker_stack_is_in_bytes() {
    assert_eq!(forgeann_rayon_worker_stack_bytes(Some(64)), 64 * 1024 * 1024);
    assert_eq!(forgeann_rayon_worker_stack_bytes(None), 32 * 1024 * 1024);
}

#[test]
fn derive_oom_worker_count_obeys_memory_budget() {
    let mut params = ForgeANNParams::default();
    params.oom_memory_budget_bytes = 512 * 1024 * 1024;
    params.max_full_matrix_leaf_size = 8192;

    let tight = derive_oom_worker_count(64, &params, 768);
    assert!(tight < 64);
    assert!(tight >= 1);
}

#[test]
fn derive_oom_worker_count_reserves_budget_for_non_leaf_work() {
    let mut params = ForgeANNParams::default();
    params.oom_memory_budget_bytes = 4 * 1024 * 1024 * 1024;
    params.max_full_matrix_leaf_size = 3500;

    let workers = derive_oom_worker_count(42, &params, 768);
    assert!(
        workers < 42,
        "worker count should be clamped under a 4 GiB OOM budget"
    );
    assert!(
        workers > 3,
        "the 4 GiB budget should allow more leaf workers than the 1 GiB clamp"
    );
    assert!(workers >= 1);
}

#[test]
fn oom_memory_plan_reserves_subtree_budget_without_clamping_leaf_threads() {
    let mut params = ForgeANNParams::default();
    params.oom_memory_budget_bytes = 28 * 1024 * 1024 * 1024;
    params.max_full_matrix_leaf_size = 3500;

    let plan = OomMemoryPlan::from_params(&params);

    assert!(plan.reservoir_budget_bytes < plan.total_budget_bytes);
    assert!(plan.scratch_budget_bytes > 0);
    assert_eq!(derive_oom_worker_count(42, &params, 768), 42);
}

#[test]
fn oom_memory_plan_preserves_resident_subtree_budget() {
    let mut params = ForgeANNParams::default();
    params.oom_enable = true;
    params.oom_memory_budget_bytes = 32 * 1024 * 1024 * 1024;

    let plan = OomMemoryPlan::from_params(&params);

    assert_eq!(
        plan.reservoir_budget_bytes,
        params.effective_oom_memory_budget_bytes() * 45 / 100
    );
    assert_eq!(
        plan.scratch_budget_bytes,
        params.effective_oom_memory_budget_bytes() * 15 / 100
    );
    assert_eq!(
        plan.reservoir_budget_bytes + plan.scratch_budget_bytes + plan.io_headroom_bytes,
        plan.total_budget_bytes
    );
}

#[test]
fn resident_reservoir_plan_does_not_shard_align_when_full_budget_fits() {
    let mut params = ForgeANNParams::default();
    params.oom_memory_budget_bytes = 64 * 1024 * 1024 * 1024;
    params.max_full_matrix_leaf_size = 3500;
    params.l_max = 64;
    let num_points = 35_167_920;
    let dim = 768;
    let leaf_threads = 42;
    let sketch_bytes = 736_280_232;
    let shard_points = 7_669_584;

    let memory_plan = OomMemoryPlan::from_params(&params);
    let plan = plan_resident_reservoir_prefix(
        num_points,
        leaf_threads,
        &params,
        dim,
        sketch_bytes,
        shard_points,
        memory_plan.reservoir_budget_bytes,
    );

    assert_eq!(
        plan.resident_points, num_points,
        "when the reservoir budget can hold all points, the plan should select all points instead of rounding down to a shard boundary"
    );
}

#[test]
fn full_resident_sketch_cache_requires_explicit_sufficient_budget() {
    let mut params = ForgeANNParams::default();
    params.oom_sketch_cache_bytes = 0;
    assert!(!should_use_full_resident_sketch_cache(
        &params,
        256 * 1024 * 1024
    ));

    params.oom_sketch_cache_bytes = 128 * 1024 * 1024;
    assert!(!should_use_full_resident_sketch_cache(
        &params,
        256 * 1024 * 1024
    ));

    params.oom_sketch_cache_bytes = 512 * 1024 * 1024;
    assert!(should_use_full_resident_sketch_cache(
        &params,
        256 * 1024 * 1024
    ));
}

#[test]
fn one_gib_oom_budget_clamps_leaf_budget_threads_but_keeps_more_parallelism() {
    let mut params = ForgeANNParams::default();
    params.oom_memory_budget_bytes = 1024 * 1024 * 1024;
    params.max_full_matrix_leaf_size = 3500;

    let workers = derive_oom_worker_count(12, &params, 768);
    assert_eq!(
        workers, 3,
        "the worker budget still clamps under a 1 GiB OOM budget, but the tighter scratch reserve should allow more parallelism than before"
    );
}

#[test]
fn oom_execution_threads_keep_full_pool_width_while_clamping_leaf_budget_threads() {
    let mut params = ForgeANNParams::default();
    params.oom_memory_budget_bytes = 1024 * 1024 * 1024;
    params.max_full_matrix_leaf_size = 3500;

    let threads = derive_oom_execution_threads(12, &params, 768);
    assert_eq!(threads.pool_threads, 12);
    assert_eq!(threads.leaf_budget_threads, 3);
}

#[test]
fn resident_prefix_planning_uses_leaf_budget_threads_not_pool_width() {
    let mut params = ForgeANNParams::default();
    params.oom_memory_budget_bytes = 1024 * 1024 * 1024;
    params.max_full_matrix_leaf_size = 3500;

    let threads = derive_oom_execution_threads(12, &params, 768);
    let memory_plan = OomMemoryPlan::from_params(&params);
    let plan_with_leaf_budget = plan_resident_reservoir_prefix(
        5_000_000,
        threads.leaf_budget_threads,
        &params,
        768,
        0,
        100_000,
        memory_plan.reservoir_budget_bytes,
    );
    let plan_with_pool_width = plan_resident_reservoir_prefix(
        5_000_000,
        threads.pool_threads,
        &params,
        768,
        0,
        100_000,
        memory_plan.reservoir_budget_bytes,
    );

    assert!(
        plan_with_leaf_budget.resident_points >= plan_with_pool_width.resident_points,
        "resident planning should be based on leaf-budget scratch, not the wider pool width"
    );
}

#[test]
fn derive_spill_shard_points_uses_memory_budget_when_spill_budget_is_unset() {
    let mut params = ForgeANNParams::default();
    params.oom_memory_budget_bytes = 1024 * 1024 * 1024;
    params.oom_spill_cache_bytes = 0;

    let shard_points = derive_spill_shard_points(
        1_000_000,
        &params,
        params.effective_oom_memory_budget_bytes(),
    );
    assert!(shard_points > 1);
    assert!(shard_points <= 1_000_000);
}

#[test]
fn resident_reservoir_plan_can_select_partial_prefix_when_budget_is_between_full_and_zero() {
    let mut params = ForgeANNParams::default();
    params.oom_memory_budget_bytes = 4 * 1024 * 1024 * 1024;
    params.max_full_matrix_leaf_size = 3500;
    let shard_points = 100_000;

    let plan = plan_resident_reservoir_prefix(
        10_000_000,
        8,
        &params,
        768,
        0,
        shard_points,
        OomMemoryPlan::from_params(&params).reservoir_budget_bytes,
    );

    assert!(
        plan.resident_points > 0,
        "expected some prefix to remain resident"
    );
    assert!(
        plan.resident_points < 10_000_000,
        "expected budget to be insufficient for full residency"
    );
    assert_eq!(
        plan.resident_points % shard_points,
        0,
        "resident prefix should be shard aligned"
    );
}

#[test]
fn explicit_resident_reservoir_cap_is_not_shard_aligned() {
    let mut params = ForgeANNParams::default();
    params.l_max = 64;
    let desired_points = 12_345;
    let cap_bytes = estimate_reservoir_bytes(desired_points, params.l_max);

    let plan = plan_resident_reservoir_prefix_from_cap(5_000_000, &params, cap_bytes);

    assert_eq!(
        plan.resident_points, desired_points,
        "explicit cap should mean resident reservoir bytes, not legacy shard-aligned planning budget"
    );
}

#[test]
fn leaf_scratch_adds_up_its_parts() {
    // 100 * 100 distances, 100 candidates of 16 bytes, 100 * 8 coordinates, and 100 * 4
    // edges of 18 bytes.
    assert_eq!(
        estimate_leaf_scratch_bytes(100, 8, 2),
        100 * 100 * 4 + 100 * 16 + 100 * 8 * 4 + 100 * 4 * 18
    );
}

#[test]
fn spill_cache_sets_the_shard() {
    let mut params = ForgeANNParams::default();
    params.oom_spill_cache_bytes = 1;
    assert_eq!(derive_spill_shard_points(1000, &params, 1 << 40), 1);
    params.oom_spill_cache_bytes = 0;
    assert_eq!(derive_spill_shard_points(1000, &params, 1 << 40), 1000);
}

#[test]
fn a_larger_budget_keeps_no_fewer_points_resident() {
    let params = ForgeANNParams::default();
    let mut last = 0;
    for gib in 1..12usize {
        let plan =
            plan_resident_reservoir_prefix(10_000_000, 8, &params, 768, 0, 100_000, gib << 30);
        assert!(plan.resident_points >= last);
        assert!(plan.resident_points % 100_000 == 0 || plan.resident_points == 10_000_000);
        last = plan.resident_points;
    }
    assert!(last > 0);
}

#[test]
fn build_plan_follows_recorder_residents_and_cache() {
    let mut params = ForgeANNParams::default();
    params.oom_enable = true;
    params.oom_sketch_cache_bytes = 4096;

    let resident = plan_oom_build(&params, 1000, 4, 8, 0, 4096, false);
    assert_eq!(resident.mode, OomBuildMode::Resident);
    assert_eq!(resident.resident_points, 1000);
    assert_eq!(resident.resident_sketch_rows, 1000);
    assert_eq!(resident.threads.pool_threads, 4);
    assert_eq!(resident.reduce_groups, 4);
    assert!(resident.io.enabled);
    assert_eq!(resident.io.alignment, 4096);

    let uncached = plan_oom_build(&params, 1000, 32, 8, 0, 4097, false);
    assert_eq!(uncached.resident_sketch_rows, 0);
    assert_eq!(uncached.reduce_groups, 8);

    params.oom_resident_reservoir_cap_bytes = Some(estimate_reservoir_bytes(10, params.l_max));
    let hybrid = plan_oom_build(&params, 1000, 4, 8, 0, 4096, false);
    assert_eq!(hybrid.mode, OomBuildMode::Hybrid);
    assert_eq!(hybrid.resident_points, 10);
    assert_eq!(hybrid.resident_sketch_rows, 10);
    assert_eq!(
        hybrid.reservoir_budget_bytes,
        estimate_reservoir_bytes(10, params.l_max)
    );

    params.oom_resident_reservoir_cap_bytes = Some(0);
    let external = plan_oom_build(&params, 1000, 4, 8, 0, 4096, false);
    assert_eq!(external.mode, OomBuildMode::External);
    assert_eq!(external.resident_sketch_rows, 0);

    params.view_lune_prune_enable = true;
    assert_eq!(
        plan_oom_build(&params, 1000, 4, 8, 0, 4096, false).mode,
        OomBuildMode::External
    );
    assert_eq!(
        plan_oom_build(&params, 1000, 4, 8, 0, 4096, true).mode,
        OomBuildMode::MetadataOnly
    );
}

#[test]
fn files_go_past_the_page_cache_only_out_of_core() {
    let mut params = ForgeANNParams::default();
    assert!(!oom_io_config(&params).enabled);
    params.oom_enable = true;
    assert!(oom_io_config(&params).enabled);
}
