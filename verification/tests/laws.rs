use forgeann::ads_assign::AdsTotals;
use forgeann::ads_layout::AdSamplingLeaderLayout;
use forgeann::ads_scan::{adsampling_seed_indices, adsampling_seed_mask, unseeded_block_mask};
use forgeann::ads_topk::TinyTopK;
use forgeann::float_bits::F32;
use forgeann::lane_mask::{active_lanes, leaf_adsampling_active_mask, ADS_LEADER_BLOCK};
use forgeann::leaf_profile::{LeafAdSamplingTelemetry, LeafProfile};
use forgeann::memory_plan::{plan_resident_reservoir_prefix, OomMemoryPlan};
use forgeann::params::ForgeANNParams;
use forgeann::topk::RowTopK;

fn bits(value: f32) -> F32 {
    F32 {
        bits: value.to_bits(),
    }
}

#[test]
fn totals_merge_in_either_order() {
    let mut a = AdsTotals::new();
    a.full_evals = 3;
    a.validation_mismatches = 1;
    let mut b = AdsTotals::new();
    b.full_evals = 4;
    b.scan_ns = 9;
    let mut ab = AdsTotals::new();
    ab.merge(&a);
    ab.merge(&b);
    let mut ba = AdsTotals::new();
    ba.merge(&b);
    ba.merge(&a);
    assert_eq!((ab.full_evals, ab.scan_ns, ab.validation_mismatches), (7, 9, 1));
    assert_eq!((ba.full_evals, ba.scan_ns, ba.validation_mismatches), (7, 9, 1));
}

#[test]
fn leaf_profiles_merge_in_either_order() {
    let part = |leaves: usize, wall: u64| {
        let mut profile = LeafProfile::default();
        profile.leaves = leaves;
        profile.total_wall = wall;
        profile
    };
    let mut ab = part(2, 5);
    ab.merge(part(3, 7));
    let mut ba = part(3, 7);
    ba.merge(part(2, 5));
    assert_eq!((ab.leaves, ab.total_wall), (5, 12));
    assert_eq!((ba.leaves, ba.total_wall), (5, 12));
    let mut telemetry = LeafAdSamplingTelemetry::default();
    telemetry.layout = 1;
    telemetry.seed = 2;
    telemetry.scan = 4;
    assert_eq!(telemetry.compute_time(), 7);
}

#[test]
fn blocks_hold_the_values_of_their_leaders() {
    let (leaders, dim) = (70usize, 3usize);
    let rows: Vec<F32> = (0..leaders * dim).map(|i| bits(i as f32)).collect();
    let layout = AdSamplingLeaderLayout::from_row_major(rows.clone(), leaders, dim);
    assert_eq!(layout.block_count(), 2);
    for leader in 0..leaders {
        let block = layout.block(leader / ADS_LEADER_BLOCK);
        assert_eq!(layout.leader(leader), &rows[leader * dim..(leader + 1) * dim]);
        for axis in 0..dim {
            let at = axis * ADS_LEADER_BLOCK + leader - block.start();
            assert_eq!(block.data()[at], rows[leader * dim + axis]);
        }
    }
}

#[test]
fn a_leader_at_the_threshold_changes_nothing() {
    let mut top = TinyTopK::new(2);
    top.push(bits(1.0), 1);
    top.push(bits(2.0), 2);
    top.push(bits(2.0), 3);
    top.push(bits(5.0), 4);
    assert_eq!(top.leaders(), vec![1, 2]);
}

#[test]
fn a_scan_keeps_what_a_selection_keeps() {
    let dists = [4.0f32, 1.0, 3.0, 1.0, 0.5, 9.0];
    let mut scan = TinyTopK::new(3);
    let mut row = RowTopK::default();
    for (index, dist) in dists.iter().enumerate() {
        scan.push(bits(*dist), index);
        row.push(3, index, bits(*dist));
    }
    assert_eq!(scan.leaders(), vec![4, 1, 3]);
    let kept: Vec<usize> = row.as_slice().iter().map(|entry| entry.index).collect();
    assert_eq!(kept, vec![4, 1, 3]);
    row.clear();
    assert!(row.as_slice().is_empty());
}

#[test]
fn every_candidate_is_a_seed_or_in_one_block() {
    let leaders = 150;
    let seeds = adsampling_seed_indices(leaders, 8, 4);
    let seeded = adsampling_seed_mask(leaders, &seeds);
    let mut lanes = 0;
    for start in (0..leaders).step_by(ADS_LEADER_BLOCK) {
        let len = (leaders - start).min(ADS_LEADER_BLOCK);
        lanes += active_lanes(&[unseeded_block_mask(&seeded, start, len)]);
    }
    assert_eq!(lanes as usize + seeds.len(), leaders);

    let rows = 150;
    for row in [0, 63, 149] {
        let mut lanes = 0;
        for start in (0..rows).step_by(ADS_LEADER_BLOCK) {
            let len = (rows - start).min(ADS_LEADER_BLOCK);
            lanes += active_lanes(&[leaf_adsampling_active_mask(row, start, len, rows, 8)]);
        }
        assert_eq!(lanes as usize, rows - 1 - 8);
    }
}

#[test]
fn memory_shares_use_the_budget_up() {
    for budget in [0usize, 1, 1_000_003, 16 << 30] {
        let plan = OomMemoryPlan::from_budget(budget);
        assert_eq!(plan.total_budget_bytes, budget);
        assert_eq!(
            plan.reservoir_budget_bytes + plan.scratch_budget_bytes + plan.io_headroom_bytes,
            budget
        );
    }
}

#[test]
fn a_resident_prefix_is_made_of_whole_shards() {
    let mut params = ForgeANNParams::default();
    params.l_max = 64;
    params.oom_memory_budget_bytes = 2 << 30;
    let points = 50_000_000;
    let plan = plan_resident_reservoir_prefix(points, 4, &params, 96, 0, 1000, 1 << 30);
    assert!(plan.resident_points <= points);
    assert_eq!(plan.resident_points % 1000, 0);
}
