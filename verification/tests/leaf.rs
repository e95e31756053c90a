use forgeann::float_bits::{F32, F64};
use forgeann::graph_build::{
    build_forgeann_graph_oom, build_forgeann_graph_with_store, effective_build_threads,
    leaf_pending_edges, plan_oom_build, reduce_spilled_edges, LeafInput, LeafNeighbors,
    OomBuildMode, StoreInput,
};
use forgeann::hash_prune::HashPruneReservoir;
use forgeann::leaf_build::{
    flush_pending_edges_to_reservoirs, LeafSketchCache, PendingEdge, PENDING_EDGE_DIRECT,
    PENDING_EDGE_MIRROR,
};
use forgeann::leaf_profile::{leaf_profile_start, LeafProfile};
use forgeann::leaf_route::{
    choose_parallel_block_wave_width, choose_parallel_block_wave_width_for_threads,
    default_leaf_point_read_options, leaf_sketch_read_options, plan_large_leaf, plan_leaf,
    process_leaf, process_leaf_blockwise, process_leaf_parallel_large_block, split_edges,
    LeafBlockRun, LeafRoute, ParallelBlockResult,
};
use forgeann::lune::merge_block_edges;
use forgeann::memory_plan::{
    derive_oom_worker_count, derive_spill_shard_points, estimate_reservoir_bytes,
    plan_resident_reservoir_prefix, OomMemoryPlan,
};
use forgeann::metric::Metric;
use forgeann::oom_files::artifacts_to_remove;
use forgeann::params::ForgeANNParams;
use forgeann::sketch_build::SketchStartSample;
use forgeann::topk::RowTopK;

fn bits(value: f32) -> F32 {
    F32 {
        bits: value.to_bits(),
    }
}

fn build_test_dataset(num_points: usize, dim: usize) -> Vec<f32> {
    let mut data = Vec::new();
    for point in 0..num_points {
        for axis in 0..dim {
            data.push(point as f32 * 0.25 + axis as f32 * 0.5);
        }
    }
    data
}

fn build_test_sketches(num_points: usize, width: usize) -> Vec<F32> {
    let mut data = Vec::with_capacity(num_points * width);
    for point in 0..num_points {
        for bit in 0..width {
            data.push(bits(point as f32 * 0.1 + bit as f32));
        }
    }
    data
}

fn distances(data: &[f32], dim: usize, ids: &[u32], rows: std::ops::Range<usize>) -> Vec<F32> {
    let mut dists = Vec::new();
    for row in rows {
        let a = &data[ids[row] as usize * dim..(ids[row] as usize + 1) * dim];
        for &other in ids {
            let b = &data[other as usize * dim..(other as usize + 1) * dim];
            let sum: f32 = a.iter().zip(b).map(|(x, y)| (x - y) * (x - y)).sum();
            dists.push(bits(sum));
        }
    }
    dists
}

fn reservoirs(count: usize, l_max: usize) -> Vec<HashPruneReservoir> {
    (0..count).map(|_| HashPruneReservoir::new(l_max)).collect()
}

fn collect_neighbors(reservoirs: Vec<HashPruneReservoir>) -> Vec<Vec<u32>> {
    reservoirs
        .into_iter()
        .map(|reservoir| {
            let mut neighbors = reservoir.into_neighbors();
            neighbors.sort_unstable();
            neighbors
        })
        .collect()
}

#[test]
fn leaf_profile_merge_accumulates_all_phases() {
    let mut left = LeafProfile::default();
    left.total_wall = 10_000_000;
    left.distance = 6_000_000;

    let mut right = LeafProfile::default();
    right.total_wall = 7_000_000;
    right.load = 2_000_000;
    right.flush = 3_000_000;
    right.leaves = 2;

    left.merge(right);

    assert_eq!(left.total_wall, 17_000_000);
    assert_eq!(left.distance, 6_000_000);
    assert_eq!(left.load, 2_000_000);
    assert_eq!(left.flush, 3_000_000);
    assert_eq!(left.leaves, 2);
}

struct LeafCase {
    data: Vec<f32>,
    dim: usize,
    leaf: Vec<u32>,
    sketches: LeafSketchCache,
    params: ForgeANNParams,
}

fn leaf_case() -> LeafCase {
    let num_points = 96usize;
    let dim = 8usize;
    let mut params = ForgeANNParams::default();
    params.m_hash_bits = 12;
    params.leaf_knn = 2;
    params.max_full_matrix_leaf_size = 32;
    LeafCase {
        data: build_test_dataset(num_points, dim),
        dim,
        leaf: (0..num_points as u32).collect(),
        sketches: LeafSketchCache {
            data: build_test_sketches(num_points, 12),
            width: 12,
        },
        params,
    }
}

fn serial_neighbors(case: &LeafCase) -> Vec<Vec<u32>> {
    let mut held = reservoirs(case.leaf.len(), case.params.l_max);
    let dists = distances(&case.data, case.dim, &case.leaf, 0..case.leaf.len());
    process_leaf(&dists, &case.sketches, &case.leaf, &case.params, &mut held);
    collect_neighbors(held)
}

fn block_results(case: &LeafCase, block_rows: usize) -> Vec<ParallelBlockResult> {
    let plan = plan_large_leaf(&case.params, Metric::L2, case.leaf.len());
    assert_eq!(plan.route, LeafRoute::Blocks);
    (0..case.leaf.len())
        .step_by(block_rows)
        .map(|start| {
            let end = (start + block_rows).min(case.leaf.len());
            process_leaf_parallel_large_block(
                &distances(&case.data, case.dim, &case.leaf, start..end),
                &case.sketches,
                &case.leaf,
                &case.params,
                start,
                block_rows,
                plan.k,
            )
        })
        .collect()
}

#[test]
fn parallel_large_leaf_matches_serial_leaf_neighbors() {
    let case = leaf_case();
    let mut blocks = block_results(&case, 16);
    // Blocks may finish in any order.
    blocks.reverse();
    let mut edges = merge_block_edges(&blocks);
    let mut held = reservoirs(case.leaf.len(), case.params.l_max);
    flush_pending_edges_to_reservoirs(&mut edges, &mut held);
    assert!(edges.is_empty());

    let plan = plan_large_leaf(&case.params, Metric::L2, case.leaf.len());
    let profile = leaf_profile_start(case.leaf.len(), plan.blockwise, &case.params, false);
    assert_eq!(profile.blockwise_leaves, 1);
    assert_eq!(serial_neighbors(&case), collect_neighbors(held));
}

#[test]
fn cpu_leaf_path_matches_serial_leaf_neighbors() {
    let case = leaf_case();
    let plan = plan_leaf(&case.params, Metric::L2, case.leaf.len());
    assert_eq!(plan.route, LeafRoute::Blocks);
    let mut run = LeafBlockRun::start(case.leaf.len(), plan.k, 16);
    while let Some((start, end)) = run.next_block() {
        run.add_block(&distances(&case.data, case.dim, &case.leaf, start..end));
    }
    let mut held = reservoirs(case.leaf.len(), case.params.l_max);
    process_leaf_blockwise(&run, &case.sketches, &case.leaf, &case.params, &mut held);

    let profile = leaf_profile_start(case.leaf.len(), plan.blockwise, &case.params, false);
    assert_eq!(profile.blockwise_leaves, 1);
    assert_eq!(serial_neighbors(&case), collect_neighbors(held));
}

#[test]
fn leaves_take_the_route_of_their_size() {
    let mut params = ForgeANNParams::default();
    params.max_full_matrix_leaf_size = 3500;
    let route = |params: &ForgeANNParams, metric, size| plan_leaf(params, metric, size).route;
    assert_eq!(route(&params, Metric::L2, 1), LeafRoute::Skip);
    assert_eq!(route(&params, Metric::L2, 639), LeafRoute::FullMatrix);
    assert_eq!(route(&params, Metric::L2, 640), LeafRoute::AdSampling);
    assert_eq!(route(&params, Metric::Cosine, 640), LeafRoute::FullMatrix);
    assert_eq!(route(&params, Metric::Cosine, 3501), LeafRoute::Blocks);
    params.adsampling_group_dims = 0;
    assert_eq!(route(&params, Metric::L2, 640), LeafRoute::FullMatrix);
    params.leaf_knn = 0;
    assert_eq!(route(&params, Metric::L2, 640), LeafRoute::Skip);
}

#[test]
fn waves_of_blocks_fit_threads_and_scratch() {
    assert_eq!(
        choose_parallel_block_wave_width_for_threads(96, 16, 2, 6, 4),
        4
    );
    assert_eq!(
        choose_parallel_block_wave_width_for_threads(96, 16, 2, 3, 4),
        3
    );
    assert_eq!(
        choose_parallel_block_wave_width_for_threads(1 << 20, 1024, 2, 1024, 64),
        1
    );
    let pool = rayon::ThreadPoolBuilder::new()
        .num_threads(3)
        .build()
        .unwrap();
    assert_eq!(
        pool.install(|| choose_parallel_block_wave_width(96, 16, 2, 6)),
        3
    );
}

#[test]
fn leaf_reads_are_gathered_in_windows() {
    let narrow = default_leaf_point_read_options(8, 100);
    let wide = default_leaf_point_read_options(4096, 100);
    assert!(narrow.max_gap_rows >= wide.max_gap_rows);
    assert_eq!(narrow.alignment_bytes, 4096);
    assert_eq!(leaf_sketch_read_options(12, 100).alignment_bytes, 4096);
}

#[test]
fn every_edge_has_its_mirror() {
    let case = leaf_case();
    let blocks = block_results(&case, 96);
    let edges = &blocks[0].edges;
    assert_eq!(edges.len(), 96 * 2 * 2);
    for pair in edges.chunks_exact(2) {
        assert_eq!(pair[0].flags, PENDING_EDGE_DIRECT);
        assert_eq!(pair[1].flags, PENDING_EDGE_MIRROR);
        assert_eq!(pair[0].p as u32, pair[1].c);
        assert_eq!(pair[1].p as u32, pair[0].c);
        assert_eq!(pair[0].dist, pair[1].dist);
    }
    assert_eq!(edges[0].local_rank, 1);
    assert_eq!(edges[2].local_rank, 2);
}

fn edge(p: usize, c: u32, dist: f32) -> PendingEdge {
    PendingEdge {
        p,
        c,
        hash: c as u16,
        dist: bits(dist),
        mandatory: false,
        local_rank: 1,
        flags: PENDING_EDGE_DIRECT,
    }
}

#[test]
fn split_edges_keep_their_order() {
    let mut edges = vec![edge(3, 0, 1.0), edge(1, 2, 2.0), edge(2, 1, 3.0), edge(0, 3, 4.0)];
    let (resident, spilled) = split_edges(&mut edges, 2);
    assert!(edges.is_empty());
    assert_eq!(resident.iter().map(|e| e.p).collect::<Vec<_>>(), vec![1, 0]);
    assert_eq!(spilled.iter().map(|e| e.p).collect::<Vec<_>>(), vec![3, 2]);
}

#[test]
fn spilled_edges_are_reduced_shard_by_shard() {
    let edges = vec![edge(3, 0, 1.0), edge(1, 2, 2.0), edge(2, 1, 3.0), edge(3, 1, 4.0)];
    for shard_points in 1..5 {
        let graph = reduce_spilled_edges(&edges, 1, 4, 8, shard_points);
        assert_eq!(graph, vec![vec![2], vec![1], vec![0, 1]]);
    }
}

/// One leaf of all points.
fn whole_leaf(num_points: usize, dim: usize) -> LeafInput {
    let data = build_test_dataset(num_points, dim);
    let ids: Vec<u32> = (0..num_points as u32).collect();
    let found = LeafNeighbors::Matrix(distances(&data, dim, &ids, 0..num_points));
    LeafInput {
        ids,
        sketches: LeafSketchCache {
            data: build_test_sketches(num_points, 16),
            width: 16,
        },
        found,
    }
}

fn input(leaves: Vec<LeafInput>, dim: usize) -> StoreInput {
    StoreInput {
        dim,
        leaves,
        sketch_bytes: 0,
        sketch_file_bytes: 0,
        start_samples: vec![
            SketchStartSample {
                pid: 4,
                dist: F64 {
                    bits: 2.0f64.to_bits(),
                },
            },
            SketchStartSample {
                pid: 7,
                dist: F64 {
                    bits: 1.0f64.to_bits(),
                },
            },
        ],
        recorder: false,
    }
}

fn sorted(graph: &[Vec<u32>]) -> Vec<Vec<u32>> {
    graph
        .iter()
        .map(|row| {
            let mut row = row.clone();
            row.sort_unstable();
            row
        })
        .collect()
}

#[test]
fn oom_build_matches_in_memory_neighbors_on_small_dataset() {
    let in_memory_params = ForgeANNParams::default();
    let mut oom_params = ForgeANNParams::default();
    oom_params.oom_enable = true;
    oom_params.oom_keep_artifacts = false;

    let store = input(vec![whole_leaf(48, 8)], 8);
    let (in_memory, in_memory_graph) =
        build_forgeann_graph_with_store(&store, 48, 1, &in_memory_params);
    let (oom, oom_graph) = build_forgeann_graph_with_store(&store, 48, 1, &oom_params);

    assert_eq!(sorted(&oom_graph), sorted(&in_memory_graph));
    assert!(in_memory_graph.iter().all(|row| row.len() >= 2));
    assert_eq!(in_memory.graph_start_hint, None);
    assert_eq!(oom.graph_start_hint, Some(7));
}

#[test]
fn build_of_no_points_is_empty() {
    let store = input(Vec::new(), 8);
    let mut params = ForgeANNParams::default();
    params.m_hash_bits = 40;
    let (summary, graph) = build_forgeann_graph_with_store(&store, 0, 0, &params);
    assert_eq!(summary.graph_start_hint, None);
    assert!(graph.is_empty());
}

#[test]
fn threads_default_to_those_of_the_pool() {
    assert_eq!(effective_build_threads(5), 5);
    let pool = rayon::ThreadPoolBuilder::new()
        .num_threads(3)
        .build()
        .unwrap();
    assert_eq!(pool.install(|| effective_build_threads(0)), 3);
}

#[test]
fn every_mode_but_one_builds_the_same_graph() {
    let leaves = vec![whole_leaf(40, 4)];
    let params = ForgeANNParams::default();
    let mut plan = plan_oom_build(&params, 40, 1, 4, 0, 0, false);
    plan.mode = OomBuildMode::Resident;
    let resident = build_forgeann_graph_oom(&leaves, 40, &params, &plan);
    plan.mode = OomBuildMode::Hybrid;
    for (residents, shard) in [(1, 1), (13, 7), (39, 100)] {
        plan.resident_points = residents;
        plan.shard_points = shard;
        assert_eq!(
            build_forgeann_graph_oom(&leaves, 40, &params, &plan),
            resident
        );
    }
    plan.mode = OomBuildMode::External;
    assert_eq!(
        build_forgeann_graph_oom(&leaves, 40, &params, &plan),
        resident
    );
    plan.mode = OomBuildMode::MetadataOnly;
    assert!(build_forgeann_graph_oom(&leaves, 40, &params, &plan).is_empty());
}

#[test]
fn found_rows_make_edges_like_a_matrix() {
    let mut leaf = whole_leaf(3, 2);
    let params = ForgeANNParams::default();
    let by_matrix = leaf_pending_edges(&leaf, 3, &params);
    let mut rows = Vec::new();
    for (own, others) in [
        (0usize, [(1usize, 0.125f32), (2, 0.5)]),
        (1, [(0, 0.125), (2, 0.125)]),
        (2, [(1, 0.125), (0, 0.5)]),
    ] {
        let mut row = RowTopK::default();
        for (index, dist) in others {
            assert!(index != own);
            row.push(2, index, bits(dist));
        }
        rows.push(row);
    }
    leaf.found = LeafNeighbors::Rows(rows);
    assert_eq!(leaf_pending_edges(&leaf, 3, &params), by_matrix);
}

#[test]
fn oom_build_hybrid_resident_prefix_emits_each_point_once_and_keeps_spill_artifacts() {
    let num_points = 5_000usize;
    let dim = 8usize;
    let mut params = ForgeANNParams::default();
    params.oom_enable = true;
    params.oom_keep_artifacts = true;
    params.l_max = 4_096;
    params.max_full_matrix_leaf_size = 256;
    params.c_min = 16;
    params.c_max = 32;
    params.max_depth = 6;
    params.max_leaders = 32;
    params.fanout_top = 4;
    params.fanout_second = 2;
    params.oom_memory_budget_bytes = 1280 * 1024 * 1024;
    params.oom_spill_cache_bytes = 16 * 1024 * 1024;

    let budget = params.effective_oom_memory_budget_bytes();
    let shard_points = derive_spill_shard_points(num_points, &params, budget);
    let effective_threads = derive_oom_worker_count(1, &params, dim);
    let resident_plan = plan_resident_reservoir_prefix(
        num_points,
        effective_threads,
        &params,
        dim,
        0,
        shard_points,
        OomMemoryPlan::from_params(&params).reservoir_budget_bytes,
    );
    assert!(
        resident_plan.resident_points > 0 && resident_plan.resident_points < num_points,
        "test configuration should force hybrid resident+spill mode, got resident_points={} num_points={} shard_points={}",
        resident_plan.resident_points,
        num_points,
        shard_points
    );
    let plan = plan_oom_build(&params, num_points, 1, dim, 0, 0, false);
    assert_eq!(plan.mode, OomBuildMode::Hybrid);
    assert_eq!(plan.resident_points, resident_plan.resident_points);
    assert_eq!(plan.shard_points, shard_points);

    // Leaves of 25 points each.
    let data = build_test_dataset(num_points, dim);
    let sketches = build_test_sketches(num_points, 12);
    let mut leaves = Vec::new();
    for first in (0..num_points as u32).step_by(25) {
        let ids: Vec<u32> = (first..first + 25).collect();
        let found = LeafNeighbors::Matrix(distances(&data, dim, &ids, 0..ids.len()));
        leaves.push(LeafInput {
            sketches: LeafSketchCache {
                data: sketches[first as usize * 12..(first as usize + 25) * 12].to_vec(),
                width: 12,
            },
            ids,
            found,
        });
    }
    let store = input(leaves, dim);
    // One row for each point, in the order of the points.
    let (_, graph) = build_forgeann_graph_with_store(&store, num_points, 1, &params);
    assert_eq!(
        graph.len(),
        num_points,
        "expected every point to be emitted exactly once"
    );
    // What the build spilled stays where that was asked for.
    let spilled: Vec<String> = ["candidate_shard00000_part000.log", "candidate_segments.manifest"]
        .iter()
        .map(|name| name.to_string())
        .collect();
    assert!(artifacts_to_remove(params.oom_keep_artifacts, &spilled).is_empty());
    assert_eq!(artifacts_to_remove(false, &spilled), vec![0, 1]);
    params.oom_enable = false;
    let (_, in_memory) = build_forgeann_graph_with_store(&store, num_points, 1, &params);
    assert_eq!(graph, in_memory);
}

#[test]
fn oom_build_skips_candidate_spill_when_budget_can_hold_full_reservoirs() {
    let mut params = ForgeANNParams::default();
    params.oom_enable = true;
    params.oom_keep_artifacts = true;

    let plan = plan_oom_build(&params, 128, 4, 8, 0, 0, false);
    assert_eq!(plan.mode, OomBuildMode::Resident);

    let store = input(vec![whole_leaf(128, 8)], 8);
    let (_, graph) = build_forgeann_graph_with_store(&store, 128, 4, &params);
    assert_eq!(graph.len(), 128);
    assert!(estimate_reservoir_bytes(128, params.l_max) < 1 << 20);
}
