use forgeann::ads_assign::{
    check_loaded_chunk, gather_tile, indexed_source_rows, plan_assignment,
    plan_assignment_for_threads, tile_query_count, AdSamplingChunkResult, AdsTotals, ChunkAssembler,
};
use forgeann::ads_config::{
    adsampling_depth_fallback_reason, adsampling_windowed_options, align_leaf_ads_tile_rows,
    check_adsampling_ratios, choose_adsampling_assignment_chunk_rows,
    choose_adsampling_assignment_chunk_rows_for_threads, classify_adsampling_task,
    leaf_ads_size_bucket, should_parallelize_leaf_adsampling_rows, should_parallelize_rows_from,
    should_use_adsampling_assignment, should_use_adsampling_depth, should_use_adsampling_root,
    should_validate_source_with, AdSamplingConfig, AdsOverrides, LeafAdsOperatorConfig,
    LeafAdsOperatorRuntime, ADS_ASSIGN_MAX_CHUNK_ROWS, ADS_LEAF_PARALLEL_MIN_ROWS,
    ADS_LEAF_ROW_CHUNK, ADS_QUERY_CHUNK, ADS_QUERY_TILE,
};
use forgeann::ads_layout::AdSamplingLeaderLayout;
use forgeann::ads_leaf::{
    after_tile, check_leaf_matrix, check_wavefront_matrix, finalize_leaf_ads_tiles,
    leaf_row_ranges, leaf_scan_sizes, seed_row, tile_telemetry, tile_workers, LeafAdSamplingChunk,
    SliceStep, TileCursor,
};
use forgeann::ads_scan::{
    adsampling_seed_indices, adsampling_seed_mask, unseeded_block_mask, AdsCounters, TileScan,
};
use forgeann::ads_topk::{same_leaders, topk_overlap_count, TinyTopK};
use forgeann::ads_wavefront::{mutual_seeds, wavefront_steps, WavefrontScan};
use forgeann::ann_result::AnnError;
use forgeann::float_bits::F32;
use forgeann::lane_mask::{
    active_lanes, block_len_mask, leaf_adsampling_active_mask, should_use_sparse_ads_fallback,
    simd_group_call_count, ADS_LEADER_BLOCK,
};
use forgeann::leaf_profile::{
    leaf_profile_start, leaf_size_bucket_index, LeafAdSamplingTelemetry,
};
use forgeann::leaf_route::{plan_leaf, LeafRoute};
use forgeann::metric::Metric;
use forgeann::params::ForgeANNParams;
use forgeann::topk::Neighbor;

fn bits(value: f32) -> F32 {
    F32 {
        bits: value.to_bits(),
    }
}

fn value(bits: F32) -> f32 {
    f32::from_bits(bits.bits)
}

fn all_bits(values: &[f32]) -> Vec<F32> {
    values.iter().map(|value| bits(*value)).collect()
}

fn pairs(entries: &[Neighbor]) -> Vec<(usize, f32)> {
    entries
        .iter()
        .map(|entry| (entry.index, value(entry.dist)))
        .collect()
}

fn l2_sq(a: &[f32], b: &[f32]) -> f32 {
    a.iter().zip(b).map(|(x, y)| (x - y) * (x - y)).sum()
}

fn config(epsilon: f32, group_dims: usize, seed_exact: usize, validate: usize) -> AdSamplingConfig {
    AdSamplingConfig {
        epsilon: bits(epsilon),
        group_dims,
        seed_exact,
        sparse_full64_threshold: 8,
        sparse_group16_threshold: 4,
        validate_sources: validate,
    }
}

fn ratio_after_visited(dim: usize, epsilon: f32, visited: usize) -> f32 {
    if visited == 0 || visited >= dim {
        1.0
    } else {
        visited as f32 / dim as f32 * (1.0 + epsilon / (visited as f32).sqrt()).powi(2)
    }
}

fn add_group(
    distances: &mut [f32; 64],
    mask: u64,
    query: &[f32],
    rows: &[f32],
    dim: usize,
    block_start: usize,
    from: usize,
    to: usize,
) {
    for lane in 0..64usize {
        if mask >> lane & 1 == 1 {
            let row = &rows[(block_start + lane) * dim..(block_start + lane + 1) * dim];
            for axis in from..to {
                let diff = query[axis] - row[axis];
                distances[lane] += diff * diff;
            }
        }
    }
}

/// Scans one block for all queries of a tile.
fn scan_block(
    scan: &mut TileScan,
    queries: &[&[f32]],
    rows: &[f32],
    dim: usize,
    block_start: usize,
    base: &[u64],
    config: &AdSamplingConfig,
    vector: bool,
) {
    if !scan.begin_block(base) {
        return;
    }
    let mut distances = vec![[0.0f32; 64]; queries.len()];
    let mut from = 0;
    while from < dim {
        let to = (from + config.group_dims).min(dim);
        if scan
            .next_group(
                config.sparse_full64_threshold,
                config.sparse_group16_threshold,
                vector,
            )
            .is_none()
        {
            break;
        }
        let ratio = ratio_after_visited(dim, value(config.epsilon), to);
        for (q, query) in queries.iter().enumerate() {
            let mask = scan.active_mask(q);
            add_group(
                &mut distances[q],
                mask,
                query,
                rows,
                dim,
                block_start,
                from,
                to,
            );
            let limit = value(scan.threshold(q)) * ratio;
            scan.prune(q, &all_bits(&distances[q]), bits(limit));
        }
        from = to;
    }
    for q in 0..queries.len() {
        scan.commit(q, block_start, &all_bits(&distances[q]));
    }
}

/// Assigns the queries of one tile to their nearest leaders.
fn assign_tile(
    queries: &[&[f32]],
    leaders: &[f32],
    dim: usize,
    fanout: usize,
    config: &AdSamplingConfig,
) -> TileScan {
    let count = leaders.len() / dim;
    let layout = AdSamplingLeaderLayout::from_row_major(all_bits(leaders), count, dim);
    let seeds = adsampling_seed_indices(count, config.seed_exact, fanout);
    let seeded = adsampling_seed_mask(count, &seeds);
    let mut scan = TileScan::new(queries.len(), fanout.min(count.max(1)));
    for &seed in &seeds {
        let leader: Vec<f32> = layout.leader(seed).iter().map(|v| value(*v)).collect();
        for (q, query) in queries.iter().enumerate() {
            scan.seed(q, bits(l2_sq(query, &leader)), seed);
        }
    }
    for b in 0..layout.block_count() {
        let block = layout.block(b);
        let mask = unseeded_block_mask(&seeded, block.start(), block.len());
        let base = vec![mask; queries.len()];
        scan_block(
            &mut scan,
            queries,
            leaders,
            dim,
            block.start(),
            &base,
            config,
            true,
        );
    }
    scan
}

fn exact_topk(query: &[f32], leaders: &[f32], dim: usize, fanout: usize) -> Vec<usize> {
    let mut top = TinyTopK::new(fanout);
    for (index, leader) in leaders.chunks_exact(dim).enumerate() {
        top.push(bits(l2_sq(query, leader)), index);
    }
    top.leaders()
}

/// The nearest rows of the rows `from..to` of a leaf.
fn leaf_rows(
    vectors: &[f32],
    leaf_size: usize,
    dim: usize,
    k: usize,
    config: &AdSamplingConfig,
    from: usize,
    to: usize,
    vector: bool,
) -> (Vec<Vec<Neighbor>>, AdsCounters) {
    let (k, seeds) = leaf_scan_sizes(leaf_size, k, config.seed_exact);
    let mut found = Vec::new();
    let mut counters = AdsCounters::new();
    let mut start = from;
    while start < to {
        let end = (start + ADS_QUERY_TILE).min(to);
        let queries: Vec<&[f32]> = (start..end)
            .map(|row| &vectors[row * dim..(row + 1) * dim])
            .collect();
        let mut scan = TileScan::new(queries.len(), k);
        for (q, query) in queries.iter().enumerate() {
            for offset in 1..=seeds {
                let other = seed_row(start + q, offset, leaf_size);
                let row = &vectors[other * dim..(other + 1) * dim];
                scan.seed(q, bits(l2_sq(query, row)), other);
            }
        }
        for block_start in (0..leaf_size).step_by(ADS_LEADER_BLOCK) {
            let len = (leaf_size - block_start).min(ADS_LEADER_BLOCK);
            let base: Vec<u64> = (start..end)
                .map(|row| leaf_adsampling_active_mask(row, block_start, len, leaf_size, seeds))
                .collect();
            scan_block(
                &mut scan,
                &queries,
                vectors,
                dim,
                block_start,
                &base,
                config,
                vector,
            );
        }
        for q in 0..queries.len() {
            found.push(scan.entries(q));
        }
        let tile = scan.counters();
        counters.seed_evals += tile.seed_evals;
        counters.full_evals += tile.full_evals;
        counters.pruned_evals += tile.pruned_evals;
        counters.group_evals += tile.group_evals;
        counters.simd_group_calls += tile.simd_group_calls;
        counters.simd_active_lane_evals += tile.simd_active_lane_evals;
        counters.scalar_group_evals += tile.scalar_group_evals;
        start = end;
    }
    (found, counters)
}

fn leaf_topk(
    vectors: &[f32],
    leaf_size: usize,
    dim: usize,
    k: usize,
    config: &AdSamplingConfig,
) -> (Vec<Vec<(usize, f32)>>, AdsCounters) {
    let (rows, counters) = leaf_rows(vectors, leaf_size, dim, k, config, 0, leaf_size, true);
    (rows.iter().map(|row| pairs(row)).collect(), counters)
}

fn exact_leaf_topk(
    vectors: &[f32],
    leaf_size: usize,
    dim: usize,
    k: usize,
) -> Vec<Vec<(usize, f32)>> {
    let mut rows = Vec::with_capacity(leaf_size);
    for row in 0..leaf_size {
        let query = &vectors[row * dim..(row + 1) * dim];
        let mut top = TinyTopK::new(k);
        for candidate in 0..leaf_size {
            if candidate == row {
                continue;
            }
            top.push(
                bits(l2_sq(query, &vectors[candidate * dim..(candidate + 1) * dim])),
                candidate,
            );
        }
        rows.push(pairs(&top.entries()));
    }
    rows
}

fn assert_leaf_topk_close(actual: &[Vec<(usize, f32)>], expected: &[Vec<(usize, f32)>]) {
    assert_eq!(actual.len(), expected.len());
    for (row, (actual_row, expected_row)) in actual.iter().zip(expected.iter()).enumerate() {
        assert_eq!(
            actual_row.len(),
            expected_row.len(),
            "row {row} length mismatch"
        );
        let mut actual_indices = actual_row.iter().map(|&(idx, _)| idx).collect::<Vec<_>>();
        let mut expected_indices = expected_row.iter().map(|&(idx, _)| idx).collect::<Vec<_>>();
        actual_indices.sort_unstable();
        expected_indices.sort_unstable();
        assert_eq!(
            actual_indices, expected_indices,
            "row {row} index set mismatch"
        );

        for &(actual_idx, actual_dist) in actual_row {
            let expected_dist = expected_row
                .iter()
                .find(|&&(idx, _)| idx == actual_idx)
                .map(|&(_, dist)| dist)
                .expect("index set was checked above");
            assert!(
                (actual_dist - expected_dist).abs() <= 1.0e-5,
                "row {row} idx {actual_idx} distance mismatch: actual={actual_dist} expected={expected_dist}"
            );
        }
    }
}

fn deterministic_leaf_vectors(rows: usize, dim: usize) -> Vec<f32> {
    let mut vectors = Vec::new();
    for row in 0..rows {
        for col in 0..dim {
            let value = (row * 37 + col * 17 + row * col * 3) % 251;
            vectors.push(value as f32 * 0.00390625);
        }
    }
    vectors
}

fn grid(rows: usize, dim: usize, by_row: usize, by_col: usize, modulus: usize) -> Vec<f32> {
    let mut vectors = Vec::new();
    for row in 0..rows {
        for col in 0..dim {
            vectors.push(((row * by_row + col * by_col) % modulus) as f32 * 0.01);
        }
    }
    vectors
}

#[test]
fn tiny_topk_uses_compact_index_storage() {
    assert!(std::mem::size_of::<TinyTopK>() <= 288);

    let mut top = TinyTopK::new(2);
    top.push(bits(2.0), 3);
    top.push_unique(bits(1.0), 7);

    assert_eq!(pairs(&top.entries()), vec![(7, 1.0), (3, 2.0)]);
}

#[test]
fn tiny_topk_keeps_the_nearest_and_each_once() {
    let mut top = TinyTopK::new(2);
    assert_eq!(value(top.threshold()), f32::MAX);
    top.push(bits(5.0), 1);
    top.push(bits(4.0), 2);
    assert_eq!(value(top.threshold()), 5.0);
    top.push(bits(4.5), 2);
    assert_eq!(top.leaders(), vec![2, 1]);
    top.push(bits(6.0), 3);
    assert_eq!(top.leaders(), vec![2, 1]);
    top.push(bits(1.0), 3);
    assert_eq!(top.leaders(), vec![3, 2]);
}

#[test]
fn leaf_adsampling_active_mask_matches_scalar_seed_exclusion() {
    for leaf_size in [1_usize, 2, 7, 63, 64, 65, 129] {
        for seed_exact in [0_usize, 1, 2, 8, 63, 128] {
            for row in 0..leaf_size {
                for block_start in (0..leaf_size).step_by(13) {
                    let block_len = (leaf_size - block_start).min(64);
                    let actual = leaf_adsampling_active_mask(
                        row,
                        block_start,
                        block_len,
                        leaf_size,
                        seed_exact,
                    );

                    let mut expected = block_len_mask(block_len);
                    if row >= block_start && row < block_start + block_len {
                        expected &= !(1_u64 << (row - block_start));
                    }
                    let seed_exact = seed_exact.min(leaf_size.saturating_sub(1));
                    if leaf_size != 0 {
                        for offset in 1..=seed_exact {
                            let candidate = (row + offset) % leaf_size;
                            if candidate >= block_start && candidate < block_start + block_len {
                                expected &= !(1_u64 << (candidate - block_start));
                            }
                        }
                    }

                    assert_eq!(
                        actual, expected,
                        "leaf_size={leaf_size} seed_exact={seed_exact} row={row} block_start={block_start} block_len={block_len}"
                    );
                }
            }
        }
    }
}

#[test]
fn vector_work_is_counted_by_groups_of_lanes() {
    assert_eq!(block_len_mask(64), u64::MAX);
    assert_eq!(block_len_mask(3), 0b111);
    assert_eq!(active_lanes(&[0b101, 0b1]), 3);
    assert_eq!(simd_group_call_count(&[1, 0]), 1);
    assert_eq!(simd_group_call_count(&[u64::MAX]), 4);
    assert_eq!(simd_group_call_count(&[1 | 1 << 63, 1 << 20]), 3);
    assert!(should_use_sparse_ads_fallback(&[0b111], 3, 8, 4));
    assert!(!should_use_sparse_ads_fallback(&[u64::MAX], 64, 8, 4));
}

#[test]
fn adsampling_windowed_options_coalesce_direct_io_gaps() {
    let buffered_options = adsampling_windowed_options(768, 16_384, false, None, None);
    let strict_options = adsampling_windowed_options(768, 16_384, true, None, None);

    assert_eq!(buffered_options.max_gap_rows, 1);
    assert!(
        strict_options.max_gap_rows >= 1024,
        "direct sidecar reads should spend memory on gap rows to avoid tiny direct reads"
    );
    assert!(strict_options.max_window_bytes >= buffered_options.max_window_bytes);
}

#[test]
fn root_adsampling_matches_exact_with_conservative_epsilon() {
    let dim = 8usize;
    let leaders = [
        0.0, 0.0, 0.0, 0.0, 0.0, 0.0, 0.0, 0.0, 1.0, 0.0, 0.0, 0.0, 0.0, 0.0, 0.0, 0.0, 0.0, 2.0,
        0.0, 0.0, 0.0, 0.0, 0.0, 0.0, 8.0, 8.0, 8.0, 8.0, 8.0, 8.0, 8.0, 8.0,
    ];
    let query = [0.9, 0.1, 0.0, 0.0, 0.0, 0.0, 0.0, 0.0];

    let scan = assign_tile(&[&query], &leaders, dim, 2, &config(100.0, 2, 1, 0));
    let exact = exact_topk(&query, &leaders, dim, 2);

    assert_eq!(scan.leaders(0), exact);
    let mut totals = AdsTotals::new();
    totals.take_counters(&scan.counters());
    assert_eq!(
        totals.full_evals + totals.pruned_evals,
        (leaders.len() / dim) as u64
    );
}

#[test]
fn root_adsampling_counts_mismatch_when_pruning_is_too_aggressive() {
    let dim = 4usize;
    let leaders = [0.0, 0.0, 10.0, 10.0, 8.0, 0.0, 0.0, 0.0];
    let query = [0.0, 0.0, 0.0, 0.0];

    let scan = assign_tile(&[&query], &leaders, dim, 1, &config(0.01, 1, 1, 1));
    let mut totals = AdsTotals::new();
    totals.record_validation(&scan.leaders(0), &exact_topk(&query, &leaders, dim, 1));
    assert_eq!(totals.validation_mismatches, 1);
}

#[test]
fn root_adsampling_validation_records_topk_recall() {
    let dim = 4usize;
    let leaders = [
        0.0, 0.0, 10.0, 10.0, // seeded, not exact top-2
        0.1, 0.0, 0.0, 0.0, // seeded, exact top-1
        8.0, 0.0, 0.0, 0.0, // exact top-2, pruned aggressively
    ];
    let query = [0.0, 0.0, 0.0, 0.0];

    let scan = assign_tile(&[&query], &leaders, dim, 2, &config(0.01, 1, 2, 1));
    let mut totals = AdsTotals::new();
    totals.record_validation(&scan.leaders(0), &exact_topk(&query, &leaders, dim, 2));

    assert_eq!(totals.validation_mismatches, 1);
    assert_eq!(totals.validation_recall_hits, 1);
    assert_eq!(totals.validation_recall_total, 2);
    assert_eq!(
        totals.validation_recall_hits as f64 / totals.validation_recall_total as f64,
        0.5
    );
}

#[test]
fn root_adsampling_validation_sampling_respects_limit_stride_and_offset() {
    assert!(should_validate_source_with(3, 1, 0, 0));
    assert!(should_validate_source_with(3, 1, 0, 2));
    assert!(!should_validate_source_with(3, 1, 0, 3));

    assert!(!should_validate_source_with(3, 10, 5, 4));
    assert!(should_validate_source_with(3, 10, 5, 5));
    assert!(should_validate_source_with(3, 10, 5, 15));
    assert!(should_validate_source_with(3, 10, 5, 25));
    assert!(!should_validate_source_with(3, 10, 5, 35));
    assert!(!should_validate_source_with(3, 10, 5, 16));
}

#[test]
fn depth_adsampling_gate_uses_production_guards() {
    let params = ForgeANNParams::default();

    assert!(!should_use_adsampling_depth(&params, 0, 8, 4, 2));
    assert!(should_use_adsampling_depth(&params, 1, 8, 4, 2));
    assert!(should_use_adsampling_depth(&params, 2, 8, 4, 2));
    assert!(!should_use_adsampling_depth(&params, 3, 8, 4, 2));
    assert!(!should_use_adsampling_depth(&params, 1, 0, 4, 2));
    assert!(!should_use_adsampling_depth(&params, 1, 8, 2, 2));
    assert!(!should_use_adsampling_depth(&params, 1, 8, 4, 1));
}

#[test]
fn depth_adsampling_gate_reports_fallback_reason() {
    let params = ForgeANNParams::default();

    assert_eq!(adsampling_depth_fallback_reason(&params, 1, 8, 4, 2), None);
    assert_eq!(
        adsampling_depth_fallback_reason(&params, 3, 8, 4, 2),
        Some("max-depth")
    );
    assert_eq!(
        adsampling_depth_fallback_reason(&params, 1, 0, 4, 2),
        Some("empty-points")
    );
    assert_eq!(
        adsampling_depth_fallback_reason(&params, 1, 8, 2, 2),
        Some("leaders-le-fanout")
    );
    assert_eq!(
        adsampling_depth_fallback_reason(&params, 1, 8, 4, 1),
        Some("fanout")
    );
    assert_eq!(adsampling_depth_fallback_reason(&params, 1, 8, 4, 2), None);
}

#[test]
fn assignment_gate_follows_the_depth() {
    let mut params = ForgeANNParams::default();
    assert_eq!(
        should_use_adsampling_assignment(&params, 0, 8, 4, 2),
        should_use_adsampling_root(&params, 8, 4, 2)
    );
    assert_eq!(
        should_use_adsampling_assignment(&params, 1, 8, 4, 2),
        should_use_adsampling_depth(&params, 1, 8, 4, 2)
    );
    params.root_adsampling_enable = false;
    assert!(!should_use_adsampling_root(&params, 8, 4, 2));
}

#[test]
fn root_adsampling_layout_matches_scalar_and_records_vector_work() {
    let dim = 64usize;
    let leader_count = 80usize;
    let leaders = grid(leader_count, dim, 17, 13, 97);
    let query = (0..dim)
        .map(|col| ((col * 19 + 7) % 89) as f32 * 0.01)
        .collect::<Vec<_>>();

    let scan = assign_tile(&[&query], &leaders, dim, 4, &config(100.0, 16, 8, 1));
    let exact = exact_topk(&query, &leaders, dim, 4);

    assert_eq!(scan.leaders(0), exact);
    let mut totals = AdsTotals::new();
    totals.record_validation(&scan.leaders(0), &exact);
    assert_eq!(totals.validation_mismatches, 0);
    assert!(scan.counters().simd_group_calls > 0);
}

#[test]
fn leaf_adsampling_records_vector_work() {
    let dim = 64usize;
    let leaf_size = 96usize;
    let vectors = grid(leaf_size, dim, 31, 7, 113);

    let (rows, counters) = leaf_topk(&vectors, leaf_size, dim, 3, &config(100.0, 16, 8, 0));
    let expected = exact_leaf_topk(&vectors, leaf_size, dim, 3);

    assert_leaf_topk_close(&rows, &expected);
    assert!(counters.simd_group_calls > 0);
    assert_eq!(counters.scalar_group_evals, 0);
    // Every row meets every other row once: as a seed or in a block.
    assert_eq!(
        counters.seed_evals + counters.full_evals + counters.pruned_evals,
        (leaf_size * (leaf_size - 1)) as u64
    );
}

/// Runs a leaf in tiles, one behind the other.
fn tiled_leaf(
    vectors: &[f32],
    leaf_size: usize,
    dim: usize,
    k: usize,
    config: &AdSamplingConfig,
    runtime: &mut LeafAdsOperatorRuntime,
) -> forgeann::ads_leaf::LeafAdSamplingResult {
    assert!(runtime.enabled_for_leaf(leaf_size));
    runtime.begin_context();
    let bucket = leaf_ads_size_bucket(leaf_size);
    let work_graph = runtime.work_graph_enabled();
    if work_graph {
        runtime.note_single_worker();
    } else {
        let tile_rows = runtime.tile_rows_for_bucket(bucket).max(ADS_QUERY_TILE);
        let wanted = tile_workers(runtime, leaf_size, tile_rows);
        let granted = runtime.try_reserve_workers(wanted).unwrap();
        runtime.release_workers(granted);
    }
    let mut cursor = TileCursor::new(leaf_size);
    let mut chunks = Vec::new();
    loop {
        let tile_rows = runtime.tile_rows_for_bucket(bucket).max(ADS_QUERY_TILE);
        let Some((from, to)) = cursor.claim(tile_rows) else {
            break;
        };
        let (rows, counters) = leaf_rows(vectors, leaf_size, dim, k, config, from, to, true);
        runtime.record_tile(bucket, to - from, 1_000_000);
        let chunk = LeafAdSamplingChunk {
            row_start: from,
            row_end: to,
            row_topk: rows,
            telemetry: tile_telemetry(to - from, 1_000_000, 10, 20, &counters, work_graph),
        };
        // Chunks may arrive in any order.
        chunks.insert(0, chunk);
    }
    let result = finalize_leaf_ads_tiles(&chunks, 5, 0, runtime);
    runtime.end_context();
    result
}

#[test]
fn tiled_leaf_adsampling_matches_default_row_order() {
    let dim = 64usize;
    let leaf_size = 640usize;
    let vectors = grid(leaf_size, dim, 17, 29, 131);
    let config = config(100.0, 16, 8, 0);
    let mut runtime = LeafAdsOperatorRuntime::new(LeafAdsOperatorConfig {
        enabled: true,
        work_graph: false,
        cpu_budget: 4,
        target_tile_ms: 1,
        min_tile_rows: 64,
        max_tile_rows: 64,
        split_threshold: 64,
    });

    let (default, _) = leaf_topk(&vectors, leaf_size, dim, 3, &config);
    let tiled = tiled_leaf(&vectors, leaf_size, dim, 3, &config, &mut runtime);

    let rows: Vec<_> = tiled.row_topk.iter().map(|row| pairs(row)).collect();
    assert_leaf_topk_close(&rows, &default);
    assert!(tiled.telemetry.tiled);
    assert!(tiled.telemetry.tile_count > 1);
    assert_eq!(tiled.telemetry.tile_rows_min, 64);
    assert_eq!(tiled.telemetry.tile_rows_max, 64);
    assert_eq!(tiled.telemetry.tile_rows_total, leaf_size);
    assert!(tiled.telemetry.ewma_ns_per_row_by_bucket[0] > 0);
}

#[test]
fn work_graph_leaf_adsampling_matches_default_without_nested_workers() {
    let dim = 64usize;
    let leaf_size = 768usize;
    let vectors = grid(leaf_size, dim, 19, 23, 149);
    let config = config(100.0, 16, 8, 0);
    let mut runtime = LeafAdsOperatorRuntime::new(LeafAdsOperatorConfig {
        enabled: true,
        work_graph: true,
        cpu_budget: 4,
        target_tile_ms: 1,
        min_tile_rows: 256,
        max_tile_rows: 256,
        split_threshold: 64,
    });

    let (default, _) = leaf_topk(&vectors, leaf_size, dim, 3, &config);
    let work_graph = tiled_leaf(&vectors, leaf_size, dim, 3, &config, &mut runtime);

    let rows: Vec<_> = work_graph.row_topk.iter().map(|row| pairs(row)).collect();
    assert_leaf_topk_close(&rows, &default);
    assert!(work_graph.telemetry.tiled);
    assert!(work_graph.telemetry.work_graph);
    assert_eq!(work_graph.telemetry.tile_rows_total, leaf_size);
    assert_eq!(work_graph.telemetry.tile_rows_min, 256);
    assert_eq!(work_graph.telemetry.tile_rows_max, 256);
    assert_eq!(work_graph.telemetry.active_workers_peak, 1);
}

#[test]
fn leaf_adsampling_avoids_nested_parallelism_inside_rayon_worker() {
    assert!(
        ADS_LEAF_PARALLEL_MIN_ROWS <= 512,
        "leaves of 512 to 1024 rows should be spread over threads"
    );
    assert!(
        ADS_LEAF_ROW_CHUNK <= 64,
        "row chunks must be small enough to keep workers busy when only a few leaves remain"
    );
    assert!(should_parallelize_leaf_adsampling_rows(
        ADS_LEAF_PARALLEL_MIN_ROWS
    ));

    let pool = rayon::ThreadPoolBuilder::new()
        .num_threads(2)
        .build()
        .unwrap();
    assert!(!pool.install(|| should_parallelize_leaf_adsampling_rows(ADS_LEAF_PARALLEL_MIN_ROWS)));
    assert!(should_parallelize_rows_from(
        ADS_LEAF_PARALLEL_MIN_ROWS,
        false
    ));
    assert!(!should_parallelize_rows_from(
        ADS_LEAF_PARALLEL_MIN_ROWS,
        true
    ));
    assert!(!should_parallelize_rows_from(
        ADS_LEAF_PARALLEL_MIN_ROWS - 1,
        false
    ));
}

#[test]
fn tiled_leaf_adsampling_can_run_inside_rayon_worker() {
    let dim = 32usize;
    let leaf_size = ADS_LEAF_PARALLEL_MIN_ROWS;
    let vectors = grid(leaf_size, dim, 11, 5, 97);
    let config = config(100.0, 16, 8, 0);
    let pool = rayon::ThreadPoolBuilder::new()
        .num_threads(2)
        .build()
        .unwrap();

    let result = pool.install(|| {
        let mut runtime = LeafAdsOperatorRuntime::new(LeafAdsOperatorConfig {
            enabled: true,
            work_graph: false,
            cpu_budget: 2,
            target_tile_ms: 1,
            min_tile_rows: 64,
            max_tile_rows: 64,
            split_threshold: ADS_LEAF_PARALLEL_MIN_ROWS,
        });
        tiled_leaf(&vectors, leaf_size, dim, 3, &config, &mut runtime)
    });

    assert!(result.telemetry.tiled);
    assert!(result.telemetry.tile_count > 1);
    assert!(result.telemetry.active_workers_peak >= 1);
}

#[test]
fn indexed_loaded_adsampling_matches_contiguous_loaded_adsampling() {
    let dim = 8;
    let mut source_data = Vec::new();
    for row in 0..6usize {
        for col in 0..dim {
            source_data.push(((row * 17 + col * 5) % 101) as f32);
        }
    }
    let point_ids = vec![11_u32, 12, 13, 14];
    let source_offsets = vec![4_usize, 1, 5, 2];
    let mut contiguous = Vec::new();
    for &offset in &source_offsets {
        contiguous.extend_from_slice(&source_data[offset * dim..(offset + 1) * dim]);
    }
    let mut leaders = Vec::new();
    for leader in 0..ADS_LEADER_BLOCK {
        for col in 0..dim {
            leaders.push(((leader * 7 + col * 13) % 89) as f32);
        }
    }
    let config = config(100.0, 4, 4, 0);

    let rows = indexed_source_rows(
        point_ids.len(),
        source_offsets.len(),
        source_data.len(),
        dim,
    )
    .unwrap();
    let tile = gather_tile(&all_bits(&source_data), rows, &source_offsets, dim).unwrap();
    let indexed: Vec<f32> = tile.iter().map(|v| value(*v)).collect();
    check_loaded_chunk(contiguous.len(), point_ids.len(), dim).unwrap();
    assert_eq!(tile_query_count(indexed.len(), dim).unwrap(), 4);

    let queries = |values: &[f32]| -> TileScan {
        let tile: Vec<&[f32]> = values.chunks_exact(dim).collect();
        assign_tile(&tile, &leaders, dim, 2, &config)
    };
    let contiguous = queries(&contiguous);
    let indexed = queries(&indexed);
    for q in 0..point_ids.len() {
        assert_eq!(indexed.leaders(q), contiguous.leaders(q));
    }
    assert_eq!(
        indexed.counters().full_evals,
        contiguous.counters().full_evals
    );
    assert_eq!(
        indexed.counters().group_evals,
        contiguous.counters().group_evals
    );
}

#[test]
fn chunk_shapes_are_held_against_their_points() {
    assert_eq!(
        tile_query_count(10, 4).unwrap_err().message(),
        "IndexError: Invalid ADSampling tile dimensions: tile_len=10 dim=4"
    );
    assert_eq!(
        check_loaded_chunk(10, 3, 4).unwrap_err().message(),
        "IndexError: ADSampling loaded chunk size mismatch: got 10 expected 12"
    );
    assert_eq!(
        indexed_source_rows(3, 2, 8, 4).unwrap_err().message(),
        "IndexError: ADSampling indexed chunk size mismatch: point_ids=3 source_offsets=2"
    );
    assert_eq!(
        indexed_source_rows(2, 2, 9, 4).unwrap_err().message(),
        "IndexError: ADSampling indexed source dimensions mismatch: source_len=9 dim=4"
    );
    assert!(gather_tile(&all_bits(&[1.0, 2.0]), 2, &[2], 1).is_err());
    assert_eq!(
        check_leaf_matrix(7, 2, 4).unwrap_err().message(),
        "IndexError: Invalid leaf ADSampling matrix: len=7 leaf_size=2 dim=4"
    );
    assert!(check_leaf_matrix(8, 2, 4).is_ok());
    assert!(check_wavefront_matrix(7, 2, 4).is_err());
    assert!(check_adsampling_ratios(0, bits(1.0), "1", 4).is_err());
    assert!(check_adsampling_ratios(8, bits(f32::NAN), "NaN", 4).is_err());
    assert!(check_adsampling_ratios(8, bits(1.75), "1.75", 4).is_ok());
}

#[test]
fn streaming_adsampling_profile_records_scheduler_counters() {
    let dim = 8usize;
    let rows = ADS_QUERY_CHUNK + 48;
    let mut points = Vec::new();
    for row in 0..rows {
        for col in 0..dim {
            points.push(((row * 17 + col * 5) % 131) as f32);
        }
    }
    let leaders = points[..32 * dim].to_vec();
    let mut params = ForgeANNParams::default();
    params.adsampling_group_dims = 8;
    let unset = AdsOverrides {
        epsilon: None,
        group_dims: None,
        seed_exact: None,
        validate_sources: None,
    };

    let plan = plan_assignment(&params, rows, 32, 2, 1, &unset, &unset).unwrap();
    assert_eq!(
        plan.chunks,
        rows.div_ceil(choose_adsampling_assignment_chunk_rows(rows))
    );

    assert!(!plan.inside_pool);
    let pool = rayon::ThreadPoolBuilder::new()
        .num_threads(2)
        .build()
        .unwrap();
    let nested = pool
        .install(|| plan_assignment(&params, 64, 32, 2, 1, &unset, &unset))
        .unwrap();
    assert!(nested.inside_pool);

    let mut assembler = ChunkAssembler::new(plan.chunks);
    let mut visited_chunks = 0usize;
    let mut next_source = 0usize;
    // Chunks finish in reverse order.
    for chunk in (0..plan.chunks).rev() {
        let from = chunk * plan.chunk_rows;
        let to = (from + plan.chunk_rows).min(rows);
        let mut result = AdSamplingChunkResult::new(from);
        let mut at = from;
        while at < to {
            let end = (at + ADS_QUERY_TILE).min(to);
            let tile: Vec<&[f32]> = points[at * dim..end * dim].chunks_exact(dim).collect();
            let scan = assign_tile(&tile, &leaders, dim, plan.fanout, &plan.config);
            let mut by_point: Vec<Vec<usize>> = (0..tile.len()).map(|q| scan.leaders(q)).collect();
            let mut totals = AdsTotals::new();
            totals.take_counters(&scan.counters());
            result.add_tile(&mut by_point, &totals);
            at = end;
        }
        assembler.receive(chunk, Ok(result));
        while let Some(ready) = assembler.next_ready() {
            visited_chunks += 1;
            assert_eq!(ready.source_start, next_source);
            assert!(!ready.leaders_by_point.is_empty());
            next_source += ready.leaders_by_point.len();
        }
    }
    let (totals, pending) = assembler.finish().unwrap();
    assert_eq!(visited_chunks, plan.chunks);
    assert!(plan.chunks > 2);
    assert_eq!(next_source, rows);
    assert_eq!(pending, plan.chunks);
    assert_eq!(
        totals.full_evals + totals.pruned_evals,
        (rows * 32) as u64
    );
}

#[test]
fn a_failed_chunk_ends_the_assignment() {
    let mut assembler = ChunkAssembler::new(2);
    assembler.receive(
        0,
        Err(AnnError::log_index_error("read failed".to_string())),
    );
    assert!(assembler.next_ready().is_none());
    match assembler.finish() {
        Err(error) => assert_eq!(error.message(), "IndexError: read failed"),
        Ok(_) => panic!("expected an error"),
    }
}

#[test]
fn adsampling_scheduler_classifier_marks_large_and_huge_tasks() {
    let params = ForgeANNParams::default();

    let large = classify_adsampling_task(&params, 350_000, 1_500);
    assert!(large.large_ads);
    assert!(!large.huge_ads);

    let huge = classify_adsampling_task(&params, 1_000_000, 64);
    assert!(!huge.large_ads);
    assert!(huge.huge_ads);

    let medium = classify_adsampling_task(&params, 65_000, 525);
    assert!(!medium.large_ads);
    assert!(!medium.huge_ads);
}

#[test]
fn adsampling_assignment_chunks_match_gemm_style_tiling() {
    assert_eq!(
        choose_adsampling_assignment_chunk_rows_for_threads(2_048, 42),
        256
    );
    assert_eq!(
        choose_adsampling_assignment_chunk_rows_for_threads(65_000, 42),
        1_548
    );
    assert_eq!(
        choose_adsampling_assignment_chunk_rows_for_threads(3_135_080, 42),
        ADS_ASSIGN_MAX_CHUNK_ROWS
    );
}

#[test]
fn assignment_plan_is_exact_for_given_threads() {
    let params = ForgeANNParams::default();
    let unset = AdsOverrides {
        epsilon: None,
        group_dims: None,
        seed_exact: None,
        validate_sources: None,
    };
    let plan =
        plan_assignment_for_threads(&params, 65_000, 500, 3, 1, &unset, &unset, 42, false)
            .unwrap();
    assert_eq!(plan.fanout, 3);
    assert_eq!(plan.seeds, 8);
    assert_eq!(plan.chunk_rows, 1_548);
    assert_eq!(plan.chunks, 42);
}

#[test]
fn wavefront_pairmask_preserves_candidate_block_order() {
    for rows in [1_usize, 17, 64, 65, 129, 257] {
        let blocks = rows.div_ceil(ADS_LEADER_BLOCK);
        let baseline: Vec<Vec<usize>> = (0..rows).map(|_| (0..blocks).collect()).collect();
        let mut wavefront: Vec<Vec<usize>> = vec![Vec::new(); rows];
        let range = |block: usize| {
            block * ADS_LEADER_BLOCK..((block + 1) * ADS_LEADER_BLOCK).min(rows)
        };
        for (left, right) in wavefront_steps(blocks) {
            for row in range(left) {
                wavefront[row].push(right);
            }
            if left != right {
                for row in range(right) {
                    wavefront[row].push(left);
                }
            }
        }

        assert_eq!(
            wavefront, baseline,
            "wavefront candidate-block order diverged for rows={rows}"
        );
    }
}

#[test]
fn wavefront_pairmask_mutual_seed_matches_pairmask_semantics() {
    let dim = 8usize;
    let rows = 19usize;
    let seed_exact = 5usize;
    let vectors = deterministic_leaf_vectors(rows, dim);
    let mut scan = WavefrontScan::new(rows, 2, seed_exact);
    let seeds = scan.seed_pairs().to_vec();
    for (pair, &(left, right)) in seeds.iter().enumerate() {
        let dist = l2_sq(
            &vectors[left * dim..(left + 1) * dim],
            &vectors[right * dim..(right + 1) * dim],
        );
        scan.seed_pair(pair, bits(dist));
    }
    let mut expected_unique_pairs = 0_u64;

    for row in 0..rows {
        for candidate in 0..rows {
            let expected = (1..=seed_exact).any(|offset| {
                (row + offset) % rows == candidate || (candidate + offset) % rows == row
            });
            assert_eq!(
                scan.is_seeded(row, candidate),
                expected,
                "seed coverage mismatch row={row} candidate={candidate}"
            );
            if row < candidate && expected {
                expected_unique_pairs += 1;
            }
        }
    }

    assert_eq!(scan.counters().seed_evals, expected_unique_pairs);
    for row in 0..rows {
        for entry in scan.entries(row) {
            assert!(scan.is_seeded(row, entry.index));
        }
    }
    let listed = mutual_seeds(rows, seed_exact);
    assert_eq!(listed.pairs.len() as u64, expected_unique_pairs);
}

fn wavefront_leaf(
    vectors: &[f32],
    rows: usize,
    dim: usize,
    k: usize,
    config: &AdSamplingConfig,
) -> (WavefrontScan, u64) {
    check_wavefront_matrix(vectors.len(), rows, dim).unwrap();
    let mut scan = WavefrontScan::new(rows, k, config.seed_exact);
    let row = |r: usize| &vectors[r * dim..(r + 1) * dim];
    let seeds = scan.seed_pairs().to_vec();
    for (pair, &(left, right)) in seeds.iter().enumerate() {
        scan.seed_pair(pair, bits(l2_sq(row(left), row(right))));
    }
    let blocks = rows.div_ceil(ADS_LEADER_BLOCK);
    let mut next_block = vec![0usize; rows];
    let mut order_violations = 0_u64;
    for (left, right) in wavefront_steps(blocks) {
        let first = left * ADS_LEADER_BLOCK;
        let count = (rows - first).min(ADS_LEADER_BLOCK);
        let start = right * ADS_LEADER_BLOCK;
        let width = (rows - start).min(ADS_LEADER_BLOCK);
        let mut visit = |row: usize, block: usize| {
            if next_block[row] != block {
                order_violations += 1;
            }
            next_block[row] = block + 1;
        };
        for i in 0..count {
            visit(first + i, right);
        }
        if left != right {
            for i in 0..width {
                visit(start + i, left);
            }
        }
        if !scan.begin(first, count, right) {
            continue;
        }
        let mut distances = vec![[0.0f32; 64]; count];
        let mut from = 0;
        while from < dim && scan.any_active() {
            let to = (from + config.group_dims).min(dim);
            let ratio = ratio_after_visited(dim, value(config.epsilon), to);
            let mut tile = 0;
            while tile < count {
                let len = (count - tile).min(ADS_QUERY_TILE);
                let work = scan.next_group(
                    tile,
                    len,
                    config.sparse_full64_threshold,
                    config.sparse_group16_threshold,
                    true,
                );
                if work.is_some() {
                    for i in tile..tile + len {
                        let mask = scan.active_mask(i);
                        add_group(
                            &mut distances[i],
                            mask,
                            row(first + i),
                            vectors,
                            dim,
                            start,
                            from,
                            to,
                        );
                    }
                }
                tile += len;
            }
            for i in 0..count {
                if left == right {
                    let limit = value(scan.threshold(first + i)) * ratio;
                    scan.prune_row(i, &all_bits(&distances[i]), bits(limit));
                } else {
                    let mut limits = [0.0f32; 64];
                    for lane in 0..width {
                        limits[lane] =
                            value(scan.pair_threshold(first + i, start + lane)) * ratio;
                    }
                    scan.prune_pairs(i, &all_bits(&distances[i]), &all_bits(&limits));
                }
            }
            from = to;
        }
        for i in 0..count {
            if left == right {
                scan.commit_row(i, first + i, right, &all_bits(&distances[i]));
            } else {
                scan.commit_pairs(i, first + i, right, &all_bits(&distances[i]));
            }
        }
    }
    (scan, order_violations)
}

fn integrity_violations(scan: &WavefrontScan, rows: usize) -> (u64, u64) {
    let mut self_edges = 0_u64;
    let mut duplicates = 0_u64;
    for row in 0..rows {
        let entries = scan.entries(row);
        for (pos, entry) in entries.iter().enumerate() {
            if entry.index == row {
                self_edges += 1;
            }
            if entries[..pos].iter().any(|e| e.index == entry.index) {
                duplicates += 1;
            }
        }
    }
    (self_edges, duplicates)
}

#[test]
fn wavefront_pairmask_diagonal_fallback_matches_baseline_self_block_scan() {
    let dim = 32usize;
    let leaf_size = 57usize;
    let vectors = deterministic_leaf_vectors(leaf_size, dim);
    let config = config(100.0, 8, 0, 0);

    let (baseline, _) = leaf_topk(&vectors, leaf_size, dim, 4, &config);
    let (wavefront, order_violations) = wavefront_leaf(&vectors, leaf_size, dim, 4, &config);

    let rows: Vec<_> = (0..leaf_size)
        .map(|row| pairs(&wavefront.entries(row)))
        .collect();
    assert_leaf_topk_close(&rows, &baseline);
    assert_eq!(order_violations, 0);
    assert_eq!(integrity_violations(&wavefront, leaf_size), (0, 0));
}

#[test]
fn wavefront_pairmask_block_pair_commit_has_no_self_or_duplicates() {
    let dim = 64usize;
    let leaf_size = 153usize;
    let vectors = deterministic_leaf_vectors(leaf_size, dim);

    let (run, order_violations) =
        wavefront_leaf(&vectors, leaf_size, dim, 3, &config(2.0, 16, 8, 0));

    assert_eq!(order_violations, 0);
    assert_eq!(integrity_violations(&run, leaf_size), (0, 0));
    assert!(run.counters().group_evals > 0);
    assert!(run.counters().full_evals > 0);
}

#[test]
fn wavefront_without_pruning_finds_what_an_exact_scan_finds() {
    let dim = 16usize;
    let leaf_size = 130usize;
    let vectors = deterministic_leaf_vectors(leaf_size, dim);
    let (run, _) = wavefront_leaf(&vectors, leaf_size, dim, 3, &config(1000.0, 8, 4, 0));
    let rows: Vec<_> = (0..leaf_size).map(|row| pairs(&run.entries(row))).collect();
    let exact = exact_leaf_topk(&vectors, leaf_size, dim, 3);
    for (row, (found, expected)) in rows.iter().zip(&exact).enumerate() {
        for ((_, a), (_, b)) in found.iter().zip(expected) {
            assert!((a - b).abs() <= 1.0e-5, "row {row}: {a} {b}");
        }
    }
}

#[test]
fn workers_are_given_back() {
    let mut runtime = LeafAdsOperatorRuntime::new(LeafAdsOperatorConfig {
        enabled: true,
        work_graph: false,
        cpu_budget: 3,
        target_tile_ms: 1,
        min_tile_rows: 64,
        max_tile_rows: 256,
        split_threshold: 64,
    });
    assert_eq!(runtime.try_reserve_workers(2), Some(2));
    assert_eq!(runtime.try_reserve_workers(5), Some(1));
    assert_eq!(runtime.try_reserve_workers(1), None);
    assert_eq!(runtime.active_workers_peak, 3);
    runtime.release_workers(3);
    assert_eq!(runtime.active_workers, 0);
    assert_eq!(runtime.try_reserve_workers(3), Some(3));
}

#[test]
fn automatic_budget_leaves_an_eighth_to_others() {
    let mut params = ForgeANNParams::default();
    params.leaf_ads_tiling_enable = true;
    assert_eq!(
        LeafAdsOperatorRuntime::from_params(&params, 42).cpu_budget(),
        37
    );
    assert_eq!(
        LeafAdsOperatorRuntime::from_params(&params, 1).cpu_budget(),
        1
    );
    assert_eq!(align_leaf_ads_tile_rows(1), 8);
    assert_eq!(align_leaf_ads_tile_rows(65), 72);
}

#[test]
fn a_leaf_in_slices_is_put_back_when_its_time_is_up() {
    let mut cursor = TileCursor::new(100);
    assert_eq!(cursor.claim(64), Some((0, 64)));
    assert_eq!(after_tile(&cursor, 5, 10), SliceStep::Continue);
    assert_eq!(after_tile(&cursor, 10, 10), SliceStep::Requeue);
    assert_eq!(cursor.claim(64), Some((64, 100)));
    assert_eq!(after_tile(&cursor, 10, 10), SliceStep::Finish);
    assert_eq!(cursor.claim(64), None);
    assert_eq!(
        leaf_row_ranges(70),
        vec![(0, 32), (32, 32), (64, 6)]
    );
}

#[test]
fn validation_compares_leaders_in_order() {
    assert_eq!(topk_overlap_count(&[1, 2, 3], &[3, 4, 1]), 2);
    assert!(same_leaders(&[1, 2], &[1, 2]));
    assert!(!same_leaders(&[1, 2], &[2, 1]));
}

fn build_test_dataset(num_points: usize, dim: usize) -> Vec<f32> {
    let mut data = Vec::new();
    for point in 0..num_points {
        for axis in 0..dim {
            data.push(point as f32 * 0.25 + axis as f32 * 0.5);
        }
    }
    data
}

fn leaf_config(params: &ForgeANNParams) -> AdSamplingConfig {
    let unset = AdsOverrides {
        epsilon: None,
        group_dims: None,
        seed_exact: None,
        validate_sources: None,
    };
    AdSamplingConfig::leaf_from_params(params, params.leaf_knn, &unset)
}

#[test]
fn production_leaf_adsampling_profile_records_large_leaf() {
    let num_points = 640usize;
    let dim = 8usize;
    let vectors = build_test_dataset(num_points, dim);
    let mut params = ForgeANNParams::default();
    params.m_hash_bits = 12;
    params.leaf_knn = 2;
    params.adsampling_group_dims = 4;
    params.adsampling_epsilon = bits(100.0);

    let plan = plan_leaf(&params, Metric::L2, num_points);
    assert_eq!(plan.route, LeafRoute::AdSampling);
    let (_, counters) = leaf_topk(&vectors, num_points, dim, plan.k, &leaf_config(&params));
    let mut telemetry = LeafAdSamplingTelemetry::default();
    telemetry.seed_evals = counters.seed_evals;
    let mut profile = leaf_profile_start(num_points, plan.blockwise, &params, false);
    profile.record_leaf_adsampling(num_points, &telemetry);

    assert_eq!(profile.leaf_adsampling_leaves, 1);
    assert_eq!(profile.leaf_adsampling_rows, num_points);
    assert!(profile.leaf_adsampling_seed_evals > 0);
    assert!(!profile.leaf_ads_tiling_enabled);
    assert_eq!(profile.leaf_ads_tiled_leaves, 0);
}

#[test]
fn leaf_adsampling_tiled_runtime_records_profile() {
    let num_points = 640usize;
    let dim = 8usize;
    let vectors = build_test_dataset(num_points, dim);
    let mut params = ForgeANNParams::default();
    params.m_hash_bits = 12;
    params.leaf_knn = 2;
    params.adsampling_group_dims = 4;
    params.adsampling_epsilon = bits(100.0);
    params.leaf_ads_tiling_enable = true;
    params.leaf_ads_cpu_budget = 4;
    params.leaf_ads_target_tile_ms = 1;
    params.leaf_ads_min_tile_rows = 64;
    params.leaf_ads_max_tile_rows = 64;
    params.leaf_ads_split_threshold = 64;

    let mut runtime = LeafAdsOperatorRuntime::from_params(&params, 4);
    let result = tiled_leaf(
        &vectors,
        num_points,
        dim,
        2,
        &leaf_config(&params),
        &mut runtime,
    );
    let mut profile = leaf_profile_start(num_points, false, &params, false);
    profile.record_leaf_adsampling(num_points, &result.telemetry);

    assert!(profile.leaf_ads_tiling_enabled);
    assert_eq!(profile.leaf_ads_tiled_leaves, 1);
    assert_eq!(profile.leaf_ads_tiled_rows, num_points);
    assert!(profile.leaf_ads_tiles > 1);
    assert_eq!(profile.leaf_ads_tile_rows_min, 64);
    assert_eq!(profile.leaf_ads_tile_rows_max, 64);
    assert_eq!(profile.leaf_ads_cpu_budget, 4);
    assert!(profile.leaf_ads_active_workers_peak >= 1);
}

#[test]
fn leaf_profile_records_exact_and_adsampling_bucket_timings() {
    let num_points = 512usize;
    let mut exact_params = ForgeANNParams::default();
    exact_params.m_hash_bits = 12;
    exact_params.leaf_knn = 2;
    exact_params.max_full_matrix_leaf_size = 1024;
    let exact_plan = plan_leaf(&exact_params, Metric::L2, num_points);
    assert_eq!(exact_plan.route, LeafRoute::FullMatrix);
    let mut exact_profile =
        leaf_profile_start(num_points, exact_plan.blockwise, &exact_params, false);
    exact_profile.total_wall = 7;
    exact_profile.record_leaf_size_bucket(num_points, None);

    let ads_points = 640usize;
    let dim = 4usize;
    let vectors = build_test_dataset(ads_points, dim);
    let mut ads_params = exact_params.clone();
    ads_params.adsampling_group_dims = 4;
    ads_params.adsampling_epsilon = bits(100.0);
    let ads_plan = plan_leaf(&ads_params, Metric::L2, ads_points);
    assert_eq!(ads_plan.route, LeafRoute::AdSampling);
    let (_, counters) = leaf_topk(&vectors, ads_points, dim, 2, &leaf_config(&ads_params));
    let mut telemetry = LeafAdSamplingTelemetry::default();
    telemetry.scan = 9;
    telemetry.full_evals = counters.full_evals;
    let mut ads_profile = leaf_profile_start(ads_points, ads_plan.blockwise, &ads_params, false);
    ads_profile.record_leaf_adsampling(ads_points, &telemetry);
    ads_profile.record_leaf_size_bucket(ads_points, Some(&telemetry));

    let bucket = leaf_size_bucket_index(num_points).unwrap();
    assert_eq!(bucket, 1);
    assert_eq!(exact_profile.leaf_size_buckets[bucket].exact_leaves, 1);
    assert_eq!(exact_profile.leaf_size_buckets[bucket].adsampling_leaves, 0);
    assert!(exact_profile.leaf_size_buckets[bucket].exact_wall > 0);
    assert_eq!(ads_profile.leaf_size_buckets[bucket].exact_leaves, 0);
    assert_eq!(ads_profile.leaf_size_buckets[bucket].adsampling_leaves, 1);
    assert!(ads_profile.leaf_size_buckets[bucket].adsampling_scan > 0);
}
