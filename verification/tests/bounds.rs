use forgeann::ads_assign::assignment_chunks;
use forgeann::ads_leaf::{
    finalize_leaf_ads_ranges, leaf_scan_sizes, range_telemetry, seed_row, LeafAdSamplingChunk,
};
use forgeann::ads_scan::{AdsCounters, TileScan};
use forgeann::direct_io::AlignedSpan;
use forgeann::disk_sketch::DiskSketchStore;
use forgeann::env_config::{detailed_forgeann_profiling_enabled, worker_stack_bytes_for};
use forgeann::final_prune::{FinalPrune, PruneCandidate};
use forgeann::float_bits::{ratio_at_most, F32, F64};
use forgeann::gather::{WindowedGatherOptions, WindowedGatherStats};
use forgeann::graph_build::{
    build_forgeann_graph_with_store, build_threads_from, effective_build_threads, LeafInput,
    LeafNeighbors, StoreInput,
};
use forgeann::graph_stream::{finish_shard, GraphStream};
use forgeann::io_plan::IoPlanBudgetState;
use forgeann::io_runtime::{build_gather_plan, BoundedReadPlanner, ReadWindow};
use forgeann::lane_mask::{leaf_adsampling_active_mask, ADS_LEADER_BLOCK};
use forgeann::le_bytes::{push_u64, push_values};
use forgeann::leaf_build::{block_topk, LeafSketchCache, PendingEdge};
use forgeann::leaf_route::{process_leaf_parallel_large_block, ParallelBlockResult};
use forgeann::lune::{merge_block_witnesses, LuneMeasures};
use forgeann::oom_files::artifacts_to_remove;
use forgeann::params::ForgeANNParams;
use forgeann::resident_prefix::ResidentPrefixSketchAccessor;
use forgeann::resident_subset::{subset_bytes_with_capacities, ResidentSubsetSketchAccessor};
use forgeann::sketch::{SketchAccessor, SketchStore};
use forgeann::sketch_build::sketch_chunks;
use forgeann::sketch_file::{encode_sketch_file, SketchFile};
use forgeann::spill::{push_records, read_records, spill_shard, SPILL_RECORD_BYTES};
use forgeann::topk::Neighbor;
use forgeann::window_cache::{VectorWindowCache, VectorWindowKey};

fn bits(value: f32) -> F32 {
    F32 {
        bits: value.to_bits(),
    }
}

fn all_bits(values: &[f32]) -> Vec<F32> {
    values.iter().map(|value| bits(*value)).collect()
}

fn planner(row_bytes: usize, max_window_bytes: usize, amplification: f64) -> BoundedReadPlanner {
    BoundedReadPlanner {
        row_bytes,
        max_window_bytes,
        max_read_amplification: F64 {
            bits: amplification.to_bits(),
        },
    }
}

#[test]
fn large_rows_far_out_are_planned() {
    let plan = planner(0x100_0000, 0x100_0000, 1.5).plan(&[0x4000_0000]);
    assert_eq!(
        plan.windows,
        vec![ReadWindow {
            start_row: 0x4000_0000,
            row_count: 1
        }]
    );
    assert_eq!(plan.physical_bytes(), 0x100_0000);
    assert_eq!(plan.logical_bytes(), 0x100_0000);
}

#[test]
fn ids_at_both_ends_get_windows_of_their_own() {
    let plan = planner(64, 4096, 1.5).plan(&[u32::MAX, 0]);
    assert_eq!(
        plan.windows,
        vec![
            ReadWindow {
                start_row: 0,
                row_count: 1
            },
            ReadWindow {
                start_row: u32::MAX,
                row_count: 1
            },
        ]
    );
    assert_eq!(plan.scatter[0].original_pos, 1);
    assert_eq!(plan.scatter[1].original_pos, 0);
}

#[test]
fn windows_lie_apart_and_keep_their_amplification() {
    let ids = [9u32, 3, 3, 20, 4, 3, 11, 21];
    let plan = planner(8, 8 * 5, 1.5).plan(&ids);
    for pair in plan.windows.windows(2) {
        assert!(pair[0].start_row + pair[0].row_count <= pair[1].start_row);
    }
    for (at, window) in plan.windows.iter().enumerate() {
        let places = plan.scatter.iter().filter(|s| s.window_idx == at).count();
        assert!(window.row_count as f64 <= 1.5 * places as f64);
        assert!(window.row_count <= 5);
        assert!(ids.contains(&window.start_row));
        assert!(ids.contains(&(window.start_row + window.row_count - 1)));
    }
    let options = WindowedGatherOptions {
        max_gap_rows: 1,
        max_window_bytes: 8 * 5,
        alignment_bytes: 1,
        sort_ids: true,
    };
    let plan = build_gather_plan(&ids, 8, &options);
    for pair in plan.windows.windows(2) {
        assert!(pair[0].start_row + pair[0].row_count <= pair[1].start_row);
    }
    assert_eq!(plan.physical_rows(), 2 + 3 + 2);
}

#[test]
fn a_build_has_a_thread() {
    assert_eq!(build_threads_from(0, 7), 7);
    assert_eq!(build_threads_from(3, 7), 3);
    assert!(effective_build_threads(0) >= 1);
}

#[test]
fn a_repeated_id_reads_one_of_its_rows() {
    let data = [10.0, 11.0, 20.0, 21.0, 30.0, 31.0];
    let accessor =
        ResidentSubsetSketchAccessor::new(vec![5, 2, 5], 16, 2, all_bits(&data)).unwrap();
    let mut row = all_bits(&[0.0; 2]);
    accessor.row_copy_into(5, &mut row).unwrap();
    assert!(row == all_bits(&[10.0, 11.0]) || row == all_bits(&[30.0, 31.0]));
    let mut rows = all_bits(&[0.0; 6]);
    accessor.read_rows_into(&[5, 2, 5], &mut rows).unwrap();
    assert_eq!(rows, all_bits(&data));
}

#[test]
fn accessors_tell_their_memory() {
    let width = 4;
    let store = SketchStore::from_row_major(all_bits(&[1.0; 40]), width);
    assert!(store.resident_bytes() >= 160);
    assert_eq!(store.resident_bytes(), store.estimate_bytes());
    let bytes = DiskSketchStore::write_from_memory(&store);
    let disk = DiskSketchStore::open(&bytes).unwrap();
    assert_eq!(disk.resident_bytes(), std::mem::size_of::<DiskSketchStore>());
    let prefix = ResidentPrefixSketchAccessor::from_disk_prefix(&disk, 10).unwrap();
    assert!(prefix.resident_bytes() >= 160 + disk.resident_bytes() / 8);
    let subset = ResidentSubsetSketchAccessor::new(vec![3, 1], 9, 1, all_bits(&[3.0, 1.0]));
    let least = subset_bytes_with_capacities(2, 2, 2, 2);
    assert!(subset.unwrap().resident_bytes() >= least);
    assert_eq!(
        least,
        std::mem::size_of::<ResidentSubsetSketchAccessor>() + 8 + 8 + 2 * 8 + 8
    );
}

#[test]
fn any_prefix_and_window_reads_the_same_rows() {
    let values: Vec<f32> = (0..60).map(|i| i as f32).collect();
    let store = SketchStore::from_row_major(all_bits(&values), 3);
    let bytes = DiskSketchStore::write_from_memory(&store);
    let disk = DiskSketchStore::open(&bytes).unwrap();
    let ids = [19u32, 0, 7, 7, 3, 12];
    let mut expected = Vec::new();
    for id in ids {
        expected.extend(disk.row(id as usize).unwrap());
    }
    for prefix_rows in [0, 1, 8, 20] {
        let accessor = ResidentPrefixSketchAccessor::from_disk_prefix(&disk, prefix_rows).unwrap();
        for max_window_bytes in [0, 24, usize::MAX] {
            let options = WindowedGatherOptions {
                max_gap_rows: 2,
                max_window_bytes,
                alignment_bytes: 1,
                sort_ids: true,
            };
            let mut stats = WindowedGatherStats::default();
            let mut out = all_bits(&[0.0; 18]);
            accessor
                .read_rows_windowed_into_stats(&ids, &mut out, &options, &mut stats)
                .unwrap();
            assert_eq!(out, expected);
            assert_eq!(stats.rows_requested, 6);
            assert_eq!(stats.logical_bytes, 72);
        }
    }
}

#[test]
fn reservations_never_exceed_the_budget() {
    let mut state = IoPlanBudgetState::new(100);
    let mut held = Vec::new();
    for bytes in [60u64, 50, 40, 1, 0, u64::MAX] {
        if state.try_reserve_temp(bytes) {
            held.push(bytes);
        }
        assert_eq!(held.iter().sum::<u64>(), state.temp_reserved());
        assert!(state.temp_reserved() <= 100);
    }
    assert_eq!(held, vec![60, 40, 0]);
    state.release_temp(60);
    assert!(state.try_reserve_temp(50));
    assert_eq!(state.temp_reserved(), 90);
}

#[test]
fn points_are_cut_into_chunks() {
    assert_eq!(assignment_chunks(10, 4), vec![(0, 4), (4, 4), (8, 2)]);
    assert_eq!(assignment_chunks(8, 4), vec![(0, 4), (4, 4)]);
    assert!(assignment_chunks(0, 4).is_empty());
}

#[test]
fn chunks_in_any_order_make_the_file() {
    let (rows, width) = (7usize, 3usize);
    let values: Vec<F32> = (0..rows * width).map(|i| bits(i as f32 * 0.5)).collect();
    let shape = SketchFile { rows, width };
    let mut file = Vec::new();
    push_u64(&mut file, rows as u64);
    push_u64(&mut file, width as u64);
    for (start, count) in sketch_chunks(rows, 2).into_iter().rev() {
        let mut bytes = Vec::new();
        push_values(&mut bytes, &values[start * width..(start + count) * width]);
        let (offset, len) = shape.range_bytes(start, count);
        assert_eq!(len, bytes.len());
        if file.len() < offset + len {
            file.resize(offset + len, 0);
        }
        file[offset..offset + len].copy_from_slice(&bytes);
    }
    assert_eq!(file, encode_sketch_file(rows, width, &values).unwrap());
}

fn direct_write(file: &mut Vec<u8>, offset: u64, bytes: &[u8], alignment: usize) {
    let span = AlignedSpan::around(offset, bytes.len(), alignment);
    let at = span.offset as usize;
    let mut block: Vec<u8> = (at..at + span.len)
        .map(|i| file.get(i).copied().unwrap_or(0))
        .collect();
    span.splice(&mut block, bytes);
    if file.len() < at + span.len {
        file.resize(at + span.len, 0);
    }
    file[at..at + span.len].copy_from_slice(&block);
}

#[test]
fn a_later_write_leaves_an_earlier_one_alone() {
    let mut file = Vec::new();
    let first: Vec<u8> = (0..100).map(|i| i as u8).collect();
    direct_write(&mut file, 8, &first, 64);
    direct_write(&mut file, 108, &[7; 9], 64);
    direct_write(&mut file, 0, &[9; 8], 64);
    let span = AlignedSpan::around(8, first.len(), 64);
    let at = span.offset as usize;
    assert_eq!(span.extract(&file[at..at + span.len], first.len()), first);
}

#[test]
fn no_neighbour_is_kept_twice() {
    let pool: Vec<PruneCandidate> = (0..6)
        .map(|id| PruneCandidate {
            id,
            dist: bits(id as f32),
        })
        .collect();
    let levels = all_bits(&[1.0, 1.2, 1.44]);
    let mut prune = FinalPrune::new(&pool, 0, 10, 10, bits(1.5), levels);
    while let Some(i) = prune.select() {
        for j in i + 1..prune.candidate_count() {
            if prune.wants_shadow(j) {
                prune.throw_shadow(j, bits(1.1));
            }
        }
    }
    prune.saturate(true);
    let mut edges = prune.into_edges();
    edges.sort_unstable();
    assert_eq!(edges, vec![1, 2, 3, 4, 5]);
}

#[test]
fn a_sampled_row_is_full_whatever_is_dropped() {
    for (rows, k, expected) in [(100usize, 5usize, 5usize), (4, 5, 3), (2, 5, 1)] {
        let (k, seeds) = leaf_scan_sizes(rows, k, k.max(8));
        let mut scan = TileScan::new(1, k);
        for offset in 1..=seeds {
            scan.seed(0, bits(offset as f32), seed_row(1, offset, rows));
        }
        for start in (0..rows).step_by(ADS_LEADER_BLOCK) {
            let len = (rows - start).min(ADS_LEADER_BLOCK);
            let mask = leaf_adsampling_active_mask(1, start, len, rows, seeds);
            if scan.begin_block(&[mask]) {
                let distances = all_bits(&[2.5; ADS_LEADER_BLOCK]);
                let limit = scan.threshold(0);
                scan.prune(0, &distances, limit);
                scan.commit(0, start, &distances);
            }
        }
        assert_eq!(scan.entries(0).len(), expected);
    }
}

#[test]
fn a_window_under_its_key_is_replaced() {
    let key = VectorWindowKey {
        start_pid: 1,
        row_count: 2,
    };
    let mut cache = VectorWindowCache::new(16);
    cache.insert(key, all_bits(&[1.0, 2.0, 3.0]));
    cache.insert(key, all_bits(&[4.0; 5]));
    assert_eq!(cache.get(&key), Some(all_bits(&[1.0, 2.0, 3.0])));
    cache.insert(key, all_bits(&[4.0; 4]));
    assert_eq!(cache.get(&key), Some(all_bits(&[4.0; 4])));
    assert_eq!(cache.used_bytes(), 16);
    assert_eq!(cache.stats().evictions, 0);
}

#[test]
fn a_builds_own_files_are_removed_unless_kept() {
    let names: Vec<String> = [
        "sketches.bin",
        "notes.txt",
        "candidate_shard00001_part000.log",
        "candidate_segments.manifest",
        "candidate.run",
    ]
    .iter()
    .map(|name| name.to_string())
    .collect();
    assert_eq!(artifacts_to_remove(false, &names), vec![0, 2, 3, 4]);
    assert!(artifacts_to_remove(true, &names).is_empty());
}

#[test]
fn blocks_bring_their_witnesses() {
    // Points 0, 1 and 2 on a line at 0, 1 and 1.5: from 0, point 1 stands before point 2.
    let places = [0.0f32, 1.0, 1.5];
    let square = |a: usize, b: usize| (places[a] - places[b]) * (places[a] - places[b]);
    let leaf = [10u32, 11, 12];
    let cache = LeafSketchCache {
        data: all_bits(&[0.0; 3]),
        width: 1,
    };
    let mut params = ForgeANNParams::default();
    params.m_hash_bits = 1;
    let mut blocks: Vec<ParallelBlockResult> = Vec::new();
    for start in [2usize, 0] {
        let end = (start + 2).min(3);
        let dists: Vec<F32> = (start..end)
            .flat_map(|i| (0..3).map(move |j| (i, j)))
            .map(|(i, j)| bits(square(i, j)))
            .collect();
        let mut block =
            process_leaf_parallel_large_block(&dists, &cache, &leaf, &params, start, 2, 2);
        let rows = block_topk(&dists, start, end - start, 3, 2);
        assert_eq!(block.rows.len(), rows.len());
        let measures: Vec<LuneMeasures> = block
            .rows
            .iter()
            .map(|row| {
                let row = row.as_slice();
                let thresholds: Vec<f32> = row
                    .iter()
                    .map(|n| f32::from_bits(n.dist.bits) / 1.2)
                    .collect();
                let between: Vec<f32> = row
                    .iter()
                    .flat_map(|a| row.iter().map(move |b| (a.index, b.index)))
                    .map(|(a, b)| square(a, b))
                    .collect();
                LuneMeasures {
                    thresholds: all_bits(&thresholds),
                    margins: vec![3; between.len()],
                    between: all_bits(&between),
                }
            })
            .collect();
        block.add_witnesses(&leaf, &measures);
        assert_eq!(
            block.profile.lune_witness_records,
            block.lune_witnesses.len()
        );
        blocks.push(block);
    }
    let found: Vec<(u32, u32, u32)> = merge_block_witnesses(&blocks)
        .iter()
        .map(|w| (w.src, w.pivot, w.victim))
        .collect();
    assert_eq!(found, vec![(10, 11, 12), (12, 11, 10)]);
}

#[test]
fn rows_beyond_exact_doubles_are_planned_in_blocks() {
    let row_bytes = 1usize << 33;
    let planner = planner(row_bytes, 1 << 34, 1.5);
    let ids = [0x4000_0001u32, 0x4000_0000, 0x4000_0000];
    let plan = planner.plan_with_aligned_read_cost(&ids, 4096, 0);
    assert_eq!(
        plan.windows,
        vec![ReadWindow {
            start_row: 0x4000_0000,
            row_count: 2
        }]
    );
    assert_eq!(plan.physical_bytes(), 1 << 34);
    // The last row whose blocks end within the machine's offsets.
    let last = (u64::MAX / row_bytes as u64 - 1) as u32;
    let plan = planner.plan_with_aligned_read_cost(&[last], 4096, 0);
    assert_eq!(plan.physical_bytes(), row_bytes as u64);
}

#[test]
fn ratios_of_large_numbers_round_as_doubles_do() {
    let numbers = [
        1u64,
        3,
        (1 << 53) - 1,
        1 << 53,
        (1 << 53) + 1,
        (1 << 53) + 3,
        (1 << 60) + 129,
        (1 << 63) + 1024,
        (1 << 63) + 3072,
        u64::MAX,
    ];
    for numerator in numbers {
        for denominator in numbers {
            for bound in [1.0, 1.0 + f64::EPSILON, 1.5, 1e3, 1e17, 1e300] {
                assert_eq!(
                    ratio_at_most(
                        numerator,
                        denominator,
                        F64 {
                            bits: f64::to_bits(bound)
                        }
                    ),
                    numerator as f64 / denominator as f64 <= bound,
                    "{numerator} / {denominator} <= {bound}"
                );
            }
        }
    }
}

#[test]
fn white_space_of_any_kind_is_trimmed() {
    assert!(detailed_forgeann_profiling_enabled(Some("\u{a0}\u{2009}Yes\u{3000}\n")));
    assert!(!detailed_forgeann_profiling_enabled(Some("\u{200b}yes")));
    assert_eq!(
        worker_stack_bytes_for(Some("\u{2028}24\u{205f}")),
        worker_stack_bytes_for(Some("24"))
    );
}

#[test]
fn repeated_candidates_are_kept_once() {
    let candidate = |id: u32, dist: f32| PruneCandidate {
        id,
        dist: bits(dist),
    };
    // Places on a line; the point is at 0.
    let place = |id: u32| id as f32;
    let pool = vec![
        candidate(3, 9.0),
        candidate(1, 1.0),
        candidate(3, 9.0),
        candidate(1, 1.0),
        candidate(2, 4.0),
        candidate(1, 1.5),
    ];
    for degree in [1usize, 2, 3, 10] {
        for saturate in [false, true] {
            let levels = all_bits(&[1.0, 1.2]);
            let mut prune = FinalPrune::new(&pool, 0, degree, 10, bits(1.3), levels);
            while let Some(i) = prune.select() {
                let kept = prune.candidate(i);
                let thrown: Vec<F32> = (0..prune.candidate_count())
                    .map(|j| {
                        let later = prune.candidate(j);
                        let gap = place(later.id) - place(kept.id);
                        bits(if gap == 0.0 {
                            f32::MAX
                        } else {
                            f32::from_bits(later.dist.bits) / (gap * gap)
                        })
                    })
                    .collect();
                prune.throw_shadows(i, &thrown);
            }
            prune.saturate(saturate);
            let edges = prune.into_edges();
            let mut unique = edges.clone();
            unique.sort_unstable();
            unique.dedup();
            assert_eq!(unique.len(), edges.len());
            if saturate {
                assert_eq!(edges.len(), degree.min(3));
            }
        }
    }
}

#[test]
fn a_row_with_few_seeds_is_full_where_nothing_is_dropped_too_early() {
    for (rows, k, seeds) in [(100usize, 5usize, 0usize), (100, 5, 2), (4, 5, 1), (70, 9, 3)] {
        let mut scan = TileScan::new(1, k);
        for offset in 1..=seeds {
            scan.seed(0, bits(offset as f32), seed_row(0, offset, rows));
        }
        for start in (0..rows).step_by(ADS_LEADER_BLOCK) {
            let len = (rows - start).min(ADS_LEADER_BLOCK);
            let mask = leaf_adsampling_active_mask(0, start, len, rows, seeds);
            if scan.begin_block(&[mask]) {
                let distances = all_bits(&[2.5; ADS_LEADER_BLOCK]);
                scan.prune(0, &distances, scan.threshold(0));
                scan.commit(0, start, &distances);
            }
        }
        assert_eq!(scan.entries(0).len(), k.min(rows - 1));
    }
}

#[test]
fn ranges_of_a_leaf_are_joined_as_they_stand() {
    let mut counters = AdsCounters::new();
    counters.full_evals = 4;
    let part = |start: usize, end: usize| LeafAdSamplingChunk {
        row_start: start,
        row_end: end,
        row_topk: (start..end)
            .map(|row| {
                vec![Neighbor {
                    index: row + 1,
                    dist: bits(1.0),
                }]
            })
            .collect(),
        telemetry: range_telemetry(2, 3, &counters),
    };
    let result = finalize_leaf_ads_ranges(&vec![part(0, 2), part(2, 3)], 7);
    let first: Vec<usize> = result.row_topk.iter().map(|row| row[0].index).collect();
    assert_eq!(first, vec![1, 2, 3]);
    assert_eq!(result.telemetry.full_evals, 8);
    assert_eq!((result.telemetry.layout, result.telemetry.seed), (7, 4));
    assert!(!result.telemetry.tiled);
    assert_eq!(result.telemetry.tile_count, 0);
}

#[test]
fn spilled_candidates_are_read_back() {
    let edges = [
        PendingEdge {
            p: 0x1_2345_6789,
            c: u32::MAX,
            hash: 0xabcd,
            dist: bits(-1.5),
            mandatory: true,
            local_rank: 255,
            flags: 2,
        },
        PendingEdge {
            p: 0,
            c: 7,
            hash: 0,
            dist: bits(0.0),
            mandatory: false,
            local_rank: 1,
            flags: 1,
        },
    ];
    let mut bytes = Vec::new();
    push_records(&mut bytes, &edges);
    assert_eq!(bytes.len(), 2 * SPILL_RECORD_BYTES);
    assert_eq!(bytes[..8], [0x89, 0x67, 0x45, 0x23, 1, 0, 0, 0]);
    assert_eq!(read_records(&bytes), edges);
    assert!(read_records(&[]).is_empty());
}

#[test]
fn a_graph_built_leaf_by_leaf_is_the_graph_of_all_leaves() {
    let num_points = 30usize;
    let mut params = ForgeANNParams::default();
    params.m_hash_bits = 2;
    params.leaf_knn = 3;
    params.l_max = 4;
    let leaf = |ids: Vec<u32>| {
        let n = ids.len();
        let dists: Vec<F32> = (0..n * n)
            .map(|at| {
                let gap = ids[at / n] as f32 - ids[at % n] as f32;
                bits(gap * gap)
            })
            .collect();
        let data = ids.iter().flat_map(|&id| [id as f32, -(id as f32)]);
        LeafInput {
            sketches: LeafSketchCache {
                data: data.map(bits).collect(),
                width: 2,
            },
            found: LeafNeighbors::Matrix(dists),
            ids,
        }
    };
    let leaves = || {
        vec![
            leaf((0..12).collect()),
            leaf((8..22).collect()),
            leaf((20..30).collect()),
        ]
    };
    let input = StoreInput {
        dim: 1,
        leaves: leaves(),
        sketch_bytes: 0,
        sketch_file_bytes: 0,
        start_samples: Vec::new(),
        recorder: false,
    };
    let (_, expected) = build_forgeann_graph_with_store(&input, num_points, 1, &params);
    for (resident, shard_points) in [(0usize, 7usize), (10, 4), (30, 5), (29, 100)] {
        let mut stream = GraphStream::new(num_points, resident, params.l_max);
        let shards = (num_points - resident).div_ceil(shard_points);
        let mut files: Vec<Vec<u8>> = vec![Vec::new(); shards];
        for leaf in &leaves() {
            for edge in stream.add_leaf(leaf, &params) {
                let shard = spill_shard(edge.p, resident, shard_points);
                push_records(&mut files[shard], &[edge]);
            }
        }
        let mut graph = stream.finish();
        for (shard, bytes) in files.iter().enumerate() {
            let first = resident + shard * shard_points;
            let last = num_points.min(first + shard_points);
            graph.extend(finish_shard(&read_records(bytes), first, last, params.l_max));
        }
        assert_eq!(graph, expected);
    }
}
