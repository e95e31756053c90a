use forgeann::float_bits::{quotient_at_most, F32, F64, F64_ONE, F64_ONE_AND_HALF};
use forgeann::gather::{WindowedGatherOptions, WindowedGatherStats};
use forgeann::graph_build::{drain_reservoirs, new_reservoirs, reads_rotation_sidecar};
use forgeann::hash_prune::{HashPruneReservoir, Slot};
use forgeann::io_runtime::{
    aligned_blocks_for_row, aligned_read_bytes_for_rows, build_gather_plan, BoundedReadPlanner,
    ReadWindow, RowLayout,
};
use forgeann::lane_mask::{
    clear_block_mask_range, has_lane, lane_count, seeded_block_mask, with_lane, without_lane,
};
use forgeann::lune::{lune_witnesses, PendingLuneWitness};
use forgeann::order::stable_order;
use forgeann::params::ForgeANNParams;
use forgeann::rows::{copy_values, values_between, zeros};
use forgeann::sketch::{SketchAccessor, SketchStore};
use forgeann::text::{number_text, with_number, with_numbers};
use forgeann::topk::Neighbor;
use forgeann::window_cache::{VectorWindowCache, VectorWindowCacheStats, VectorWindowKey};

fn bits(value: f32) -> F32 {
    F32 {
        bits: value.to_bits(),
    }
}

fn ratio(value: f64) -> F64 {
    F64 {
        bits: value.to_bits(),
    }
}

fn window(start_row: u32, row_count: u32) -> ReadWindow {
    ReadWindow {
        start_row,
        row_count,
    }
}

#[test]
fn reads_stay_within_their_amplification() {
    let planner = BoundedReadPlanner {
        row_bytes: 4,
        max_window_bytes: 64,
        max_read_amplification: ratio(1.5),
    };
    let plan = planner.plan(&[12, 4, 5, 7, 30]);
    assert_eq!(plan.windows, vec![window(4, 4), window(12, 1), window(30, 1)]);
    assert_eq!(plan.requested_rows(), 5);
    assert_eq!(plan.physical_rows(), 6);
    assert_eq!(plan.logical_bytes(), 20);
    assert_eq!(plan.physical_bytes(), 24);
    let places: Vec<(usize, u32, usize)> = plan
        .scatter
        .iter()
        .map(|place| {
            (
                place.window_idx,
                place.row_offset_in_window,
                place.original_pos,
            )
        })
        .collect();
    assert_eq!(
        places,
        vec![(0, 0, 1), (0, 1, 2), (0, 3, 3), (1, 0, 0), (2, 0, 4)]
    );
}

#[test]
fn a_useless_amplification_counts_as_one_and_a_half() {
    let mut planner = BoundedReadPlanner {
        row_bytes: 4,
        max_window_bytes: 64,
        max_read_amplification: ratio(f64::NAN),
    };
    assert_eq!(planner.plan(&[0, 1, 3]).windows, vec![window(0, 4)]);
    planner.max_read_amplification = ratio(0.5);
    assert_eq!(planner.plan(&[0, 1, 3]).windows, vec![window(0, 4)]);
    planner.max_read_amplification = ratio(1.0);
    assert_eq!(
        planner.plan(&[0, 1, 3]).windows,
        vec![window(0, 2), window(3, 1)]
    );
    planner.max_window_bytes = 0;
    assert_eq!(planner.plan(&[0, 1]).windows.len(), 2);
}

#[test]
fn equal_ids_share_a_row() {
    let planner = BoundedReadPlanner {
        row_bytes: 0,
        max_window_bytes: 8,
        max_read_amplification: ratio(1.0),
    };
    let plan = planner.plan(&[7, 7, 7]);
    assert_eq!(plan.windows, vec![window(7, 1)]);
    assert_eq!(plan.scatter.len(), 3);
    assert_eq!(plan.physical_bytes(), 1);
    assert!(planner.plan(&[]).windows.is_empty());
}

#[test]
fn aligned_reads_are_charged_by_the_block() {
    let layout = RowLayout {
        row_bytes: 24,
        alignment: 512,
        header_bytes: 16,
    };
    let blocks = aligned_blocks_for_row(20, &layout);
    assert_eq!((blocks.start, blocks.end), (0, 2));
    assert_eq!(aligned_read_bytes_for_rows(0, 3, &layout), 512);
    assert_eq!(aligned_read_bytes_for_rows(0, 20, &layout), 1024);

    let planner = BoundedReadPlanner {
        row_bytes: 24,
        max_window_bytes: 512,
        max_read_amplification: ratio(1.5),
    };
    let plan = planner.plan_with_aligned_read_cost(&[3, 0, 60], 512, 16);
    assert_eq!(plan.windows, vec![window(0, 4), window(60, 1)]);
    assert_eq!(plan.physical_bytes(), 1024);
}

#[test]
fn gaps_are_bridged_up_to_their_limit() {
    let options = WindowedGatherOptions {
        max_gap_rows: 1,
        max_window_bytes: 16,
        alignment_bytes: 4096,
        sort_ids: true,
    };
    let plan = build_gather_plan(&[8, 0, 2, 5], 4, &options);
    assert_eq!(plan.windows, vec![window(0, 3), window(5, 1), window(8, 1)]);
    let plan = build_gather_plan(&[0, 2, 4], 4, &options);
    assert_eq!(plan.windows, vec![window(0, 3), window(4, 1)]);
}

#[test]
fn rows_in_memory_are_read_in_windows_too() {
    let values: Vec<F32> = (0..24).map(|i| bits(i as f32)).collect();
    let store = SketchStore::from_row_major(values.clone(), 2);
    let options = WindowedGatherOptions {
        max_gap_rows: 1,
        max_window_bytes: 4096,
        alignment_bytes: 4096,
        sort_ids: true,
    };
    let ids = [9_u32, 1, 3];
    let mut out = vec![bits(-1.0); 8];
    let mut stats = WindowedGatherStats::default();
    store
        .read_rows_windowed_into_stats(&ids, &mut out, &options, &mut stats)
        .unwrap();
    for (row, &id) in ids.iter().enumerate() {
        let at = id as usize * 2;
        assert_eq!(&out[row * 2..row * 2 + 2], &values[at..at + 2]);
    }
    assert_eq!(&out[6..], &[bits(-1.0), bits(-1.0)]);
    assert_eq!(stats.windows_submitted, 2);
    assert_eq!(stats.overread_rows, 1);
    assert_eq!(stats.physical_bytes, 32);

    let mut stats = WindowedGatherStats::default();
    store
        .read_rows_bounded_into_stats(&ids, &mut out, 0, ratio(9.0), &mut stats)
        .unwrap();
    assert_eq!(stats.windows_submitted, 3);
    assert_eq!(stats.singleton_windows, 3);
    assert_eq!(stats.overread_rows, 0);
    let before = stats.rows_requested;
    store
        .read_rows_windowed_into_stats(&[], &mut out, &options, &mut stats)
        .unwrap();
    assert_eq!(stats.rows_requested, before);

    stats.keep_resident_prefix_logical_stats_only();
    assert_eq!(stats.windows_submitted, 0);
    assert_eq!(stats.physical_bytes, 0);
    assert_eq!(stats.logical_bytes, 24);
    assert_eq!(
        SketchStore::bytes_with_capacity(10),
        std::mem::size_of::<SketchStore>() + 40
    );
    assert_eq!(store.rows(), 12);
}

#[test]
fn the_least_recently_used_window_goes_first() {
    let key = |start_pid: u32| VectorWindowKey {
        start_pid,
        row_count: 1,
    };
    let mut cache = VectorWindowCache::new(16);
    cache.insert(key(1), vec![bits(1.0); 2]);
    cache.insert(key(2), vec![bits(2.0); 2]);
    assert_eq!(cache.used_bytes(), 16);
    assert_eq!(cache.get(&key(1)), Some(vec![bits(1.0); 2]));
    cache.insert(key(3), vec![bits(3.0); 1]);
    assert_eq!(cache.get(&key(2)), None);
    assert_eq!(cache.get(&key(1)), Some(vec![bits(1.0); 2]));
    assert_eq!(cache.get(&key(3)), Some(vec![bits(3.0); 1]));
    cache.insert(key(4), vec![bits(4.0); 5]);
    cache.insert(key(5), Vec::new());
    assert_eq!(cache.get(&key(4)), None);
    assert_eq!(cache.get(&key(5)), None);
    let stats = cache.stats();
    assert_eq!(stats.hits, 3);
    assert_eq!(stats.misses, 3);
    assert_eq!(stats.inserts, 3);
    assert_eq!(stats.evictions, 1);
    assert_eq!(stats.bytes_inserted, 20);
    assert_eq!(stats.bytes_evicted, 8);
    assert_eq!(stats.used_peak_bytes, 20);
    assert_eq!(stats.saved_direct_read_calls, 3);
}

#[test]
fn cache_statistics_add_up_whatever_the_order() {
    let a = VectorWindowCacheStats {
        hits: 3,
        used_peak_bytes: 7,
        ..VectorWindowCacheStats::default()
    };
    let b = VectorWindowCacheStats {
        hits: 4,
        misses: 1,
        used_peak_bytes: 5,
        ..VectorWindowCacheStats::default()
    };
    let mut ab = VectorWindowCacheStats::default();
    ab.merge(&a);
    ab.merge(&b);
    let mut ba = VectorWindowCacheStats::default();
    ba.merge(&b);
    ba.merge(&a);
    assert_eq!((ab.hits, ab.misses, ab.used_peak_bytes), (7, 1, 7));
    assert_eq!((ba.hits, ba.misses, ba.used_peak_bytes), (7, 1, 7));
}

#[test]
fn equal_keys_keep_their_order() {
    assert_eq!(stable_order(&vec![3, 1, 3, 0, 1]), vec![3, 1, 4, 0, 2]);
    assert!(stable_order(&Vec::new()).is_empty());
}

#[test]
fn quotients_round_as_doubles_do() {
    let above_one = F64 { bits: F64_ONE + 1 };
    for (numerator, denominator) in [(3_u64, 2_u64), (4, 3), (10, 7), (1, 3), (5, 5)] {
        for bound in [
            F64 { bits: F64_ONE },
            F64 {
                bits: F64_ONE_AND_HALF,
            },
            above_one,
            ratio(4.0 / 3.0),
            ratio(10.0 / 7.0),
        ] {
            assert_eq!(
                quotient_at_most(numerator, denominator, bound),
                numerator as f64 / denominator as f64 <= f64::from_bits(bound.bits)
            );
        }
    }
    let large: u64 = (1 << 53) - 1;
    assert!(quotient_at_most(large, large - 1, above_one));
    assert!(bits(f32::NAN).is_nan());
    assert!(!bits(f32::INFINITY).is_finite());
    assert!(bits(-0.0).le(bits(0.0)) && bits(0.0).le(bits(-0.0)));
    assert!(bits(-2.0).lt(bits(1.0)));
    assert!(!bits(f32::NAN).lt(bits(1.0)) && !bits(1.0).le(bits(f32::NAN)));
    assert!(ratio(-2.0).rank_value() < ratio(-1.0).rank_value());
}

#[test]
fn masks_hold_one_lane_for_each_candidate() {
    let mask = with_lane(with_lane(0, 3), 63);
    assert_eq!(mask, 8 | 1 << 63);
    assert!(has_lane(mask, 63));
    assert_eq!(lane_count(mask), 2);
    assert_eq!(without_lane(mask, 63), 8);
    let mut lanes = u64::MAX;
    clear_block_mask_range(&mut lanes, 64, 128, 60, 66);
    assert_eq!(lanes, !3);
    assert_eq!(
        seeded_block_mask(&[true, false, true, true], 1, 8),
        0b110
    );
}

#[test]
fn nearer_neighbours_are_witnesses() {
    let row = [
        Neighbor {
            index: 1,
            dist: bits(1.0),
        },
        Neighbor {
            index: 2,
            dist: bits(2.0),
        },
        Neighbor {
            index: 0,
            dist: bits(3.0),
        },
    ];
    let thresholds = [bits(0.5), bits(1.5), bits(2.5)];
    let between = [
        bits(0.0),
        bits(1.0),
        bits(4.0),
        bits(1.0),
        bits(0.0),
        bits(2.0),
        bits(4.0),
        bits(2.0),
        bits(0.0),
    ];
    let margins = [0, 11, 12, 13, 0, 15, 16, 17, 0];
    assert_eq!(
        lune_witnesses(7, &[10, 20, 30], &row, &thresholds, &between, &margins),
        vec![
            PendingLuneWitness {
                src: 7,
                pivot: 20,
                victim: 30,
                margin_q16: 11,
                pivot_rank: 1,
                victim_rank: 2,
            },
            PendingLuneWitness {
                src: 7,
                pivot: 30,
                victim: 10,
                margin_q16: 15,
                pivot_rank: 2,
                victim_rank: 3,
            },
        ]
    );
}

#[test]
fn reservoirs_hand_their_neighbours_over() {
    let mut reservoirs = new_reservoirs(2, 4);
    reservoirs[1].insert(9, 3, bits(1.0));
    reservoirs[1].insert(8, 1, bits(2.0));
    assert_eq!(drain_reservoirs(&mut reservoirs), vec![vec![], vec![8, 9]]);
    let mut reservoir = HashPruneReservoir::new(4);
    reservoir.insert(9, 3, bits(1.0));
    assert_eq!(reservoir.drain_slots(), vec![Slot::new(9, 3, bits(1.0))]);
    assert!(reservoir.slots().is_empty());
    reservoir.insert(5, 2, bits(0.5));
    assert_eq!(reservoir.into_slots(), vec![Slot::new(5, 2, bits(0.5))]);
    let mut params = ForgeANNParams::default();
    params.root_adsampling_enable = true;
    assert!(reads_rotation_sidecar(&params, true));
    assert!(!reads_rotation_sidecar(&params, false));
}

#[test]
fn numbers_become_text() {
    assert_eq!(number_text(0), "0");
    assert_eq!(number_text(u64::MAX), u64::MAX.to_string());
    assert_eq!(with_number("a ", 7, " b"), "a 7 b");
    assert_eq!(with_numbers("a ", 7, " b ", 10, "!"), "a 7 b 10!");
}

#[test]
fn values_are_copied_by_position() {
    let src = [bits(1.0), bits(2.0), bits(3.0)];
    let mut dst = zeros(4);
    copy_values(&src, 1, &mut dst, 2, 2);
    assert_eq!(dst, vec![bits(0.0), bits(0.0), bits(2.0), bits(3.0)]);
    assert_eq!(values_between(&src, 1, 3), vec![bits(2.0), bits(3.0)]);
}
