use forgeann::ann_result::AnnError;
use forgeann::float_bits::F32;
use forgeann::gather::{WindowedGatherOptions, WindowedGatherStats};
use forgeann::hash_prune::{BFloat16, HashPruneReservoir, Slot};
use forgeann::resident_subset::{
    is_nondecreasing_u32, is_strictly_increasing_u32, ResidentSubsetSketchAccessor,
};
use forgeann::sketch::{compute_hash, SketchAccessor, SketchStore};

fn bits(value: f32) -> F32 {
    F32 {
        bits: value.to_bits(),
    }
}

fn all_bits(values: &[f32]) -> Vec<F32> {
    values.iter().map(|value| bits(*value)).collect()
}

fn values(bits: &[F32]) -> Vec<f32> {
    bits.iter().map(|value| f32::from_bits(value.bits)).collect()
}

fn targets(reservoir: &HashPruneReservoir) -> Vec<u32> {
    reservoir.slots().iter().map(|slot| slot.target).collect()
}

#[test]
fn reservoir_keeps_hash_collisions_until_capacity() {
    let mut reservoir = HashPruneReservoir::new(4);

    reservoir.insert(10, 7, bits(10.0));
    reservoir.insert(11, 7, bits(9.0));
    reservoir.insert(12, 7, bits(8.0));

    assert_eq!(targets(&reservoir), vec![10, 11, 12]);
    assert_eq!(reservoir.slots().len(), 3);

    reservoir.insert(13, 7, bits(7.0));
    assert_eq!(targets(&reservoir), vec![10, 11, 12, 13]);

    reservoir.insert(14, 7, bits(6.0));
    let kept = targets(&reservoir);
    assert_eq!(kept.len(), 4);
    assert!(kept.contains(&14));
    assert!(!kept.contains(&10));
}

#[test]
fn reservoir_deduplicates_same_target_without_growing_degree() {
    let mut reservoir = HashPruneReservoir::new(4);

    reservoir.insert(10, 7, bits(10.0));
    reservoir.insert(10, 7, bits(8.0));

    assert_eq!(targets(&reservoir), vec![10]);
    assert_eq!(reservoir.slots().len(), 1);
    assert_eq!(reservoir.slots()[0].dist.to_f32(), bits(8.0));
}

#[test]
fn full_reservoir_without_hash_collision_replaces_global_farthest() {
    let mut reservoir = HashPruneReservoir::new(3);

    reservoir.insert(10, 1, bits(10.0));
    reservoir.insert(11, 2, bits(9.0));
    reservoir.insert(12, 3, bits(8.0));
    reservoir.insert(13, 4, bits(7.0));

    let kept = targets(&reservoir);
    assert_eq!(kept.len(), 3);
    assert!(kept.contains(&13));
    assert!(!kept.contains(&10));
}

#[test]
fn full_reservoir_turns_a_farther_candidate_down() {
    let mut reservoir = HashPruneReservoir::new(2);
    reservoir.insert(1, 1, bits(1.0));
    reservoir.insert(2, 2, bits(2.0));
    reservoir.insert(3, 3, bits(3.0));
    assert_eq!(targets(&reservoir), vec![1, 2]);
    assert_eq!(reservoir.capacity_hint(), 2);
}

#[test]
fn offering_a_candidate_twice_changes_nothing() {
    let mut reservoir = HashPruneReservoir::new(3);
    reservoir.insert(1, 5, bits(1.5));
    reservoir.insert(2, 4, bits(2.5));
    let before: Vec<Slot> = reservoir.slots().to_vec();
    reservoir.insert(2, 4, bits(2.5));
    assert_eq!(reservoir.slots(), before.as_slice());
}

#[test]
fn slots_stay_sorted_by_hash() {
    let mut reservoir = HashPruneReservoir::new(8);
    for (target, hash) in [(1u32, 9u16), (2, 3), (3, 7), (4, 3), (5, 0)] {
        reservoir.insert(target, hash, bits(target as f32));
    }
    let hashes: Vec<u16> = reservoir.slots().iter().map(|slot| slot.hash).collect();
    assert_eq!(hashes, vec![0, 3, 3, 7, 9]);
    assert_eq!(reservoir.drain_neighbors(), vec![5, 2, 4, 3, 1]);
    assert!(reservoir.slots().is_empty());
    reservoir.insert(6, 1, bits(1.0));
    reservoir.clear();
    assert!(reservoir.into_neighbors().is_empty());
}

#[test]
fn brain_floats_keep_the_upper_half() {
    let half = BFloat16::from_f32(bits(3.1415927));
    assert_eq!(half.0, 0x4049);
    assert_eq!(half.to_f32(), bits(3.140625));
    assert_eq!(BFloat16::from_f32(half.to_f32()), half);
}

#[test]
fn resident_subset_sketch_accessor_reads_by_global_id() {
    let accessor = ResidentSubsetSketchAccessor::new(
        vec![2, 5, 9],
        16,
        2,
        all_bits(&[20.0, 21.0, 50.0, 51.0, 90.0, 91.0]),
    )
    .unwrap();

    let mut row = all_bits(&[0.0; 2]);
    accessor.row_copy_into(5, &mut row).unwrap();
    assert_eq!(values(&row), vec![50.0, 51.0]);

    let mut rows = all_bits(&[0.0; 6]);
    accessor.read_rows_into(&[9, 2, 5], &mut rows).unwrap();
    assert_eq!(values(&rows), vec![90.0, 91.0, 20.0, 21.0, 50.0, 51.0]);

    let mut stats = WindowedGatherStats::default();
    let options = WindowedGatherOptions {
        max_gap_rows: 0,
        max_window_bytes: 0,
        alignment_bytes: 4096,
        sort_ids: true,
    };
    accessor
        .read_rows_windowed_into_stats(&[2, 9], &mut rows[..4], &options, &mut stats)
        .unwrap();
    assert_eq!(values(&rows[..4]), vec![20.0, 21.0, 90.0, 91.0]);
    assert_eq!(stats.rows_requested, 2);
    assert_eq!(stats.logical_bytes, 16);
    assert_eq!(stats.physical_bytes, 0);
}

#[test]
fn resident_subset_refuses_what_it_does_not_hold() {
    let accessor =
        ResidentSubsetSketchAccessor::new(vec![9, 2], 16, 1, all_bits(&[90.0, 20.0])).unwrap();
    let mut row = all_bits(&[0.0]);
    assert!(matches!(
        accessor.row_copy_into(3, &mut row),
        Err(AnnError::Index { .. })
    ));
    accessor.row_copy_into(9, &mut row).unwrap();
    assert_eq!(values(&row), vec![90.0]);
    assert!(ResidentSubsetSketchAccessor::new(vec![1], 16, 2, all_bits(&[1.0])).is_err());
    assert!(ResidentSubsetSketchAccessor::new(vec![1], 16, 0, Vec::new()).is_err());
    assert_eq!(accessor.width(), 1);
    assert_eq!(accessor.rows(), 16);
}

#[test]
fn id_orders_are_told_apart() {
    assert!(is_strictly_increasing_u32(&[1, 2, 9]));
    assert!(!is_strictly_increasing_u32(&[1, 1]));
    assert!(is_nondecreasing_u32(&[1, 1, 2]));
    assert!(!is_nondecreasing_u32(&[2, 1]));
    assert!(is_strictly_increasing_u32(&[]));
}

#[test]
fn hash_sets_a_bit_per_side_of_a_hyperplane() {
    let p = all_bits(&[0.0, 5.0, 1.0, -1.0]);
    let c = all_bits(&[1.0, 4.0, 1.0, 0.0]);
    // Bits where the neighbour's projection is not behind the point's own.
    assert_eq!(compute_hash(&p, &c, 4), 0b1101);
    assert_eq!(compute_hash(&p, &c, 2), 0b01);
    assert_eq!(compute_hash(&p, &c, 0), 0);
}

#[test]
fn sketch_store_hands_out_its_rows() {
    let store = SketchStore::from_row_major(all_bits(&[1.0, 2.0, 3.0, 4.0]), 2);
    assert_eq!(values(store.row(1)), vec![3.0, 4.0]);
    assert_eq!(store.width(), 2);
    assert_eq!(store.rows(), 2);
    assert_eq!(store.data().len(), 4);
    assert!(store.estimate_bytes() >= 16);
    let mut out = all_bits(&[0.0; 4]);
    store.read_rows_into(&[1, 0], &mut out).unwrap();
    assert_eq!(values(&out), vec![3.0, 4.0, 1.0, 2.0]);
}
