use rand::distr::{Distribution, Uniform};
use rand::rngs::StdRng;
use rand::SeedableRng;

use forgeann::direct_io::AlignedSpan;
use forgeann::disk_sketch::DiskSketchStore;
use forgeann::float_bits::{F32, F64};
use forgeann::gather::{WindowedGatherOptions, WindowedGatherStats};
use forgeann::le_bytes::{push_u32, push_u64, push_values, read_u32, read_u64, read_values};
use forgeann::params::ForgeANNParams;
use forgeann::resident_prefix::{
    check_resident_prefix, join_prefix_rows, scatter_subset_rows, split_prefix_ids,
    ResidentPrefixSketchAccessor,
};
use forgeann::sketch::{SketchAccessor, SketchStore};
use forgeann::sketch_build::{
    check_hyperplane_shape, is_start_sample, requested_sketch_threads, sampled_medoid_start,
    sketch_build_bytes_per_row, sketch_chunks, sketch_start_sample_stride, SketchBuildPlan,
    SketchStartSample, MIN_SKETCH_BUILD_CHUNK_ROWS,
};
use forgeann::sketch_file::{encode_sketch_file, SketchFile, HEADER_BYTES};
use forgeann::sketch_read::{
    bounded_sketch_scatter_ranges, consecutive_runs, next_uring_batch, plan_bounded_read,
    record_bounded_sketch_plan_stats, scatter_bounded_sketch_window,
    uses_window_queue, UringBatchProgress, UringReadError,
};

fn bits(value: f32) -> F32 {
    F32 {
        bits: value.to_bits(),
    }
}

fn ratio(value: f64) -> F64 {
    F64 {
        bits: value.to_bits(),
    }
}

fn dataset(rows: usize, dim: usize, row_step: f32, col_step: f32) -> Vec<f32> {
    let mut data = Vec::new();
    for row in 0..rows {
        for col in 0..dim {
            data.push(row as f32 * row_step + col as f32 * col_step);
        }
    }
    data
}

fn hyperplanes(dim: usize, width: usize, seed: u64) -> Vec<f32> {
    let mut rng = StdRng::seed_from_u64(seed ^ 0x5a5a_5a5a_1234_5678);
    let dist = Uniform::new(-1.0f32, 1.0f32).unwrap();
    (0..width * dim).map(|_| dist.sample(&mut rng)).collect()
}

fn sketch_row(point: &[f32], planes: &[f32], width: usize) -> Vec<F32> {
    let dim = point.len();
    assert!(check_hyperplane_shape(planes.len(), width, dim).is_ok());
    (0..width)
        .map(|k| {
            let plane = &planes[k * dim..(k + 1) * dim];
            bits(point.iter().zip(plane).map(|(a, b)| a * b).sum())
        })
        .collect()
}

fn compute_sketches(data: &[f32], dim: usize, params: &ForgeANNParams) -> SketchStore {
    let width = params.m_hash_bits;
    let planes = hyperplanes(dim, width, params.random_seed);
    let values = data
        .chunks_exact(dim)
        .flat_map(|point| sketch_row(point, &planes, width))
        .collect();
    SketchStore::from_row_major(values, width)
}

fn small_gaps() -> WindowedGatherOptions {
    WindowedGatherOptions {
        max_gap_rows: 1,
        max_window_bytes: 64 * 1024,
        alignment_bytes: 4096,
        sort_ids: true,
    }
}

/// The bytes of a sketch file that is built chunk by chunk.
fn build_in_chunks(data: &[f32], dim: usize, params: &ForgeANNParams, threads: usize) -> Vec<u8> {
    let rows = data.len() / dim;
    let width = params.m_hash_bits;
    let planes = hyperplanes(dim, width, params.random_seed);
    let plan = SketchBuildPlan::for_params(params, width, dim, threads);
    let mut values = vec![bits(0.0); rows * width];
    for &(start, count) in sketch_chunks(rows, plan.chunk_rows).iter().rev() {
        for point in start..start + count {
            let row = sketch_row(&data[point * dim..(point + 1) * dim], &planes, width);
            values[point * width..(point + 1) * width].copy_from_slice(&row);
        }
    }
    encode_sketch_file(rows, width, &values).unwrap()
}

fn copied(store: &DiskSketchStore, point: usize) -> Vec<F32> {
    let mut row = vec![bits(0.0); store.width()];
    store.row_copy_into(point, &mut row).unwrap();
    row
}

#[test]
fn disk_sketch_store_round_trips_rows_from_dataset() {
    let data = dataset(16, 8, 0.25, 0.5);
    let mut params = ForgeANNParams::default();
    params.m_hash_bits = 6;
    let sketches = compute_sketches(&data, 8, &params);

    let bytes = DiskSketchStore::write_from_memory(&sketches);
    let store = DiskSketchStore::open(&bytes).unwrap();

    assert_eq!(store.width(), params.m_hash_bits);
    for point in 0..16 {
        assert_eq!(copied(&store, point), sketches.row(point));
    }
}

#[test]
fn disk_sketch_store_reports_file_backed_bytes() {
    let data = dataset(8, 4, 0.25, 0.5);
    let mut params = ForgeANNParams::default();
    params.m_hash_bits = 5;
    let sketches = compute_sketches(&data, 4, &params);

    let bytes = DiskSketchStore::write_from_memory(&sketches);
    let store = DiskSketchStore::open(&bytes).unwrap();

    assert!(store.file_bytes() >= 8 * 5 * std::mem::size_of::<f32>());
    assert_eq!(store.file_bytes(), 16 + 8 * 5 * 4);
}

#[test]
fn disk_sketch_store_reads_rows_without_full_clone() {
    let data = dataset(12, 6, 0.25, 0.5);
    let mut params = ForgeANNParams::default();
    params.m_hash_bits = 7;
    let expected = compute_sketches(&data, 6, &params);

    let bytes = build_in_chunks(&data, 6, &params, 1);
    let store = DiskSketchStore::open(&bytes).unwrap();

    assert_eq!(store.rows(), 12);
    assert_eq!(store.width(), 7);
    assert!(
        store.resident_bytes() < store.file_bytes(),
        "disk sketch store should avoid cloning the full sketch matrix into heap memory"
    );
    for point in 0..12 {
        assert_eq!(copied(&store, point), expected.row(point));
    }
}

#[test]
fn disk_sketch_store_builds_from_direct_point_store() {
    let rows = 12usize;
    let dim = 6usize;
    let data = dataset(rows, dim, 0.25, 0.5);
    let mut params = ForgeANNParams::default();
    params.m_hash_bits = 7;

    let bytes = build_in_chunks(&data, dim, &params, 1);
    let store = DiskSketchStore::open(&bytes).unwrap();

    let expected = compute_sketches(&data, dim, &params);
    for point in 0..rows {
        assert_eq!(copied(&store, point), expected.row(point));
    }
}

#[test]
fn disk_sketch_store_parallel_build_matches_reference_sketches() {
    let rows = 257usize;
    let dim = 32usize;
    let data = dataset(rows, dim, 0.03125, 0.125);
    let mut params = ForgeANNParams::default();
    params.m_hash_bits = 11;
    params.oom_memory_budget_bytes = 512 * 1024 * 1024;
    params.oom_sketch_cache_bytes = 64 * 1024 * 1024;

    let bytes = build_in_chunks(&data, dim, &params, 4);
    let store = DiskSketchStore::open(&bytes).unwrap();

    let expected = compute_sketches(&data, dim, &params);
    for point in 0..rows {
        assert_eq!(copied(&store, point), expected.row(point));
    }
}

#[test]
fn disk_sketch_store_parallel_strict_io_matches_reference_sketches() {
    let rows = 4096usize;
    let dim = 64usize;
    let data = dataset(rows, dim, 0.0625, 0.015625);
    let mut params = ForgeANNParams::default();
    params.m_hash_bits = 11;
    params.oom_enable = true;
    params.oom_memory_budget_bytes = 512 * 1024 * 1024;
    params.oom_sketch_cache_bytes = 256 * 1024;

    let plan = SketchBuildPlan::for_params(&params, 11, dim, 4);
    assert!(sketch_chunks(rows, plan.chunk_rows).len() > 1);
    let bytes = build_in_chunks(&data, dim, &params, 4);
    let store = DiskSketchStore::open(&bytes).unwrap();

    let expected = compute_sketches(&data, dim, &params);
    for point in [0usize, 7, 255, 1024, rows - 1] {
        assert_eq!(copied(&store, point), expected.row(point));
    }
}

#[test]
fn disk_sketch_store_derives_sampled_medoid_start_from_build_pass() {
    let rows = 9usize;
    let data: Vec<f32> = (0..rows).map(|row| row as f32).collect();
    let mut params = ForgeANNParams::default();
    params.m_hash_bits = 3;
    params.oom_memory_budget_bytes = 64 * 1024 * 1024;
    params.oom_sketch_cache_bytes = 64 * 1024 * 1024;

    let plan = SketchBuildPlan::for_params(&params, 3, 1, 1);
    assert_eq!(sketch_chunks(rows, plan.chunk_rows), vec![(0, 9)]);
    let stride = sketch_start_sample_stride(rows);
    let mean = data.iter().map(|value| *value as f64).sum::<f64>() / rows as f64;
    let samples: Vec<SketchStartSample> = (0..rows)
        .filter(|pid| is_start_sample(*pid, stride))
        .map(|pid| SketchStartSample {
            pid: pid as u32,
            dist: ratio((data[pid] as f64 - mean) * (data[pid] as f64 - mean)),
        })
        .collect();
    let bytes = build_in_chunks(&data, 1, &params, 1);
    let store = DiskSketchStore::open(&bytes).unwrap();
    assert_eq!(store.sampled_medoid_start(), None);
    let store = store.with_sampled_medoid_start(sampled_medoid_start(rows, &samples));

    assert_eq!(store.sampled_medoid_start(), Some(4));
}

#[test]
fn sketch_build_plan_treats_oom_sketch_cache_as_global_parallel_budget() {
    let mut params = ForgeANNParams::default();
    params.oom_enable = true;
    params.oom_memory_budget_bytes = 32 * 1024 * 1024 * 1024;
    params.oom_sketch_cache_bytes = 4 * 1024 * 1024 * 1024;
    params.m_hash_bits = 12;

    let plan = SketchBuildPlan::for_params(&params, params.m_hash_bits, 768, 42);
    let min_chunk_bytes = MIN_SKETCH_BUILD_CHUNK_ROWS
        .saturating_mul((768 + params.m_hash_bits).saturating_mul(std::mem::size_of::<f32>()));

    assert_eq!(plan.threads, 42);
    assert!(plan.chunk_rows < 100_000);
    assert!(
        plan.estimated_concurrent_bytes
            <= params
                .oom_sketch_cache_bytes
                .saturating_add(min_chunk_bytes)
    );
}

#[test]
fn disk_sketch_store_strict_io_avoids_mmap_and_round_trips_rows() {
    let data = dataset(19, 9, 0.25, 0.5);
    let mut params = ForgeANNParams::default();
    params.m_hash_bits = 5;
    params.oom_enable = true;
    let expected = compute_sketches(&data, 9, &params);

    let bytes = build_in_chunks(&data, 9, &params, 1);
    let file = SketchFile::open(&bytes[..HEADER_BYTES], bytes.len()).unwrap();
    for point in 0..19 {
        let (start, end) = file.row_range(point).unwrap();
        let span = AlignedSpan::around(start as u64, end - start, 4096);
        let block = bytes.len().min(span.offset as usize + span.len);
        let blocks = &bytes[span.offset as usize..block];
        assert_eq!(
            read_values(&blocks[span.prefix..span.prefix + (end - start)]),
            expected.row(point)
        );
    }
}

#[test]
fn disk_sketch_store_windowed_reads_preserve_logical_order_for_unsorted_ids() {
    let data = dataset(16, 8, 0.25, 0.5);
    let mut params = ForgeANNParams::default();
    params.m_hash_bits = 6;
    let expected = compute_sketches(&data, 8, &params);
    let bytes = build_in_chunks(&data, 8, &params, 1);
    let store = DiskSketchStore::open(&bytes).unwrap();

    let ids = vec![9_u32, 2, 10, 3];
    let mut out = vec![bits(0.0); ids.len() * params.m_hash_bits];
    let mut stats = WindowedGatherStats::default();
    store
        .read_rows_windowed_into_stats(&ids, &mut out, &small_gaps(), &mut stats)
        .unwrap();

    assert_eq!(stats.windows_submitted, 2);
    for (row, &pid) in ids.iter().enumerate() {
        assert_eq!(&out[row * 6..row * 6 + 6], expected.row(pid as usize));
    }
}

#[test]
fn disk_sketch_store_windowed_reads_merge_small_gaps_into_single_window() {
    let data = dataset(16, 8, 0.25, 0.5);
    let mut params = ForgeANNParams::default();
    params.m_hash_bits = 6;
    let bytes = build_in_chunks(&data, 8, &params, 1);
    let store = DiskSketchStore::open(&bytes).unwrap();

    let ids = vec![4_u32, 6];
    let mut out = vec![bits(0.0); ids.len() * params.m_hash_bits];
    let mut stats = WindowedGatherStats::default();
    store
        .read_rows_windowed_into_stats(&ids, &mut out, &small_gaps(), &mut stats)
        .unwrap();

    assert_eq!(stats.windows_submitted, 1);
    assert_eq!(stats.overread_rows, 1);
}

#[test]
fn disk_sketch_store_direct_bounded_reads_merge_rows_by_aligned_block() {
    let data = dataset(192, 8, 0.25, 0.5);
    let mut params = ForgeANNParams::default();
    params.m_hash_bits = 6;
    params.oom_enable = true;
    let expected = compute_sketches(&data, 8, &params);
    let bytes = build_in_chunks(&data, 8, &params, 1);
    let file = SketchFile::open(&bytes[..HEADER_BYTES], bytes.len()).unwrap();

    let ids = vec![120_u32, 2, 80];
    let mut out = vec![bits(0.0); ids.len() * 6];
    let mut stats = WindowedGatherStats::default();
    let plan = plan_bounded_read(&file, Some(4096), &ids, out.len(), 4096, ratio(1.5))
        .unwrap()
        .unwrap();
    record_bounded_sketch_plan_stats(&plan, 24, &mut stats);
    let ranges = bounded_sketch_scatter_ranges(&plan);
    for (window, &(from, to)) in plan.windows.iter().zip(&ranges) {
        let (offset, len) =
            file.range_bytes(window.start_row as usize, window.row_count as usize);
        let values = read_values(&bytes[offset..offset + len]);
        scatter_bounded_sketch_window(&plan, from, to, 6, &values, &mut out);
    }

    assert_eq!(stats.windows_submitted, 1);
    assert_eq!(stats.physical_bytes, 4096);
    assert!(stats.alignment_waste_bytes > 0);
    for (row, &pid) in ids.iter().enumerate() {
        assert_eq!(&out[row * 6..row * 6 + 6], expected.row(pid as usize));
    }
}

#[test]
fn resident_prefix_sketch_accessor_preserves_logical_order_for_mixed_cached_and_tail_ids() {
    let data = dataset(16, 8, 0.25, 0.5);
    let mut params = ForgeANNParams::default();
    params.m_hash_bits = 6;
    let expected = compute_sketches(&data, 8, &params);
    let bytes = build_in_chunks(&data, 8, &params, 1);
    let store = DiskSketchStore::open(&bytes).unwrap();
    let cached = ResidentPrefixSketchAccessor::from_disk_prefix(&store, 8).unwrap();

    let ids = vec![9_u32, 2, 10, 3, 7, 12, 0];
    let mut out = vec![bits(0.0); ids.len() * params.m_hash_bits];
    let mut stats = WindowedGatherStats::default();
    cached
        .read_rows_windowed_into_stats(&ids, &mut out, &small_gaps(), &mut stats)
        .unwrap();

    for (row, &pid) in ids.iter().enumerate() {
        assert_eq!(&out[row * 6..row * 6 + 6], expected.row(pid as usize));
    }
    assert_eq!(stats.rows_requested, 7);
    assert_eq!(stats.scatter_ops, 7);
    assert_eq!(stats.logical_bytes, 7 * 24);
    assert_eq!(stats.windows_submitted, 1);
    assert_eq!(stats.overread_rows, 1);
    assert_eq!(stats.physical_bytes, 4 * 24);
}

#[test]
fn prefix_reads_fail_as_single_rows_do() {
    let rows: Vec<F32> = (0..12).map(|i| bits(i as f32)).collect();
    let sketches = SketchStore::from_row_major(rows.clone(), 3);
    let bytes = DiskSketchStore::write_from_memory(&sketches);
    let store = DiskSketchStore::open(&bytes).unwrap();
    let cached = ResidentPrefixSketchAccessor::from_disk_prefix(&store, 2).unwrap();

    assert_eq!(cached.width(), 3);
    assert_eq!(cached.rows(), 4);
    let mut out = vec![bits(9.0); 6];
    cached.read_rows_into(&[3, 1], &mut out).unwrap();
    assert_eq!(out, [&rows[9..12], &rows[3..6]].concat());
    assert_eq!(
        cached.read_rows_into(&[1, 4], &mut out).unwrap_err().message(),
        "IndexError: Sketch row 4 is out of bounds for 4 rows"
    );
    assert_eq!(&out[..3], &rows[3..6]);
    assert_eq!(
        cached.read_rows_into(&[1], &mut out).unwrap_err().message(),
        "IndexError: Resident prefix sketch matrix size mismatch: got 6 expected 3"
    );
    let mut narrow = vec![bits(0.0); 2];
    assert_eq!(
        cached.row_copy_into(0, &mut narrow).unwrap_err().message(),
        "IndexError: Sketch row copy width mismatch: dst=2 expected=3"
    );
    assert_eq!(
        ResidentPrefixSketchAccessor::from_disk_prefix(&store, 5)
            .err()
            .unwrap()
            .message(),
        "IndexError: Resident sketch prefix rows out of bounds: prefix_rows=5 rows=4"
    );
    assert!(check_resident_prefix(4, 4).is_ok());
}

#[test]
fn prefix_reads_are_bounded_as_the_file_is() {
    let rows: Vec<F32> = (0..40).map(|i| bits(i as f32)).collect();
    let sketches = SketchStore::from_row_major(rows.clone(), 2);
    let bytes = DiskSketchStore::write_from_memory(&sketches);
    let store = DiskSketchStore::open(&bytes).unwrap();
    let cached = ResidentPrefixSketchAccessor::from_disk_prefix(&store, 3).unwrap();

    let ids = vec![19_u32, 1, 18, 5];
    let mut expected_stats = WindowedGatherStats::default();
    let mut tail = vec![bits(0.0); 6];
    store
        .read_rows_bounded_into_stats(&[19, 18, 5], &mut tail, 64, ratio(1.5), &mut expected_stats)
        .unwrap();
    assert_eq!(expected_stats.windows_submitted, 2);
    assert_eq!(expected_stats.singleton_windows, 1);
    assert_eq!(expected_stats.range_rows_read, 2);

    let mut out = vec![bits(0.0); 8];
    let mut stats = WindowedGatherStats::default();
    cached
        .read_rows_bounded_into_stats(&ids, &mut out, 64, ratio(1.5), &mut stats)
        .unwrap();
    for (row, &id) in ids.iter().enumerate() {
        let at = id as usize * 2;
        assert_eq!(&out[row * 2..row * 2 + 2], &rows[at..at + 2]);
    }
    assert_eq!(stats.windows_submitted, 2);
    assert_eq!(stats.rows_requested, 4);
    assert_eq!(stats.logical_bytes, 32);
    assert_eq!(stats.physical_bytes, 24);

    let before = stats.windows_submitted;
    cached
        .read_rows_bounded_into_stats(&[], &mut out, 64, ratio(1.5), &mut stats)
        .unwrap();
    assert_eq!(stats.windows_submitted, before);
    let mut short = vec![bits(0.0); 3];
    assert_eq!(
        cached
            .read_rows_bounded_into_stats(&ids, &mut short, 64, ratio(1.5), &mut stats)
            .unwrap_err()
            .message(),
        "IndexError: Resident prefix sketch matrix size mismatch: got 3 expected 8"
    );
}

#[test]
fn sketch_files_are_checked() {
    let values: Vec<F32> = (0..6).map(|i| bits(i as f32)).collect();
    assert_eq!(
        encode_sketch_file(2, 2, &values).unwrap_err().message(),
        "IndexError: Sketch payload size mismatch: rows=2 width=2 values=6"
    );
    let mut bytes = encode_sketch_file(2, 3, &values).unwrap();
    assert_eq!(&bytes[..16], &[2, 0, 0, 0, 0, 0, 0, 0, 3, 0, 0, 0, 0, 0, 0, 0]);
    assert_eq!(&bytes[20..24], &[0, 0, 0x80, 0x3f]);
    {
        let store = DiskSketchStore::open(&bytes).unwrap();
        assert_eq!(store.row(1).unwrap(), &values[3..]);
        assert_eq!(
            store.row(2).unwrap_err().message(),
            "IndexError: Sketch row 2 is out of bounds for 2 rows"
        );
        let mut out = vec![bits(7.0); 9];
        store.read_rows_into(&[0, 1, 0], &mut out).unwrap();
        assert_eq!(out, [&values[..], &values[..3]].concat());
        let mut stats = WindowedGatherStats::default();
        assert_eq!(
            store
                .read_rows_windowed_into_stats(&[0], &mut out, &small_gaps(), &mut stats)
                .unwrap_err()
                .message(),
            "IndexError: Sketch matrix size mismatch: got 9 expected 3"
        );
        assert_eq!(
            store
                .read_rows_bounded_into_stats(&[0], &mut out, 8, ratio(2.0), &mut stats)
                .unwrap_err()
                .message(),
            "IndexError: Sketch matrix size mismatch: got 9 expected 3"
        );
        assert_eq!(stats.windows_submitted, 0);
    }
    bytes.push(0);
    assert_eq!(
        DiskSketchStore::open(&bytes).err().unwrap().message(),
        "IndexError: Sketch file size mismatch: expected 40, found 41"
    );
    let mut huge = Vec::new();
    push_u64(&mut huge, u64::MAX);
    push_u64(&mut huge, 2);
    assert_eq!(
        SketchFile::open(&huge, 16).err().unwrap().message(),
        "IndexError: Sketch file size overflow"
    );
}

#[test]
fn little_endian_numbers_round_trip() {
    let mut bytes = Vec::new();
    push_u32(&mut bytes, 0x0102_0304);
    push_u64(&mut bytes, 0x1112_1314_1516_1718);
    push_values(&mut bytes, &[bits(-1.5)]);
    assert_eq!(&bytes[..6], &[4, 3, 2, 1, 0x18, 0x17]);
    assert_eq!(read_u32(&bytes, 0), 0x0102_0304);
    assert_eq!(read_u64(&bytes, 4), 0x1112_1314_1516_1718);
    assert_eq!(read_values(&bytes[12..]), vec![bits(-1.5)]);
}

#[test]
fn ids_are_read_in_runs() {
    assert_eq!(consecutive_runs(&[]), vec![]);
    assert_eq!(
        consecutive_runs(&[3, 4, 5, 9, 10, 2, u32::MAX]),
        vec![(0, 3), (3, 5), (5, 6), (6, 7)]
    );
}

#[test]
fn subset_rows_go_to_their_positions() {
    let mut out = vec![bits(0.0); 6];
    scatter_subset_rows(
        &[2, 0],
        &[bits(1.0), bits(2.0), bits(3.0), bits(4.0)],
        2,
        &mut out,
    );
    assert_eq!(
        out,
        vec![bits(3.0), bits(4.0), bits(0.0), bits(0.0), bits(1.0), bits(2.0)]
    );
    let split = split_prefix_ids(&[9, 2, 10, 3], 8);
    assert_eq!(split.prefix_ids, vec![2, 3]);
    assert_eq!(split.prefix_positions, vec![1, 3]);
    assert_eq!(split.tail_ids, vec![9, 10]);
    assert_eq!(split.tail_positions, vec![0, 2]);
    let prefix = SketchStore::from_row_major(vec![bits(5.0); 8], 1);
    let mut joined = vec![bits(0.0); 4];
    let mut stats = WindowedGatherStats::default();
    let none = WindowedGatherStats::default();
    join_prefix_rows(
        &prefix,
        &[9, 2, 10, 3],
        &[bits(6.0), bits(7.0)],
        &none,
        &mut joined,
        &mut stats,
    )
    .unwrap();
    assert_eq!(joined, vec![bits(6.0), bits(5.0), bits(7.0), bits(5.0)]);
    assert_eq!(stats.rows_requested, 2);
    assert_eq!(stats.logical_bytes, 8);
}

#[test]
fn queued_reads_complete_slot_by_slot() {
    let values = vec![bits(1.0); 64 * 6];
    let bytes = encode_sketch_file(64, 6, &values).unwrap();
    let file = SketchFile::open(&bytes[..HEADER_BYTES], bytes.len()).unwrap();
    let ids = vec![0_u32, 30, 60];
    let plan = plan_bounded_read(&file, Some(512), &ids, 18, 512, ratio(1.5))
        .unwrap()
        .unwrap();
    assert!(uses_window_queue(&plan));
    let reads = next_uring_batch(&plan, 0, 24, 512);
    assert_eq!(reads.len(), plan.windows.len());
    for read in &reads {
        let window = plan.windows[read.window_idx];
        assert_eq!(read.logical_len, window.row_count as usize * 24);
        assert_eq!(read.span.offset % 512, 0);
        assert_eq!(
            read.span.offset as usize + read.span.prefix,
            16 + window.start_row as usize * 24
        );
    }
    let mut progress = UringBatchProgress::start(reads.len());
    assert!(matches!(
        progress.complete(&reads, 99, 512),
        Err(UringReadError::InvalidSlot { text })
            if text == "io_uring returned invalid sketch window slot 99"
    ));
    assert!(matches!(
        progress.complete(&reads, 0, -5),
        Err(UringReadError::Os { code: 5 })
    ));
    assert!(matches!(
        progress.complete(&reads, 0, 3),
        Err(UringReadError::ShortRead { text })
            if text == "io_uring sketch short read: got 3, expected at least 40"
    ));
    assert!(!progress.is_done());
    for slot in 0..reads.len() {
        assert!(progress.complete(&reads, slot as u64, 1024).is_ok());
    }
    assert!(progress.is_done());
}

#[test]
fn sketch_builds_are_planned() {
    assert_eq!(sketch_build_bytes_per_row(6, 8), 56);
    assert_eq!(requested_sketch_threads(0, 7), 7);
    assert_eq!(requested_sketch_threads(3, 7), 3);
    assert_eq!(sketch_chunks(5, 2), vec![(0, 2), (2, 2), (4, 1)]);
    assert_eq!(sketch_start_sample_stride(8192), 1);
    assert_eq!(sketch_start_sample_stride(8193), 2);
    assert!(is_start_sample(4, 2));
    assert!(!is_start_sample(5, 2));
    assert_eq!(
        check_hyperplane_shape(5, 2, 3).unwrap_err().message(),
        "IndexError: Hyperplane shape mismatch: hyperplanes=5 out_row=2 dim=3"
    );
    let at = |pid: u32, dist: f64| SketchStartSample {
        pid,
        dist: ratio(dist),
    };
    assert_eq!(sampled_medoid_start(0, &[at(1, 0.0)]), None);
    assert_eq!(sampled_medoid_start(3, &[at(1, f64::NAN), at(2, f64::INFINITY)]), None);
    assert_eq!(
        sampled_medoid_start(3, &[at(5, 1.0), at(2, 1.0), at(3, 4.0)]),
        Some(2)
    );
}
