use std::collections::BTreeMap;

use forgeann::ann_result::AnnError;
use forgeann::env_config::{
    blas_key, detailed_forgeann_profiling_enabled, is_profiling_word, worker_stack_bytes_for,
    BlasThreadEnv, EnvChange, BLAS_KEYS,
};
use forgeann::graph_build::check_rotation_sidecar;
use forgeann::io_stats::IoPlannerStats;
use forgeann::json_text::{format_optional_bytes, format_optional_kb, format_optional_number};
use forgeann::leaf_profile::{LeafProfile, LEAF_SIZE_BUCKETS};
use forgeann::oom_files::{
    is_oom_artifact_file, parse_number, parse_partition_depth, resolve_oom_artifact_dir,
    OomArtifactDirs, TempFileReport,
};
use forgeann::oom_memory::{
    parse_proc_self_status, parse_status_kib_field, MemoryStage, OomMemoryReport,
    ProcessMemorySnapshot,
};
use forgeann::oom_profile::{
    oom_profile_json, root_entries, validate_oom_profile, AdsSchedulerTelemetry, AssignmentBucket,
    AssignmentDecisionProfile, AssignmentDepth, BucketRatios, FallbackCount, OomProfile,
    PointPipelineRatios, PointPipelineStats, SchedulerTelemetry, SpillReduceStats, SpillRunStats,
    StageTimes, UringStats,
};
use forgeann::params::ForgeANNParams;

fn apply(env: &mut BTreeMap<String, String>, changes: &[EnvChange]) {
    for change in changes {
        match &change.value {
            Some(value) => {
                env.insert(change.key.to_string(), value.clone());
            }
            None => {
                env.remove(change.key);
            }
        }
    }
}

fn capture(env: &BTreeMap<String, String>) -> BlasThreadEnv {
    let mut values = Vec::new();
    for index in 0..BLAS_KEYS {
        values.push(env.get(blas_key(index)).cloned());
    }
    BlasThreadEnv { values }
}

#[test]
fn blas_thread_env_round_trips_extended_thread_vars() {
    let mut env: BTreeMap<String, String> = BTreeMap::new();
    env.insert("PATH".to_string(), "/bin".to_string());
    let original = capture(&env);

    env.insert("OPENBLAS_NUM_THREADS".to_string(), "8".to_string());
    env.insert("OMP_NUM_THREADS".to_string(), "9".to_string());
    env.insert("MKL_NUM_THREADS".to_string(), "10".to_string());
    env.insert("BLIS_NUM_THREADS".to_string(), "11".to_string());
    env.insert("GOTO_NUM_THREADS".to_string(), "12".to_string());
    env.insert("MKL_DYNAMIC".to_string(), "1".to_string());
    let snapshot = capture(&env);

    apply(&mut env, &BlasThreadEnv::set_single_threaded());

    assert_eq!(env["OPENBLAS_NUM_THREADS"], "1");
    assert_eq!(env["OMP_NUM_THREADS"], "1");
    assert_eq!(env["MKL_NUM_THREADS"], "1");
    assert_eq!(env["BLIS_NUM_THREADS"], "1");
    assert_eq!(env["GOTO_NUM_THREADS"], "1");
    assert_eq!(env["MKL_DYNAMIC"], "0");

    apply(&mut env, &snapshot.restore());

    assert_eq!(env["OPENBLAS_NUM_THREADS"], "8");
    assert_eq!(env["OMP_NUM_THREADS"], "9");
    assert_eq!(env["MKL_NUM_THREADS"], "10");
    assert_eq!(env["BLIS_NUM_THREADS"], "11");
    assert_eq!(env["GOTO_NUM_THREADS"], "12");
    assert_eq!(env["MKL_DYNAMIC"], "1");

    apply(&mut env, &original.restore());
    assert_eq!(env.len(), 1);
    assert_eq!(env["PATH"], "/bin");
}

#[test]
fn profiling_is_switched_on_by_a_word_in_any_case_and_spacing() {
    assert!(detailed_forgeann_profiling_enabled(Some("  Detailed\n")));
    assert!(detailed_forgeann_profiling_enabled(Some("1")));
    assert!(detailed_forgeann_profiling_enabled(Some("YES")));
    assert!(!detailed_forgeann_profiling_enabled(Some("0")));
    assert!(!detailed_forgeann_profiling_enabled(Some("o n")));
    assert!(!detailed_forgeann_profiling_enabled(None));
    assert!(is_profiling_word(&"on".to_string()));
    assert!(!is_profiling_word(&"ON".to_string()));
}

#[test]
fn stack_size_comes_from_a_trimmed_number() {
    assert_eq!(worker_stack_bytes_for(Some(" 64 ")), 64 * 1024 * 1024);
    assert_eq!(worker_stack_bytes_for(Some("+9")), 9 * 1024 * 1024);
    assert_eq!(worker_stack_bytes_for(Some("9MB")), 32 * 1024 * 1024);
    assert_eq!(worker_stack_bytes_for(Some("100000")), 256 * 1024 * 1024);
    assert_eq!(worker_stack_bytes_for(None), 32 * 1024 * 1024);
}

#[test]
fn oom_artifact_dirs_fallback_to_root_and_create_overrides() {
    let mut params = ForgeANNParams::default();
    params.oom_temp_dir = "/data/root-artifacts".to_string();
    params.oom_sketch_temp_dir = "/data/sketch-artifacts".to_string();
    params.oom_spill_temp_dir = "/data/spill-artifacts".to_string();
    params.oom_vector_temp_dir = "/data/vector-artifacts".to_string();

    let dirs = OomArtifactDirs::from_params(&params, "/tmp/forgeann-forgeann-oom");

    assert_eq!(dirs.root_dir, params.oom_temp_dir);
    assert_eq!(dirs.sketch_dir, params.oom_sketch_temp_dir);
    assert_eq!(dirs.spill_dir, params.oom_spill_temp_dir);
    assert_eq!(dirs.partition_dir, params.oom_temp_dir);
    assert_eq!(dirs.vector_dir, params.oom_vector_temp_dir);
    let to_create = dirs.unique_dirs();
    for dir in [
        &dirs.root_dir,
        &dirs.sketch_dir,
        &dirs.spill_dir,
        &dirs.partition_dir,
        &dirs.vector_dir,
    ] {
        assert_eq!(to_create.iter().filter(|d| *d == dir).count(), 1);
    }
    assert_eq!(to_create.len(), 4);
}

#[test]
fn artifact_dirs_default_to_one_directory() {
    let params = ForgeANNParams::default();
    let dirs = OomArtifactDirs::from_params(&params, "/tmp/forgeann-forgeann-oom");
    assert_eq!(
        dirs.unique_dirs(),
        vec!["/tmp/forgeann-forgeann-oom".to_string()]
    );
    assert_eq!(resolve_oom_artifact_dir("/a", ""), "/a");
    assert_eq!(resolve_oom_artifact_dir("/a", "/b"), "/b");
}

#[test]
fn oom_artifact_cleanup_preserves_unrelated_files_in_split_dirs() {
    assert!(is_oom_artifact_file("sketches.bin"));
    assert!(is_oom_artifact_file("candidate_shard00000_part000.log"));
    assert!(is_oom_artifact_file("candidate_segments.manifest"));
    assert!(is_oom_artifact_file("partition_d01_runs.bin"));
    assert!(is_oom_artifact_file("partition_d02_vectors_00000001.bin"));
    assert!(!is_oom_artifact_file("wiki_base.fbin"));
    assert!(!is_oom_artifact_file("notes.txt"));
    assert!(is_oom_artifact_file("candidate.run"));
    assert!(!is_oom_artifact_file("candidate_shard0.txt"));
    assert!(!is_oom_artifact_file(""));
}

#[test]
fn partition_depth_is_two_characters_behind_the_prefix() {
    assert_eq!(parse_partition_depth("partition_d07_runs.bin"), Some(7));
    assert_eq!(parse_partition_depth("partition_d99"), Some(99));
    assert_eq!(parse_partition_depth("partition_d+3x"), Some(3));
    assert_eq!(parse_partition_depth("partition_d1"), None);
    assert_eq!(parse_partition_depth("partition_dxx"), None);
    assert_eq!(parse_partition_depth("partition_d0\u{e9}"), None);
    assert_eq!(parse_partition_depth("artition_d01"), None);
}

#[test]
fn numbers_are_digits_that_fit() {
    assert_eq!(parse_number(b"0012"), Some(12));
    assert_eq!(parse_number(b"+5"), Some(5));
    assert_eq!(parse_number(b""), None);
    assert_eq!(parse_number(b"+"), None);
    assert_eq!(parse_number(b"-1"), None);
    assert_eq!(parse_number(b"18446744073709551615"), Some(usize::MAX));
    assert_eq!(parse_number(b"18446744073709551616"), None);
}

#[test]
fn collect_temp_file_report_classifies_partition_candidate_and_other_bytes() {
    let mut report = TempFileReport::new();
    report.record("sketches.bin", 10);
    report.record("candidate_shard00000_part000.log", 11);
    report.record("candidate_segments.manifest", 7);
    report.record("partition_d00_runs.bin", 12);
    report.record("partition_d02_runs.bin", 13);
    report.record("misc.tmp", 14);

    assert_eq!(report.total.files, 6);
    assert_eq!(report.total.bytes, 67);
    assert_eq!(report.candidate.files, 2);
    assert_eq!(report.candidate.bytes, 18);
    assert_eq!(report.partition_depth0.files, 1);
    assert_eq!(report.partition_depth0.bytes, 12);
    assert_eq!(report.partition_depth2.files, 1);
    assert_eq!(report.partition_depth2.bytes, 13);
    assert_eq!(report.other.files, 2);
    assert_eq!(report.other.bytes, 24);
}

#[test]
fn temp_file_reports_add_up() {
    let mut a = TempFileReport::new();
    a.record("partition_d01_runs.bin", 5);
    a.record("partition_d07_runs.bin", 6);
    let mut b = TempFileReport::new();
    b.record("partition_d01_runs.bin", 7);
    b.record("partition_d03_runs.bin", 8);
    a.merge(&b);
    assert_eq!(a.total.files, 4);
    assert_eq!(a.total.bytes, 26);
    assert_eq!(a.partition_depth1.bytes, 12);
    assert_eq!(a.partition_depth3.bytes, 8);
    assert_eq!(a.other.bytes, 6);
}

#[test]
fn process_status_gives_sizes_in_bytes() {
    let text = "Name:\tx\nVmPeak:\t    2048 kB\nVmHWM:\t 512 kB\nVmRSS:\t256 kB\nThreads:\t1\n";
    let snapshot = parse_proc_self_status(text);
    assert_eq!(snapshot.rss_bytes, Some(256 * 1024));
    assert_eq!(snapshot.hwm_bytes, Some(512 * 1024));
    assert_eq!(snapshot.vm_peak_bytes, Some(2048 * 1024));
    assert_eq!(parse_status_kib_field("VmRSS:"), None);
    assert_eq!(parse_status_kib_field("VmRSS: many kB"), None);
    assert_eq!(
        parse_status_kib_field("VmRSS: 18446744073709551615 kB"),
        None
    );
    assert_eq!(parse_proc_self_status("").rss_bytes, None);
    assert_eq!(parse_status_kib_field("Vm:\u{a0}12 kB"), Some(12288));
    assert_eq!(parse_status_kib_field("Vm:\u{3000}\u{2003}7\u{85}kB"), Some(7168));
    assert_eq!(parse_status_kib_field("Vm: \u{661}2 kB"), None);
    assert_eq!(parse_status_kib_field("Vm: +12 kB"), Some(12288));
}

#[test]
fn memory_summary_lists_stages_by_name() {
    let mut report = OomMemoryReport::new();
    let snapshot = |rss: usize, hwm: usize, peak: usize| ProcessMemorySnapshot {
        rss_bytes: Some(rss),
        hwm_bytes: Some(hwm),
        vm_peak_bytes: Some(peak),
    };
    report.capture_stage(MemoryStage::Start, snapshot(1024, 2048, 4096));
    report.capture_stage(MemoryStage::AfterRoot, snapshot(3 * 1024, 9 * 1024, 1024));
    report.refresh_summary_from_stages();
    // "after_root" comes before "start".
    assert_eq!(report.rss_kb_samples, vec![3, 1]);
    assert_eq!(report.rss_hwm_kb, Some(9));
    assert_eq!(report.vm_peak_kb, Some(4));
}

#[test]
fn optional_sizes_have_a_text() {
    assert_eq!(format_optional_bytes(Some(5)), "5");
    assert_eq!(format_optional_bytes(None), "n/a");
    assert_eq!(format_optional_number(Some(5)), "5");
    assert_eq!(format_optional_number(None), "null");
    assert_eq!(format_optional_kb(Some(5000)), "4");
    assert_eq!(format_optional_kb(None), "null");
}

#[test]
fn root_report_loses_its_braces() {
    assert_eq!(
        root_entries(" {\n  \"root_fanout\": 1 \n}\n"),
        "\"root_fanout\": 1"
    );
    assert_eq!(root_entries("null"), "\"root_fanout\": null");
    assert_eq!(root_entries("{"), "\"root_fanout\": null");
    assert_eq!(root_entries("{}"), "");
}

#[test]
fn rotated_coordinates_must_fit_the_points() {
    assert!(check_rotation_sidecar(8, 100, 8, 100).is_ok());
    match check_rotation_sidecar(9, 100, 8, 100) {
        Err(AnnError::IndexConfig { parameter, err }) => {
            assert_eq!(parameter, "adsampling_rotation_sidecar");
            assert_eq!(err, "ADSampling sidecar dim 9 does not match dataset dim 8");
        }
        _ => panic!("expected a configuration error"),
    }
    match check_rotation_sidecar(8, 99, 8, 100) {
        Err(AnnError::IndexConfig { err, .. }) => {
            assert_eq!(err, "ADSampling sidecar has 99 points but build needs 100");
        }
        _ => panic!("expected a configuration error"),
    }
}

#[test]
fn a_planned_build_must_have_measured_its_reads() {
    let mut planner = IoPlannerStats::new();
    assert!(validate_oom_profile(&planner).is_ok());
    planner.counters.enabled = true;
    planner.counters.planned_nodes = 1;
    match validate_oom_profile(&planner) {
        Err(AnnError::IndexConfig { parameter, err }) => {
            assert_eq!(parameter, "io_pain_by_depth");
            assert_eq!(
                err,
                "actual io-planned ForgeANN profile has empty io_pain_by_depth"
            );
        }
        _ => panic!("expected a configuration error"),
    }
    planner.counters.dry_run = true;
    assert!(validate_oom_profile(&planner).is_ok());
}

fn bucket_ratios() -> Vec<BucketRatios> {
    let mut ratios = Vec::new();
    for _ in 0..LEAF_SIZE_BUCKETS {
        ratios.push(BucketRatios {
            exact_ms_per_row: "0.000000".to_string(),
            adsampling_ms_per_row: "0.000000".to_string(),
        });
    }
    ratios
}

fn assignment_bucket(label: &str, gemm_nodes: u64) -> AssignmentBucket {
    AssignmentBucket {
        label: label.to_string(),
        gemm_nodes,
        gemm_ms_per_work_m: "0.000000".to_string(),
        adsampling_ms_per_work_m: "0.000000".to_string(),
        adsampling_avg_recall_at_fanout: "0.000000".to_string(),
        ..AssignmentBucket::default()
    }
}

#[test]
fn oom_profile_json_includes_memory_temp_file_and_stage_sections() {
    let mut temp_files = TempFileReport::new();
    temp_files.record("sketches.bin", 16);
    temp_files.record("candidate_shard00000_part000.log", 16);
    temp_files.record("candidate_segments.manifest", 8);
    temp_files.record("partition_d01_runs.bin", 8);

    let mut memory = OomMemoryReport::new();
    memory.rss_kb_samples = vec![128, 256];
    memory.rss_hwm_kb = Some(512);
    memory.vm_peak_kb = Some(1024);

    let assignment_depth_buckets = 3;
    let mut depths = Vec::new();
    for depth in 0..assignment_depth_buckets {
        let mut leader_buckets = Vec::new();
        for leaders in 0..4 {
            let nodes = if depth == 1 && leaders == 2 { 1 } else { 0 };
            leader_buckets.push(assignment_bucket(&format!("leaders{leaders}"), nodes));
        }
        depths.push(AssignmentDepth {
            label: format!("depth{depth}"),
            leader_buckets,
        });
    }

    let root_json = "{ \"root_fanout\": { \"policy\": \"fixed\", \"selection_semantics\": \"fixed\", \
        \"enabled\": true, \"fixed_fanout\": 8, \"selector_ms\": 12, \"avg_fanout\": 2.0, \
        \"root_leader_hash\": 12345 } }";

    let profile = OomProfile {
        num_points: 32,
        dim: 8,
        point_store_backend: "direct".to_string(),
        memory_budget_bytes: 12 * 1024 * 1024 * 1024,
        effective_threads: 4,
        pool_threads: 4,
        leaf_budget_threads: 3,
        reduce_shard_points: 128,
        sketch_bytes: 128,
        sketch_file_bytes: 256,
        spill: SpillRunStats {
            part_files: 1,
            segment_count: 2,
            shard_groups: 1,
            max_parts_per_shard: 1,
            max_segments_per_shard: 2,
            record_bytes: 16,
            manifest_bytes: 8,
        },
        reduce: SpillReduceStats {
            shard_groups: 1,
            segments_scanned: 2,
            part_files_opened: 1,
            max_segments_in_group: 2,
        },
        stages: StageTimes {
            sketch_persist: 11_000_000,
            streaming: 22_000_000,
            reduce: 33_000_000,
            emit: 44_000_000,
            total: 55_000_000,
        },
        memory,
        temp_files,
        uring: UringStats {
            point_gather_batches: 1,
            point_gather_windows: 2,
            point_gather_bytes: 4096,
            point_gather_fallbacks: 0,
        },
        scheduler: SchedulerTelemetry::default(),
        root_fanout: root_entries(root_json),
        assignment_decisions: AssignmentDecisionProfile {
            depths,
            fallback_reasons: vec![FallbackCount {
                reason: "min-leaders".to_string(),
                count: 1,
            }],
        },
        ads_scheduler: AdsSchedulerTelemetry::default(),
        io_planned: "null".to_string(),
        point_pipeline: PointPipelineStats::default(),
        point_pipeline_ratios: PointPipelineRatios {
            avg_rows_per_window: "0.000".to_string(),
            avg_read_size_bytes: "0.000".to_string(),
            read_amplification: "0.000".to_string(),
        },
        leaf: LeafProfile::default(),
        leaf_tile_rows_avg: "0.000".to_string(),
        leaf_bucket_ratios: bucket_ratios(),
    };

    let text = oom_profile_json(&profile);
    let json: serde_json::Value = serde_json::from_str(&text).unwrap();
    assert_eq!(json["point_store_backend"], "direct");
    assert!(text.contains("\"memory\""));
    assert!(text.contains("\"rss_kb_samples\""));
    assert!(text.contains("\"rss_by_stage\""));
    for stage in [
        "start",
        "after_sketches",
        "after_root",
        "after_streaming",
        "after_reduce",
        "final",
    ] {
        assert!(
            json["memory"]["rss_by_stage"][stage].is_object(),
            "missing memory stage {stage}"
        );
        assert!(
            json["memory"]["rss_by_stage"][stage]["vm_peak_kb"].is_number()
                || json["memory"]["rss_by_stage"][stage]["vm_peak_kb"].is_null()
        );
        assert!(
            json["memory"]["rss_by_stage"][stage]["rss_hwm_kb"].is_number()
                || json["memory"]["rss_by_stage"][stage]["rss_hwm_kb"].is_null()
        );
    }
    for key in [
        "vm_peak_kb",
        "memory_budget_bytes",
        "effective_threads",
        "pool_threads",
        "leaf_budget_threads",
        "reduce_shard_points",
        "spill",
        "part_files",
        "segment_count",
        "record_bytes",
        "manifest_bytes",
        "reduce",
        "segments_scanned",
        "part_files_opened",
        "temp_files",
        "candidate",
        "partition_depth1",
        "stage_ms",
        "streaming",
        "total",
        "io_uring",
        "point_gather_batches",
        "point_gather_fallbacks",
        "root_fanout",
    ] {
        assert!(text.contains(&format!("\"{key}\"")), "missing {key}");
    }
    assert!(text.contains("\"policy\": \"fixed\""));
    assert!(text.contains("\"selection_semantics\": \"fixed\""));
    assert!(text.contains("\"enabled\": true"));
    assert!(text.contains("\"fixed_fanout\": 8"));
    assert!(text.contains("\"selector_ms\": 12"));
    assert!(text.contains("\"avg_fanout\": 2.0"));
    assert!(text.contains("\"root_leader_hash\": 12345"));
    assert!(text.contains("\"io_planned_forgeann\": null"));
    assert!(text.contains("\"point_pipeline\""));
    assert!(text.contains("\"read_amplification\""));
    assert!(text.contains("\"assignment_decisions\""));
    assert_eq!(
        json["assignment_decisions"]["depth_leader_buckets"]
            .as_array()
            .unwrap()
            .len(),
        assignment_depth_buckets
    );
    assert_eq!(
        json["assignment_decisions"]["depth_leader_buckets"][1]["leader_buckets"][2]["gemm_nodes"]
            .as_u64()
            .unwrap(),
        1
    );
    assert_eq!(
        json["assignment_decisions"]["fallback_reasons"]["min-leaders"]
            .as_u64()
            .unwrap(),
        1
    );
    assert_eq!(
        json["leaf"]["size_buckets"].as_array().unwrap().len(),
        LEAF_SIZE_BUCKETS
    );
    assert_eq!(
        json["leaf"]["size_buckets"][0]["label"].as_str().unwrap(),
        "[256,512)"
    );
    for key in [
        "leaf_adsampling_simd_active_lane_evals",
        "leaf_ads_tiling_enabled",
        "leaf_ads_wavefront_pairmask_enabled",
        "leaf_ads_work_graph_enabled",
        "leaf_ads_handle_requeues",
        "leaf_ads_ewma_ns_per_row_by_bucket",
        "queued_work_ms_peak",
        "worker_busy_ms",
    ] {
        assert!(text.contains(&format!("\"{key}\"")), "missing {key}");
    }
    assert_eq!(json["stage_ms"]["reduce"], 33);
    assert_eq!(json["temp_files"]["candidate"]["bytes"], 24);
    assert_eq!(json["memory"]["rss_kb_samples"][1], 256);
    assert_eq!(json["io_uring"]["point_gather_bytes"], 4096);
    assert!(text.starts_with("{\n  \"num_points\": 32,\n  \"dim\": 8,\n"));
    assert!(text.ends_with("\n}\n"));
}
