pub mod ads_assign;
pub mod ads_config;
pub mod ads_layout;
pub mod ads_leaf;
pub mod ads_scan;
pub mod ads_topk;
pub mod ads_wavefront;
pub mod ann_result;
pub mod arith;
pub mod budget_laws;
pub mod cache_laws;
pub mod counter_laws;
pub mod direct_io;
pub mod direction;
pub mod disk_sketch;
pub mod env_config;
pub mod final_prune;
pub mod float_bits;
pub mod float_value;
pub mod gather;
pub mod graph_build;
pub mod graph_laws;
pub mod graph_stream;
pub mod hash_prune;
pub mod io_plan;
pub mod io_plan_laws;
pub mod io_runtime;
pub mod io_stats;
pub mod json_text;
pub mod lane_laws;
pub mod lane_mask;
pub mod le_bytes;
pub mod leaf_build;
pub mod leaf_laws;
pub mod leaf_profile;
pub mod leaf_route;
pub mod lune;
pub mod memory_plan;
pub mod metric;
pub mod oom_files;
pub mod oom_memory;
pub mod oom_profile;
pub mod order;
pub mod params;
pub mod planner_profile;
pub mod pool;
pub mod prune_laws;
pub mod reservoir_laws;
pub mod read_laws;
pub mod resident_prefix;
pub mod resident_subset;
pub mod rows;
pub mod sampling_laws;
pub mod scheduler;
pub mod selection_laws;
pub mod sketch;
pub mod sketch_build;
pub mod sketch_file;
pub mod sketch_gather;
pub mod sketch_read;
pub mod spill;
pub mod storage_laws;
pub mod tally_laws;
pub mod text;
pub mod text_laws;
pub mod topk;
pub mod wavefront_laws;
pub mod window_cache;
