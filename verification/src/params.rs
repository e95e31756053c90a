//! Build parameters.

use vstd::prelude::*;

use crate::arith::capped;
use crate::float_bits::F32;
use crate::metric::Metric;

verus! {

/// The memory budget of an out-of-core build that sets none, in bytes.
pub const DEFAULT_OOM_MEMORY_BUDGET_BYTES: u64 = 0x4_0000_0000;

/// How many threads read points for an out-of-core build.
pub const OOM_POINT_PIPELINE_IO_THREADS: usize = 8;

/// The deepest level whose points are assigned by adaptive sampling.
pub const ADS_DEPTH_MAX_DEPTH: usize = 2;

/// Leaders that are measured in full before sampling starts: at the root, below it and
/// within a leaf.
pub const ADS_ROOT_SEED_EXACT_M: usize = 8;

pub const ADS_DEPTH_SEED_EXACT_M: usize = 8;

pub const LEAF_ADSAMPLING_SEED_EXACT_M: usize = 8;

/// Fewer active lanes than this are computed one by one.
pub const ADS_SPARSE_FULL64_THRESHOLD: u32 = 8;

/// So are lanes of which no group has more than this.
pub const ADS_SPARSE_GROUP16_THRESHOLD: u32 = 4;

/// Products of points and leaders from which on an assignment counts as large or huge.
pub const ADS_LARGE_MIN_WORK: u64 = 500_000_000;

pub const ADS_HUGE_MIN_WORK: u64 = 4_000_000_000;

/// Points and leaders which together make an assignment large.
pub const ADS_LARGE_MIN_POINTS: usize = 300_000;

pub const ADS_LARGE_MIN_LEADERS: usize = 1_000;

/// What a graph build is told.
#[derive(Clone, Debug)]
pub struct ForgeANNParams {
    pub metric: Metric,
    pub random_seed: u64,
    /// Bits of a direction hash.
    pub m_hash_bits: usize,
    /// Slots of a reservoir.
    pub l_max: usize,
    /// Neighbours that each point of a leaf is connected to.
    pub leaf_knn: usize,
    pub fanout_top: usize,
    pub fanout_second: usize,
    pub c_min: usize,
    pub c_max: usize,
    pub max_depth: usize,
    pub max_leaders: usize,
    /// The largest leaf whose distances are held in one matrix.
    pub max_full_matrix_leaf_size: usize,
    pub view_lune_prune_enable: bool,
    pub root_adsampling_enable: bool,
    pub adsampling_rotation_ready: bool,
    pub adsampling_epsilon: F32,
    pub adsampling_group_dims: usize,
    pub leaf_ads_wavefront_pairmask_enable: bool,
    pub leaf_ads_tiling_enable: bool,
    pub leaf_ads_cpu_budget: usize,
    pub leaf_ads_target_tile_ms: u64,
    pub leaf_ads_min_tile_rows: usize,
    pub leaf_ads_max_tile_rows: usize,
    pub leaf_ads_split_threshold: usize,
    pub leaf_ads_work_graph_enable: bool,
    pub leaf_ads_work_graph_quantum_ms: u64,
    pub leaf_ads_work_graph_min_tile_rows: usize,
    pub leaf_ads_work_graph_max_tile_rows: usize,
    pub leaf_ads_work_graph_split_threshold: usize,
    /// Whether the build keeps its data in files.
    pub oom_enable: bool,
    /// Memory budget in bytes; 0 for the default.
    pub oom_memory_budget_bytes: usize,
    /// Bytes for sketches in memory; 0 for none.
    pub oom_sketch_cache_bytes: usize,
    /// Bytes for spilled candidates in memory; 0 for a share of the budget.
    pub oom_spill_cache_bytes: usize,
    /// Bytes for reservoirs in memory, where they are set.
    pub oom_resident_reservoir_cap_bytes: Option<usize>,
    pub oom_keep_artifacts: bool,
    pub oom_temp_dir: String,
    pub oom_sketch_temp_dir: String,
    pub oom_spill_temp_dir: String,
    pub oom_partition_temp_dir: String,
    pub oom_vector_temp_dir: String,
}

impl Default for ForgeANNParams {
    fn default() -> (params: Self)
        ensures
            params.metric == Metric::L2,
            params.random_seed == 42,
            params.m_hash_bits == 12,
            params.m_hash_bits <= 16,
            params.l_max == 64,
            params.leaf_knn == 2,
            params.fanout_top == 8,
            params.fanout_second == 3,
            params.c_min == 256,
            params.c_max == 1024,
            params.max_depth == 8,
            params.max_leaders == 1000,
            params.max_full_matrix_leaf_size == 3500,
            !params.view_lune_prune_enable,
            params.root_adsampling_enable,
            params.adsampling_rotation_ready,
            params.adsampling_epsilon == (F32 { bits: 0x4006_6666 }),
            params.adsampling_group_dims == 32,
            params.adsampling_group_dims > 0,
            !params.leaf_ads_wavefront_pairmask_enable,
            !params.leaf_ads_tiling_enable,
            params.leaf_ads_cpu_budget == 0,
            params.leaf_ads_target_tile_ms == 4,
            params.leaf_ads_min_tile_rows == 64,
            params.leaf_ads_max_tile_rows == 1024,
            params.leaf_ads_split_threshold == 1024,
            !params.leaf_ads_work_graph_enable,
            params.leaf_ads_work_graph_quantum_ms == 4,
            params.leaf_ads_work_graph_min_tile_rows == 64,
            params.leaf_ads_work_graph_max_tile_rows == 1024,
            params.leaf_ads_work_graph_split_threshold == 1024,
            !params.oom_enable,
            params.oom_memory_budget_bytes == 0,
            params.oom_sketch_cache_bytes == 0,
            params.oom_spill_cache_bytes == 0,
            params.oom_resident_reservoir_cap_bytes is None,
            !params.oom_keep_artifacts,
            params.oom_temp_dir@.len() == 0,
            params.oom_sketch_temp_dir@.len() == 0,
            params.oom_spill_temp_dir@.len() == 0,
            params.oom_partition_temp_dir@.len() == 0,
            params.oom_vector_temp_dir@.len() == 0,
    {
        ForgeANNParams {
            metric: Metric::L2,
            random_seed: 42,
            m_hash_bits: 12,
            l_max: 64,
            leaf_knn: 2,
            fanout_top: 8,
            fanout_second: 3,
            c_min: 256,
            c_max: 1024,
            max_depth: 8,
            max_leaders: 1000,
            max_full_matrix_leaf_size: 3500,
            view_lune_prune_enable: false,
            root_adsampling_enable: true,
            adsampling_rotation_ready: true,
            adsampling_epsilon: F32 { bits: 0x4006_6666 },
            adsampling_group_dims: 32,
            leaf_ads_wavefront_pairmask_enable: false,
            leaf_ads_tiling_enable: false,
            leaf_ads_cpu_budget: 0,
            leaf_ads_target_tile_ms: 4,
            leaf_ads_min_tile_rows: 64,
            leaf_ads_max_tile_rows: 1024,
            leaf_ads_split_threshold: 1024,
            leaf_ads_work_graph_enable: false,
            leaf_ads_work_graph_quantum_ms: 4,
            leaf_ads_work_graph_min_tile_rows: 64,
            leaf_ads_work_graph_max_tile_rows: 1024,
            leaf_ads_work_graph_split_threshold: 1024,
            oom_enable: false,
            oom_memory_budget_bytes: 0,
            oom_sketch_cache_bytes: 0,
            oom_spill_cache_bytes: 0,
            oom_resident_reservoir_cap_bytes: None,
            oom_keep_artifacts: false,
            oom_temp_dir: String::new(),
            oom_sketch_temp_dir: String::new(),
            oom_spill_temp_dir: String::new(),
            oom_partition_temp_dir: String::new(),
            oom_vector_temp_dir: String::new(),
        }
    }
}

impl ForgeANNParams {
    pub open spec fn memory_budget(self) -> int {
        if self.oom_memory_budget_bytes == 0 {
            capped(DEFAULT_OOM_MEMORY_BUDGET_BYTES as int)
        } else {
            self.oom_memory_budget_bytes as int
        }
    }

    /// The memory budget that is set, or the default one.
    pub fn effective_oom_memory_budget_bytes(&self) -> (bytes: usize)
        ensures
            bytes == self.memory_budget(),
    {
        if self.oom_memory_budget_bytes == 0 {
            if DEFAULT_OOM_MEMORY_BUDGET_BYTES > usize::MAX as u64 {
                usize::MAX
            } else {
                DEFAULT_OOM_MEMORY_BUDGET_BYTES as usize
            }
        } else {
            self.oom_memory_budget_bytes
        }
    }

    /// The largest leaf that the distance kernels take in one piece.
    pub fn kernel_safe_leaf_size(&self) -> (size: usize)
        ensures
            size == self.max_full_matrix_leaf_size,
    {
        self.max_full_matrix_leaf_size
    }

    /// Whether files are accessed past the page cache.
    pub fn strict_oom_io_enabled(&self) -> (enabled: bool)
        ensures
            enabled == self.oom_enable,
    {
        self.oom_enable
    }

    pub fn metric(&self) -> (metric: Metric)
        ensures
            metric == self.metric,
    {
        self.metric
    }

    pub fn root_adsampling_enabled(&self) -> (enabled: bool)
        ensures
            enabled == self.root_adsampling_enable,
    {
        self.root_adsampling_enable
    }

    pub fn adsampling_rotation_available(&self) -> (available: bool)
        ensures
            available == self.adsampling_rotation_ready,
    {
        self.adsampling_rotation_ready
    }
}

} // verus!
