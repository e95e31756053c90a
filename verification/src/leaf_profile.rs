//! What the work on leaves took.
//!
//! Times are in nanoseconds.

use vstd::prelude::*;

use crate::arith::{greatest, least, max_u64, max_usize, min_usize};
use crate::params::ForgeANNParams;

verus! {

/// Classes of leaf sizes.
pub const LEAF_SIZE_BUCKETS: usize = 5;

/// Classes of leaf sizes that row times are averaged over.
pub const LEAF_ADS_EWMA_BUCKETS: usize = 4;

/// The larger of both at each place.
pub open spec fn larger_each(a: Seq<u64>, b: Seq<u64>) -> Seq<u64> {
    Seq::new(a.len(), |i: int| greatest(a[i] as int, b[i] as int) as u64)
}

/// The smaller of two sizes of which 0 stands for none.
pub open spec fn least_present(a: int, b: int) -> int {
    if a == 0 {
        b
    } else if b == 0 {
        a
    } else {
        least(a, b)
    }
}

fn min_present(a: usize, b: usize) -> (m: usize)
    ensures
        m == least_present(a as int, b as int),
{
    if a == 0 {
        b
    } else if b == 0 {
        a
    } else {
        min_usize(a, b)
    }
}

fn raise_each(into: &mut [u64; 4], from: &[u64; 4])
    ensures
        final(into)@ == larger_each(old(into)@, from@),
{
    for i in 0..LEAF_ADS_EWMA_BUCKETS
        invariant
            into@.len() == 4,
            from@.len() == 4,
            old(into)@.len() == 4,
            forall|k: int| 0 <= k < i ==> #[trigger] into@[k] == larger_each(old(into)@, from@)[k],
            forall|k: int| i <= k < 4 ==> #[trigger] into@[k] == old(into)@[k],
    {
        let value: u64 = max_u64(into[i], from[i]);
        into[i] = value;
    }
    proof {
        assert(into@ =~= larger_each(old(into)@, from@));
    }
}

/// What sampling a leaf took.
#[derive(Clone, Copy, Debug)]
pub struct LeafAdSamplingTelemetry {
    pub layout: u64,
    pub seed: u64,
    pub scan: u64,
    pub seed_evals: u64,
    pub full_evals: u64,
    pub pruned_evals: u64,
    pub group_evals: u64,
    pub simd_group_calls: u64,
    pub simd_active_lane_evals: u64,
    pub scalar_group_evals: u64,
    pub wavefront_pairmask: bool,
    pub tiled: bool,
    pub work_graph: bool,
    pub tile_count: usize,
    pub tile_rows_total: usize,
    pub tile_rows_min: usize,
    pub tile_rows_max: usize,
    pub tile_wall: u64,
    pub tile_wait: u64,
    pub tile_handle_requeues: usize,
    pub cpu_budget: usize,
    pub active_context_peak: usize,
    pub active_workers_peak: usize,
    pub ewma_ns_per_row_by_bucket: [u64; 4],
}

impl LeafAdSamplingTelemetry {
    pub open spec fn is_zero(self) -> bool {
        &&& self.layout == 0
        &&& self.seed == 0
        &&& self.scan == 0
        &&& self.seed_evals == 0
        &&& self.full_evals == 0
        &&& self.pruned_evals == 0
        &&& self.group_evals == 0
        &&& self.simd_group_calls == 0
        &&& self.simd_active_lane_evals == 0
        &&& self.scalar_group_evals == 0
        &&& !self.wavefront_pairmask
        &&& !self.tiled
        &&& !self.work_graph
        &&& self.tile_count == 0
        &&& self.tile_rows_total == 0
        &&& self.tile_rows_min == 0
        &&& self.tile_rows_max == 0
        &&& self.tile_wall == 0
        &&& self.tile_wait == 0
        &&& self.tile_handle_requeues == 0
        &&& self.cpu_budget == 0
        &&& self.active_context_peak == 0
        &&& self.active_workers_peak == 0
        &&& self.ewma_ns_per_row_by_bucket@ == seq![0u64, 0, 0, 0]
    }
}

impl Default for LeafAdSamplingTelemetry {
    fn default() -> (zero: Self)
        ensures
            zero.is_zero(),
    {
        let zero: LeafAdSamplingTelemetry = LeafAdSamplingTelemetry {
            layout: 0,
            seed: 0,
            scan: 0,
            seed_evals: 0,
            full_evals: 0,
            pruned_evals: 0,
            group_evals: 0,
            simd_group_calls: 0,
            simd_active_lane_evals: 0,
            scalar_group_evals: 0,
            wavefront_pairmask: false,
            tiled: false,
            work_graph: false,
            tile_count: 0,
            tile_rows_total: 0,
            tile_rows_min: 0,
            tile_rows_max: 0,
            tile_wall: 0,
            tile_wait: 0,
            tile_handle_requeues: 0,
            cpu_budget: 0,
            active_context_peak: 0,
            active_workers_peak: 0,
            ewma_ns_per_row_by_bucket: [0, 0, 0, 0],
        };
        proof {
            assert(zero.ewma_ns_per_row_by_bucket@ =~= seq![0u64, 0, 0, 0]);
        }
        zero
    }
}

impl LeafAdSamplingTelemetry {
    /// Both together fit their counters.
    pub open spec fn mergeable(self, other: Self) -> bool {
        &&& self.layout + other.layout <= u64::MAX
        &&& self.seed + other.seed <= u64::MAX
        &&& self.scan + other.scan <= u64::MAX
        &&& self.seed_evals + other.seed_evals <= u64::MAX
        &&& self.full_evals + other.full_evals <= u64::MAX
        &&& self.pruned_evals + other.pruned_evals <= u64::MAX
        &&& self.group_evals + other.group_evals <= u64::MAX
        &&& self.simd_group_calls + other.simd_group_calls <= u64::MAX
        &&& self.simd_active_lane_evals + other.simd_active_lane_evals <= u64::MAX
        &&& self.scalar_group_evals + other.scalar_group_evals <= u64::MAX
        &&& self.tile_count + other.tile_count <= usize::MAX
        &&& self.tile_rows_total + other.tile_rows_total <= usize::MAX
        &&& self.tile_wall + other.tile_wall <= u64::MAX
        &&& self.tile_wait + other.tile_wait <= u64::MAX
        &&& self.tile_handle_requeues + other.tile_handle_requeues <= usize::MAX
    }

    /// Times and counters add up, flags stay set, peaks are the larger ones.
    pub open spec fn merges(self, a: Self, b: Self) -> bool {
        &&& self.layout == a.layout + b.layout
        &&& self.seed == a.seed + b.seed
        &&& self.scan == a.scan + b.scan
        &&& self.seed_evals == a.seed_evals + b.seed_evals
        &&& self.full_evals == a.full_evals + b.full_evals
        &&& self.pruned_evals == a.pruned_evals + b.pruned_evals
        &&& self.group_evals == a.group_evals + b.group_evals
        &&& self.simd_group_calls == a.simd_group_calls + b.simd_group_calls
        &&& self.simd_active_lane_evals == a.simd_active_lane_evals + b.simd_active_lane_evals
        &&& self.scalar_group_evals == a.scalar_group_evals + b.scalar_group_evals
        &&& self.tile_count == a.tile_count + b.tile_count
        &&& self.tile_rows_total == a.tile_rows_total + b.tile_rows_total
        &&& self.tile_wall == a.tile_wall + b.tile_wall
        &&& self.tile_wait == a.tile_wait + b.tile_wait
        &&& self.tile_handle_requeues == a.tile_handle_requeues + b.tile_handle_requeues
        &&& self.wavefront_pairmask == (a.wavefront_pairmask || b.wavefront_pairmask)
        &&& self.tiled == (a.tiled || b.tiled)
        &&& self.work_graph == (a.work_graph || b.work_graph)
        &&& self.tile_rows_max == greatest(a.tile_rows_max as int, b.tile_rows_max as int)
        &&& self.cpu_budget == greatest(a.cpu_budget as int, b.cpu_budget as int)
        &&& self.active_context_peak == greatest(
            a.active_context_peak as int,
            b.active_context_peak as int,
        )
        &&& self.active_workers_peak == greatest(
            a.active_workers_peak as int,
            b.active_workers_peak as int,
        )
        &&& self.tile_rows_min == least_present(a.tile_rows_min as int, b.tile_rows_min as int)
        &&& self.ewma_ns_per_row_by_bucket@ == larger_each(
            a.ewma_ns_per_row_by_bucket@,
            b.ewma_ns_per_row_by_bucket@,
        )
    }

    pub fn merge(&mut self, other: Self)
        requires
            old(self).mergeable(other),
        ensures
            final(self).merges(*old(self), other),
    {
        self.layout = self.layout + other.layout;
        self.seed = self.seed + other.seed;
        self.scan = self.scan + other.scan;
        self.seed_evals = self.seed_evals + other.seed_evals;
        self.full_evals = self.full_evals + other.full_evals;
        self.pruned_evals = self.pruned_evals + other.pruned_evals;
        self.group_evals = self.group_evals + other.group_evals;
        self.simd_group_calls = self.simd_group_calls + other.simd_group_calls;
        self.simd_active_lane_evals = self.simd_active_lane_evals + other.simd_active_lane_evals;
        self.scalar_group_evals = self.scalar_group_evals + other.scalar_group_evals;
        self.tile_count = self.tile_count + other.tile_count;
        self.tile_rows_total = self.tile_rows_total + other.tile_rows_total;
        self.tile_wall = self.tile_wall + other.tile_wall;
        self.tile_wait = self.tile_wait + other.tile_wait;
        self.tile_handle_requeues = self.tile_handle_requeues + other.tile_handle_requeues;
        self.wavefront_pairmask = self.wavefront_pairmask || other.wavefront_pairmask;
        self.tiled = self.tiled || other.tiled;
        self.work_graph = self.work_graph || other.work_graph;
        self.tile_rows_max = max_usize(self.tile_rows_max, other.tile_rows_max);
        self.cpu_budget = max_usize(self.cpu_budget, other.cpu_budget);
        self.active_context_peak = max_usize(self.active_context_peak, other.active_context_peak);
        self.active_workers_peak = max_usize(self.active_workers_peak, other.active_workers_peak);
        self.tile_rows_min = min_present(self.tile_rows_min, other.tile_rows_min);
        raise_each(&mut self.ewma_ns_per_row_by_bucket, &other.ewma_ns_per_row_by_bucket);
    }
}

impl LeafAdSamplingTelemetry {
    /// The time that went into distances.
    pub fn compute_time(&self) -> (time: u64)
        requires
            self.layout + self.seed + self.scan <= u64::MAX,
        ensures
            time == self.layout + self.seed + self.scan,
    {
        self.layout + self.seed + self.scan
    }
}

/// What the leaves of one class of sizes took.
#[derive(Clone, Copy, Debug)]
pub struct LeafSizeBucketProfile {
    pub leaves: usize,
    pub rows: usize,
    pub exact_leaves: usize,
    pub exact_rows: usize,
    pub exact_wall: u64,
    pub exact_distance: u64,
    pub exact_topk: u64,
    pub adsampling_leaves: usize,
    pub adsampling_rows: usize,
    pub adsampling_wall: u64,
    pub adsampling_layout: u64,
    pub adsampling_seed: u64,
    pub adsampling_scan: u64,
    pub adsampling_seed_evals: u64,
    pub adsampling_full_evals: u64,
    pub adsampling_pruned_evals: u64,
    pub adsampling_group_evals: u64,
    pub adsampling_simd_group_calls: u64,
    pub adsampling_simd_active_lane_evals: u64,
    pub adsampling_scalar_group_evals: u64,
}

impl LeafSizeBucketProfile {
    pub open spec fn is_zero(self) -> bool {
        &&& self.leaves == 0
        &&& self.rows == 0
        &&& self.exact_leaves == 0
        &&& self.exact_rows == 0
        &&& self.exact_wall == 0
        &&& self.exact_distance == 0
        &&& self.exact_topk == 0
        &&& self.adsampling_leaves == 0
        &&& self.adsampling_rows == 0
        &&& self.adsampling_wall == 0
        &&& self.adsampling_layout == 0
        &&& self.adsampling_seed == 0
        &&& self.adsampling_scan == 0
        &&& self.adsampling_seed_evals == 0
        &&& self.adsampling_full_evals == 0
        &&& self.adsampling_pruned_evals == 0
        &&& self.adsampling_group_evals == 0
        &&& self.adsampling_simd_group_calls == 0
        &&& self.adsampling_simd_active_lane_evals == 0
        &&& self.adsampling_scalar_group_evals == 0
    }
}

impl Default for LeafSizeBucketProfile {
    fn default() -> (zero: Self)
        ensures
            zero.is_zero(),
    {
        let zero: LeafSizeBucketProfile = LeafSizeBucketProfile {
            leaves: 0,
            rows: 0,
            exact_leaves: 0,
            exact_rows: 0,
            exact_wall: 0,
            exact_distance: 0,
            exact_topk: 0,
            adsampling_leaves: 0,
            adsampling_rows: 0,
            adsampling_wall: 0,
            adsampling_layout: 0,
            adsampling_seed: 0,
            adsampling_scan: 0,
            adsampling_seed_evals: 0,
            adsampling_full_evals: 0,
            adsampling_pruned_evals: 0,
            adsampling_group_evals: 0,
            adsampling_simd_group_calls: 0,
            adsampling_simd_active_lane_evals: 0,
            adsampling_scalar_group_evals: 0,
        };
        zero
    }
}

impl LeafSizeBucketProfile {
    /// Both together fit their counters.
    pub open spec fn mergeable(self, other: Self) -> bool {
        &&& self.leaves + other.leaves <= usize::MAX
        &&& self.rows + other.rows <= usize::MAX
        &&& self.exact_leaves + other.exact_leaves <= usize::MAX
        &&& self.exact_rows + other.exact_rows <= usize::MAX
        &&& self.exact_wall + other.exact_wall <= u64::MAX
        &&& self.exact_distance + other.exact_distance <= u64::MAX
        &&& self.exact_topk + other.exact_topk <= u64::MAX
        &&& self.adsampling_leaves + other.adsampling_leaves <= usize::MAX
        &&& self.adsampling_rows + other.adsampling_rows <= usize::MAX
        &&& self.adsampling_wall + other.adsampling_wall <= u64::MAX
        &&& self.adsampling_layout + other.adsampling_layout <= u64::MAX
        &&& self.adsampling_seed + other.adsampling_seed <= u64::MAX
        &&& self.adsampling_scan + other.adsampling_scan <= u64::MAX
        &&& self.adsampling_seed_evals + other.adsampling_seed_evals <= u64::MAX
        &&& self.adsampling_full_evals + other.adsampling_full_evals <= u64::MAX
        &&& self.adsampling_pruned_evals + other.adsampling_pruned_evals <= u64::MAX
        &&& self.adsampling_group_evals + other.adsampling_group_evals <= u64::MAX
        &&& self.adsampling_simd_group_calls + other.adsampling_simd_group_calls <= u64::MAX
        &&& self.adsampling_simd_active_lane_evals + other.adsampling_simd_active_lane_evals
            <= u64::MAX
        &&& self.adsampling_scalar_group_evals + other.adsampling_scalar_group_evals <= u64::MAX
    }

    /// Everything adds up.
    pub open spec fn merges(self, a: Self, b: Self) -> bool {
        &&& self.leaves == a.leaves + b.leaves
        &&& self.rows == a.rows + b.rows
        &&& self.exact_leaves == a.exact_leaves + b.exact_leaves
        &&& self.exact_rows == a.exact_rows + b.exact_rows
        &&& self.exact_wall == a.exact_wall + b.exact_wall
        &&& self.exact_distance == a.exact_distance + b.exact_distance
        &&& self.exact_topk == a.exact_topk + b.exact_topk
        &&& self.adsampling_leaves == a.adsampling_leaves + b.adsampling_leaves
        &&& self.adsampling_rows == a.adsampling_rows + b.adsampling_rows
        &&& self.adsampling_wall == a.adsampling_wall + b.adsampling_wall
        &&& self.adsampling_layout == a.adsampling_layout + b.adsampling_layout
        &&& self.adsampling_seed == a.adsampling_seed + b.adsampling_seed
        &&& self.adsampling_scan == a.adsampling_scan + b.adsampling_scan
        &&& self.adsampling_seed_evals == a.adsampling_seed_evals + b.adsampling_seed_evals
        &&& self.adsampling_full_evals == a.adsampling_full_evals + b.adsampling_full_evals
        &&& self.adsampling_pruned_evals == a.adsampling_pruned_evals + b.adsampling_pruned_evals
        &&& self.adsampling_group_evals == a.adsampling_group_evals + b.adsampling_group_evals
        &&& self.adsampling_simd_group_calls == a.adsampling_simd_group_calls
            + b.adsampling_simd_group_calls
        &&& self.adsampling_simd_active_lane_evals == a.adsampling_simd_active_lane_evals
            + b.adsampling_simd_active_lane_evals
        &&& self.adsampling_scalar_group_evals == a.adsampling_scalar_group_evals
            + b.adsampling_scalar_group_evals
    }

    pub fn merge(&mut self, other: Self)
        requires
            old(self).mergeable(other),
        ensures
            final(self).merges(*old(self), other),
    {
        self.leaves = self.leaves + other.leaves;
        self.rows = self.rows + other.rows;
        self.exact_leaves = self.exact_leaves + other.exact_leaves;
        self.exact_rows = self.exact_rows + other.exact_rows;
        self.exact_wall = self.exact_wall + other.exact_wall;
        self.exact_distance = self.exact_distance + other.exact_distance;
        self.exact_topk = self.exact_topk + other.exact_topk;
        self.adsampling_leaves = self.adsampling_leaves + other.adsampling_leaves;
        self.adsampling_rows = self.adsampling_rows + other.adsampling_rows;
        self.adsampling_wall = self.adsampling_wall + other.adsampling_wall;
        self.adsampling_layout = self.adsampling_layout + other.adsampling_layout;
        self.adsampling_seed = self.adsampling_seed + other.adsampling_seed;
        self.adsampling_scan = self.adsampling_scan + other.adsampling_scan;
        self.adsampling_seed_evals = self.adsampling_seed_evals + other.adsampling_seed_evals;
        self.adsampling_full_evals = self.adsampling_full_evals + other.adsampling_full_evals;
        self.adsampling_pruned_evals = self.adsampling_pruned_evals + other.adsampling_pruned_evals;
        self.adsampling_group_evals = self.adsampling_group_evals + other.adsampling_group_evals;
        self.adsampling_simd_group_calls = self.adsampling_simd_group_calls
            + other.adsampling_simd_group_calls;
        self.adsampling_simd_active_lane_evals = self.adsampling_simd_active_lane_evals
            + other.adsampling_simd_active_lane_evals;
        self.adsampling_scalar_group_evals = self.adsampling_scalar_group_evals
            + other.adsampling_scalar_group_evals;
    }
}

fn merge_buckets(into: &mut [LeafSizeBucketProfile; 5], from: &[LeafSizeBucketProfile; 5])
    requires
        forall|i: int|
            0 <= i < LEAF_SIZE_BUCKETS ==> (#[trigger] old(into)@[i]).mergeable(from@[i]),
    ensures
        forall|i: int|
            0 <= i < LEAF_SIZE_BUCKETS ==> (#[trigger] final(into)@[i]).merges(
                old(into)@[i],
                from@[i],
            ),
{
    for i in 0..LEAF_SIZE_BUCKETS
        invariant
            into@.len() == 5,
            from@.len() == 5,
            old(into)@.len() == 5,
            forall|k: int|
                0 <= k < LEAF_SIZE_BUCKETS ==> (#[trigger] old(into)@[k]).mergeable(from@[k]),
            forall|k: int|
                0 <= k < i ==> (#[trigger] into@[k]).merges(old(into)@[k], from@[k]),
            forall|k: int| i <= k < 5 ==> #[trigger] into@[k] == old(into)@[k],
    {
        let mut bucket: LeafSizeBucketProfile = into[i];
        proof {
            assert(old(into)@[i as int].mergeable(from@[i as int]));
        }
        bucket.merge(from[i]);
        into[i] = bucket;
    }
}

/// The class of a leaf's size; small leaves have none.
pub open spec fn size_bucket(leaf_size: int) -> Option<usize> {
    if leaf_size < 256 {
        None
    } else if leaf_size < 512 {
        Some(0)
    } else if leaf_size < 1024 {
        Some(1)
    } else if leaf_size < 2048 {
        Some(2)
    } else if leaf_size < 4096 {
        Some(3)
    } else {
        Some(4)
    }
}

pub fn leaf_size_bucket_index(leaf_size: usize) -> (bucket: Option<usize>)
    ensures
        bucket == size_bucket(leaf_size as int),
{
    if leaf_size < 256 {
        None
    } else if leaf_size < 512 {
        Some(0)
    } else if leaf_size < 1024 {
        Some(1)
    } else if leaf_size < 2048 {
        Some(2)
    } else if leaf_size < 4096 {
        Some(3)
    } else {
        Some(4)
    }
}

/// The name of a class of sizes.
pub fn leaf_size_bucket_label(bucket: usize) -> (label: &'static str)
    ensures
        label@ == bucket_label(bucket as int),
{
    if bucket == 0 {
        "[256,512)"
    } else if bucket == 1 {
        "[512,1024)"
    } else if bucket == 2 {
        "[1024,2048)"
    } else if bucket == 3 {
        "[2048,4096)"
    } else if bucket == 4 {
        ">=4096"
    } else {
        "unknown"
    }
}

pub open spec fn bucket_label(bucket: int) -> Seq<char> {
    if bucket == 0 {
        "[256,512)"@
    } else if bucket == 1 {
        "[512,1024)"@
    } else if bucket == 2 {
        "[1024,2048)"@
    } else if bucket == 3 {
        "[2048,4096)"@
    } else if bucket == 4 {
        ">=4096"@
    } else {
        "unknown"@
    }
}

/// What the work on leaves took.
#[derive(Clone, Copy, Debug)]
pub struct LeafProfile {
    pub total_wall: u64,
    pub load: u64,
    pub distance: u64,
    pub topk: u64,
    pub hash: u64,
    pub flush: u64,
    pub leaves: usize,
    pub points: usize,
    pub blockwise_leaves: usize,
    pub point_calls: u64,
    pub range_calls: u64,
    pub range_rows_read: u64,
    pub bytes_read: u64,
    pub sketch_prefetch: u64,
    pub sketch_rows_prefetched: usize,
    pub lune_witness_emit: u64,
    pub lune_witness_records: usize,
    pub leaf_adsampling_leaves: usize,
    pub leaf_adsampling_rows: usize,
    pub leaf_adsampling_layout: u64,
    pub leaf_adsampling_seed: u64,
    pub leaf_adsampling_scan: u64,
    pub leaf_adsampling_seed_evals: u64,
    pub leaf_adsampling_full_evals: u64,
    pub leaf_adsampling_pruned_evals: u64,
    pub leaf_adsampling_group_evals: u64,
    pub leaf_adsampling_simd_group_calls: u64,
    pub leaf_adsampling_simd_active_lane_evals: u64,
    pub leaf_adsampling_scalar_group_evals: u64,
    pub leaf_ads_tiling_enabled: bool,
    pub leaf_ads_wavefront_pairmask_enabled: bool,
    pub leaf_ads_work_graph_enabled: bool,
    pub leaf_ads_tiled_leaves: usize,
    pub leaf_ads_tiled_rows: usize,
    pub leaf_ads_tiles: usize,
    pub leaf_ads_tile_rows_total: usize,
    pub leaf_ads_tile_rows_min: usize,
    pub leaf_ads_tile_rows_max: usize,
    pub leaf_ads_tile_wall: u64,
    pub leaf_ads_tile_wait: u64,
    pub leaf_ads_handle_requeues: usize,
    pub leaf_ads_cpu_budget: usize,
    pub leaf_ads_active_context_peak: usize,
    pub leaf_ads_active_workers_peak: usize,
    pub leaf_ads_ewma_ns_per_row_by_bucket: [u64; 4],
    pub leaf_size_buckets: [LeafSizeBucketProfile; 5],
}

impl LeafProfile {
    pub open spec fn is_zero(self) -> bool {
        &&& self.total_wall == 0
        &&& self.load == 0
        &&& self.distance == 0
        &&& self.topk == 0
        &&& self.hash == 0
        &&& self.flush == 0
        &&& self.leaves == 0
        &&& self.points == 0
        &&& self.blockwise_leaves == 0
        &&& self.point_calls == 0
        &&& self.range_calls == 0
        &&& self.range_rows_read == 0
        &&& self.bytes_read == 0
        &&& self.sketch_prefetch == 0
        &&& self.sketch_rows_prefetched == 0
        &&& self.lune_witness_emit == 0
        &&& self.lune_witness_records == 0
        &&& self.leaf_adsampling_leaves == 0
        &&& self.leaf_adsampling_rows == 0
        &&& self.leaf_adsampling_layout == 0
        &&& self.leaf_adsampling_seed == 0
        &&& self.leaf_adsampling_scan == 0
        &&& self.leaf_adsampling_seed_evals == 0
        &&& self.leaf_adsampling_full_evals == 0
        &&& self.leaf_adsampling_pruned_evals == 0
        &&& self.leaf_adsampling_group_evals == 0
        &&& self.leaf_adsampling_simd_group_calls == 0
        &&& self.leaf_adsampling_simd_active_lane_evals == 0
        &&& self.leaf_adsampling_scalar_group_evals == 0
        &&& !self.leaf_ads_tiling_enabled
        &&& !self.leaf_ads_wavefront_pairmask_enabled
        &&& !self.leaf_ads_work_graph_enabled
        &&& self.leaf_ads_tiled_leaves == 0
        &&& self.leaf_ads_tiled_rows == 0
        &&& self.leaf_ads_tiles == 0
        &&& self.leaf_ads_tile_rows_total == 0
        &&& self.leaf_ads_tile_rows_min == 0
        &&& self.leaf_ads_tile_rows_max == 0
        &&& self.leaf_ads_tile_wall == 0
        &&& self.leaf_ads_tile_wait == 0
        &&& self.leaf_ads_handle_requeues == 0
        &&& self.leaf_ads_cpu_budget == 0
        &&& self.leaf_ads_active_context_peak == 0
        &&& self.leaf_ads_active_workers_peak == 0
        &&& self.leaf_ads_ewma_ns_per_row_by_bucket@ == seq![0u64, 0, 0, 0]
        &&& forall|i: int| 0 <= i < 5 ==> (#[trigger] self.leaf_size_buckets@[i]).is_zero()
    }
}

impl Default for LeafProfile {
    fn default() -> (zero: Self)
        ensures
            zero.is_zero(),
    {
        let empty: LeafSizeBucketProfile = LeafSizeBucketProfile::default();
        let zero: LeafProfile = LeafProfile {
            total_wall: 0,
            load: 0,
            distance: 0,
            topk: 0,
            hash: 0,
            flush: 0,
            leaves: 0,
            points: 0,
            blockwise_leaves: 0,
            point_calls: 0,
            range_calls: 0,
            range_rows_read: 0,
            bytes_read: 0,
            sketch_prefetch: 0,
            sketch_rows_prefetched: 0,
            lune_witness_emit: 0,
            lune_witness_records: 0,
            leaf_adsampling_leaves: 0,
            leaf_adsampling_rows: 0,
            leaf_adsampling_layout: 0,
            leaf_adsampling_seed: 0,
            leaf_adsampling_scan: 0,
            leaf_adsampling_seed_evals: 0,
            leaf_adsampling_full_evals: 0,
            leaf_adsampling_pruned_evals: 0,
            leaf_adsampling_group_evals: 0,
            leaf_adsampling_simd_group_calls: 0,
            leaf_adsampling_simd_active_lane_evals: 0,
            leaf_adsampling_scalar_group_evals: 0,
            leaf_ads_tiling_enabled: false,
            leaf_ads_wavefront_pairmask_enabled: false,
            leaf_ads_work_graph_enabled: false,
            leaf_ads_tiled_leaves: 0,
            leaf_ads_tiled_rows: 0,
            leaf_ads_tiles: 0,
            leaf_ads_tile_rows_total: 0,
            leaf_ads_tile_rows_min: 0,
            leaf_ads_tile_rows_max: 0,
            leaf_ads_tile_wall: 0,
            leaf_ads_tile_wait: 0,
            leaf_ads_handle_requeues: 0,
            leaf_ads_cpu_budget: 0,
            leaf_ads_active_context_peak: 0,
            leaf_ads_active_workers_peak: 0,
            leaf_ads_ewma_ns_per_row_by_bucket: [0, 0, 0, 0],
            leaf_size_buckets: [empty, empty, empty, empty, empty],
        };
        proof {
            assert(zero.leaf_ads_ewma_ns_per_row_by_bucket@ =~= seq![0u64, 0, 0, 0]);
        }
        zero
    }
}

impl LeafProfile {
    /// Both together fit their counters.
    pub open spec fn mergeable(self, other: Self) -> bool {
        &&& self.total_wall + other.total_wall <= u64::MAX
        &&& self.load + other.load <= u64::MAX
        &&& self.distance + other.distance <= u64::MAX
        &&& self.topk + other.topk <= u64::MAX
        &&& self.hash + other.hash <= u64::MAX
        &&& self.flush + other.flush <= u64::MAX
        &&& self.leaves + other.leaves <= usize::MAX
        &&& self.points + other.points <= usize::MAX
        &&& self.blockwise_leaves + other.blockwise_leaves <= usize::MAX
        &&& self.point_calls + other.point_calls <= u64::MAX
        &&& self.range_calls + other.range_calls <= u64::MAX
        &&& self.range_rows_read + other.range_rows_read <= u64::MAX
        &&& self.bytes_read + other.bytes_read <= u64::MAX
        &&& self.sketch_prefetch + other.sketch_prefetch <= u64::MAX
        &&& self.sketch_rows_prefetched + other.sketch_rows_prefetched <= usize::MAX
        &&& self.lune_witness_emit + other.lune_witness_emit <= u64::MAX
        &&& self.lune_witness_records + other.lune_witness_records <= usize::MAX
        &&& self.leaf_adsampling_leaves + other.leaf_adsampling_leaves <= usize::MAX
        &&& self.leaf_adsampling_rows + other.leaf_adsampling_rows <= usize::MAX
        &&& self.leaf_adsampling_layout + other.leaf_adsampling_layout <= u64::MAX
        &&& self.leaf_adsampling_seed + other.leaf_adsampling_seed <= u64::MAX
        &&& self.leaf_adsampling_scan + other.leaf_adsampling_scan <= u64::MAX
        &&& self.leaf_adsampling_seed_evals + other.leaf_adsampling_seed_evals <= u64::MAX
        &&& self.leaf_adsampling_full_evals + other.leaf_adsampling_full_evals <= u64::MAX
        &&& self.leaf_adsampling_pruned_evals + other.leaf_adsampling_pruned_evals <= u64::MAX
        &&& self.leaf_adsampling_group_evals + other.leaf_adsampling_group_evals <= u64::MAX
        &&& self.leaf_adsampling_simd_group_calls + other.leaf_adsampling_simd_group_calls
            <= u64::MAX
        &&& self.leaf_adsampling_simd_active_lane_evals
            + other.leaf_adsampling_simd_active_lane_evals <= u64::MAX
        &&& self.leaf_adsampling_scalar_group_evals + other.leaf_adsampling_scalar_group_evals
            <= u64::MAX
        &&& self.leaf_ads_tiled_leaves + other.leaf_ads_tiled_leaves <= usize::MAX
        &&& self.leaf_ads_tiled_rows + other.leaf_ads_tiled_rows <= usize::MAX
        &&& self.leaf_ads_tiles + other.leaf_ads_tiles <= usize::MAX
        &&& self.leaf_ads_tile_rows_total + other.leaf_ads_tile_rows_total <= usize::MAX
        &&& self.leaf_ads_tile_wall + other.leaf_ads_tile_wall <= u64::MAX
        &&& self.leaf_ads_tile_wait + other.leaf_ads_tile_wait <= u64::MAX
        &&& self.leaf_ads_handle_requeues + other.leaf_ads_handle_requeues <= usize::MAX
        &&& forall|i: int|
            0 <= i < LEAF_SIZE_BUCKETS ==> (#[trigger] self.leaf_size_buckets@[i]).mergeable(
                other.leaf_size_buckets@[i],
            )
    }

    /// Times and counters add up, flags stay set, peaks are the larger ones.
    pub open spec fn merges(self, a: Self, b: Self) -> bool {
        &&& self.total_wall == a.total_wall + b.total_wall
        &&& self.load == a.load + b.load
        &&& self.distance == a.distance + b.distance
        &&& self.topk == a.topk + b.topk
        &&& self.hash == a.hash + b.hash
        &&& self.flush == a.flush + b.flush
        &&& self.leaves == a.leaves + b.leaves
        &&& self.points == a.points + b.points
        &&& self.blockwise_leaves == a.blockwise_leaves + b.blockwise_leaves
        &&& self.point_calls == a.point_calls + b.point_calls
        &&& self.range_calls == a.range_calls + b.range_calls
        &&& self.range_rows_read == a.range_rows_read + b.range_rows_read
        &&& self.bytes_read == a.bytes_read + b.bytes_read
        &&& self.sketch_prefetch == a.sketch_prefetch + b.sketch_prefetch
        &&& self.sketch_rows_prefetched == a.sketch_rows_prefetched + b.sketch_rows_prefetched
        &&& self.lune_witness_emit == a.lune_witness_emit + b.lune_witness_emit
        &&& self.lune_witness_records == a.lune_witness_records + b.lune_witness_records
        &&& self.leaf_adsampling_leaves == a.leaf_adsampling_leaves + b.leaf_adsampling_leaves
        &&& self.leaf_adsampling_rows == a.leaf_adsampling_rows + b.leaf_adsampling_rows
        &&& self.leaf_adsampling_layout == a.leaf_adsampling_layout + b.leaf_adsampling_layout
        &&& self.leaf_adsampling_seed == a.leaf_adsampling_seed + b.leaf_adsampling_seed
        &&& self.leaf_adsampling_scan == a.leaf_adsampling_scan + b.leaf_adsampling_scan
        &&& self.leaf_adsampling_seed_evals == a.leaf_adsampling_seed_evals
            + b.leaf_adsampling_seed_evals
        &&& self.leaf_adsampling_full_evals == a.leaf_adsampling_full_evals
            + b.leaf_adsampling_full_evals
        &&& self.leaf_adsampling_pruned_evals == a.leaf_adsampling_pruned_evals
            + b.leaf_adsampling_pruned_evals
        &&& self.leaf_adsampling_group_evals == a.leaf_adsampling_group_evals
            + b.leaf_adsampling_group_evals
        &&& self.leaf_adsampling_simd_group_calls == a.leaf_adsampling_simd_group_calls
            + b.leaf_adsampling_simd_group_calls
        &&& self.leaf_adsampling_simd_active_lane_evals
            == a.leaf_adsampling_simd_active_lane_evals + b.leaf_adsampling_simd_active_lane_evals
        &&& self.leaf_adsampling_scalar_group_evals == a.leaf_adsampling_scalar_group_evals
            + b.leaf_adsampling_scalar_group_evals
        &&& self.leaf_ads_tiled_leaves == a.leaf_ads_tiled_leaves + b.leaf_ads_tiled_leaves
        &&& self.leaf_ads_tiled_rows == a.leaf_ads_tiled_rows + b.leaf_ads_tiled_rows
        &&& self.leaf_ads_tiles == a.leaf_ads_tiles + b.leaf_ads_tiles
        &&& self.leaf_ads_tile_rows_total == a.leaf_ads_tile_rows_total + b.leaf_ads_tile_rows_total
        &&& self.leaf_ads_tile_wall == a.leaf_ads_tile_wall + b.leaf_ads_tile_wall
        &&& self.leaf_ads_tile_wait == a.leaf_ads_tile_wait + b.leaf_ads_tile_wait
        &&& self.leaf_ads_handle_requeues == a.leaf_ads_handle_requeues + b.leaf_ads_handle_requeues
        &&& self.leaf_ads_tiling_enabled == (a.leaf_ads_tiling_enabled || b.leaf_ads_tiling_enabled)
        &&& self.leaf_ads_wavefront_pairmask_enabled == (a.leaf_ads_wavefront_pairmask_enabled
            || b.leaf_ads_wavefront_pairmask_enabled)
        &&& self.leaf_ads_work_graph_enabled == (a.leaf_ads_work_graph_enabled
            || b.leaf_ads_work_graph_enabled)
        &&& self.leaf_ads_tile_rows_max == greatest(
            a.leaf_ads_tile_rows_max as int,
            b.leaf_ads_tile_rows_max as int,
        )
        &&& self.leaf_ads_cpu_budget == greatest(
            a.leaf_ads_cpu_budget as int,
            b.leaf_ads_cpu_budget as int,
        )
        &&& self.leaf_ads_active_context_peak == greatest(
            a.leaf_ads_active_context_peak as int,
            b.leaf_ads_active_context_peak as int,
        )
        &&& self.leaf_ads_active_workers_peak == greatest(
            a.leaf_ads_active_workers_peak as int,
            b.leaf_ads_active_workers_peak as int,
        )
        &&& self.leaf_ads_tile_rows_min == least_present(
            a.leaf_ads_tile_rows_min as int,
            b.leaf_ads_tile_rows_min as int,
        )
        &&& self.leaf_ads_ewma_ns_per_row_by_bucket@ == larger_each(
            a.leaf_ads_ewma_ns_per_row_by_bucket@,
            b.leaf_ads_ewma_ns_per_row_by_bucket@,
        )
        &&& forall|i: int|
            0 <= i < LEAF_SIZE_BUCKETS ==> (#[trigger] self.leaf_size_buckets@[i]).merges(
                a.leaf_size_buckets@[i],
                b.leaf_size_buckets@[i],
            )
    }

    pub fn merge(&mut self, other: Self)
        requires
            old(self).mergeable(other),
        ensures
            final(self).merges(*old(self), other),
    {
        self.total_wall = self.total_wall + other.total_wall;
        self.load = self.load + other.load;
        self.distance = self.distance + other.distance;
        self.topk = self.topk + other.topk;
        self.hash = self.hash + other.hash;
        self.flush = self.flush + other.flush;
        self.leaves = self.leaves + other.leaves;
        self.points = self.points + other.points;
        self.blockwise_leaves = self.blockwise_leaves + other.blockwise_leaves;
        self.point_calls = self.point_calls + other.point_calls;
        self.range_calls = self.range_calls + other.range_calls;
        self.range_rows_read = self.range_rows_read + other.range_rows_read;
        self.bytes_read = self.bytes_read + other.bytes_read;
        self.sketch_prefetch = self.sketch_prefetch + other.sketch_prefetch;
        self.sketch_rows_prefetched = self.sketch_rows_prefetched + other.sketch_rows_prefetched;
        self.lune_witness_emit = self.lune_witness_emit + other.lune_witness_emit;
        self.lune_witness_records = self.lune_witness_records + other.lune_witness_records;
        self.leaf_adsampling_leaves = self.leaf_adsampling_leaves + other.leaf_adsampling_leaves;
        self.leaf_adsampling_rows = self.leaf_adsampling_rows + other.leaf_adsampling_rows;
        self.leaf_adsampling_layout = self.leaf_adsampling_layout + other.leaf_adsampling_layout;
        self.leaf_adsampling_seed = self.leaf_adsampling_seed + other.leaf_adsampling_seed;
        self.leaf_adsampling_scan = self.leaf_adsampling_scan + other.leaf_adsampling_scan;
        self.leaf_adsampling_seed_evals = self.leaf_adsampling_seed_evals
            + other.leaf_adsampling_seed_evals;
        self.leaf_adsampling_full_evals = self.leaf_adsampling_full_evals
            + other.leaf_adsampling_full_evals;
        self.leaf_adsampling_pruned_evals = self.leaf_adsampling_pruned_evals
            + other.leaf_adsampling_pruned_evals;
        self.leaf_adsampling_group_evals = self.leaf_adsampling_group_evals
            + other.leaf_adsampling_group_evals;
        self.leaf_adsampling_simd_group_calls = self.leaf_adsampling_simd_group_calls
            + other.leaf_adsampling_simd_group_calls;
        self.leaf_adsampling_simd_active_lane_evals = self.leaf_adsampling_simd_active_lane_evals + other.leaf_adsampling_simd_active_lane_evals;
        self.leaf_adsampling_scalar_group_evals = self.leaf_adsampling_scalar_group_evals
            + other.leaf_adsampling_scalar_group_evals;
        self.leaf_ads_tiled_leaves = self.leaf_ads_tiled_leaves + other.leaf_ads_tiled_leaves;
        self.leaf_ads_tiled_rows = self.leaf_ads_tiled_rows + other.leaf_ads_tiled_rows;
        self.leaf_ads_tiles = self.leaf_ads_tiles + other.leaf_ads_tiles;
        self.leaf_ads_tile_rows_total = self.leaf_ads_tile_rows_total
            + other.leaf_ads_tile_rows_total;
        self.leaf_ads_tile_wall = self.leaf_ads_tile_wall + other.leaf_ads_tile_wall;
        self.leaf_ads_tile_wait = self.leaf_ads_tile_wait + other.leaf_ads_tile_wait;
        self.leaf_ads_handle_requeues = self.leaf_ads_handle_requeues
            + other.leaf_ads_handle_requeues;
        self.leaf_ads_tiling_enabled = self.leaf_ads_tiling_enabled
            || other.leaf_ads_tiling_enabled;
        self.leaf_ads_wavefront_pairmask_enabled = self.leaf_ads_wavefront_pairmask_enabled
            || other.leaf_ads_wavefront_pairmask_enabled;
        self.leaf_ads_work_graph_enabled = self.leaf_ads_work_graph_enabled
            || other.leaf_ads_work_graph_enabled;
        self.leaf_ads_tile_rows_max = max_usize(
            self.leaf_ads_tile_rows_max,
            other.leaf_ads_tile_rows_max,
        );
        self.leaf_ads_cpu_budget = max_usize(self.leaf_ads_cpu_budget, other.leaf_ads_cpu_budget);
        self.leaf_ads_active_context_peak = max_usize(
            self.leaf_ads_active_context_peak,
            other.leaf_ads_active_context_peak,
        );
        self.leaf_ads_active_workers_peak = max_usize(
            self.leaf_ads_active_workers_peak,
            other.leaf_ads_active_workers_peak,
        );
        self.leaf_ads_tile_rows_min = min_present(
            self.leaf_ads_tile_rows_min,
            other.leaf_ads_tile_rows_min,
        );
        raise_each(
            &mut self.leaf_ads_ewma_ns_per_row_by_bucket,
            &other.leaf_ads_ewma_ns_per_row_by_bucket,
        );
        merge_buckets(&mut self.leaf_size_buckets, &other.leaf_size_buckets);
    }
}

impl LeafProfile {
    /// The profile of one sampled leaf, for itself.
    pub open spec fn is_sampled_leaf(
        self,
        leaf_size: int,
        telemetry: LeafAdSamplingTelemetry,
    ) -> bool {
        &&& self.leaf_adsampling_layout == telemetry.layout
        &&& self.leaf_adsampling_seed == telemetry.seed
        &&& self.leaf_adsampling_scan == telemetry.scan
        &&& self.leaf_adsampling_seed_evals == telemetry.seed_evals
        &&& self.leaf_adsampling_full_evals == telemetry.full_evals
        &&& self.leaf_adsampling_pruned_evals == telemetry.pruned_evals
        &&& self.leaf_adsampling_group_evals == telemetry.group_evals
        &&& self.leaf_adsampling_simd_group_calls == telemetry.simd_group_calls
        &&& self.leaf_adsampling_simd_active_lane_evals == telemetry.simd_active_lane_evals
        &&& self.leaf_adsampling_scalar_group_evals == telemetry.scalar_group_evals
        &&& self.leaf_ads_tiles == telemetry.tile_count
        &&& self.leaf_ads_tile_rows_total == telemetry.tile_rows_total
        &&& self.leaf_ads_tile_wall == telemetry.tile_wall
        &&& self.leaf_ads_tile_wait == telemetry.tile_wait
        &&& self.leaf_ads_handle_requeues == telemetry.tile_handle_requeues
        &&& self.leaf_ads_tiling_enabled == telemetry.tiled
        &&& self.leaf_ads_wavefront_pairmask_enabled == telemetry.wavefront_pairmask
        &&& self.leaf_ads_work_graph_enabled == telemetry.work_graph
        &&& self.leaf_ads_tile_rows_min == telemetry.tile_rows_min
        &&& self.leaf_ads_tile_rows_max == telemetry.tile_rows_max
        &&& self.leaf_ads_cpu_budget == telemetry.cpu_budget
        &&& self.leaf_ads_active_context_peak == telemetry.active_context_peak
        &&& self.leaf_ads_active_workers_peak == telemetry.active_workers_peak
        &&& self.leaf_ads_ewma_ns_per_row_by_bucket@ == telemetry.ewma_ns_per_row_by_bucket@
        &&& self.leaf_adsampling_leaves == 1
        &&& self.leaf_adsampling_rows == leaf_size
        &&& self.leaf_ads_tiled_leaves == (if telemetry.tiled {
            1int
        } else {
            0
        })
        &&& self.leaf_ads_tiled_rows == (if telemetry.tiled {
            leaf_size
        } else {
            0
        })
        &&& self.total_wall == 0
        &&& self.load == 0
        &&& self.distance == 0
        &&& self.topk == 0
        &&& self.hash == 0
        &&& self.flush == 0
        &&& self.leaves == 0
        &&& self.points == 0
        &&& self.blockwise_leaves == 0
        &&& self.point_calls == 0
        &&& self.range_calls == 0
        &&& self.range_rows_read == 0
        &&& self.bytes_read == 0
        &&& self.sketch_prefetch == 0
        &&& self.sketch_rows_prefetched == 0
        &&& self.lune_witness_emit == 0
        &&& self.lune_witness_records == 0
        &&& forall|i: int|
            0 <= i < LEAF_SIZE_BUCKETS ==> (#[trigger] self.leaf_size_buckets@[i]).is_zero()
    }

    fn sampled_leaf(leaf_size: usize, telemetry: &LeafAdSamplingTelemetry) -> (profile: LeafProfile)
        ensures
            profile.is_sampled_leaf(leaf_size as int, *telemetry),
    {
        let mut profile: LeafProfile = LeafProfile::default();
        profile.leaf_adsampling_layout = telemetry.layout;
        profile.leaf_adsampling_seed = telemetry.seed;
        profile.leaf_adsampling_scan = telemetry.scan;
        profile.leaf_adsampling_seed_evals = telemetry.seed_evals;
        profile.leaf_adsampling_full_evals = telemetry.full_evals;
        profile.leaf_adsampling_pruned_evals = telemetry.pruned_evals;
        profile.leaf_adsampling_group_evals = telemetry.group_evals;
        profile.leaf_adsampling_simd_group_calls = telemetry.simd_group_calls;
        profile.leaf_adsampling_simd_active_lane_evals = telemetry.simd_active_lane_evals;
        profile.leaf_adsampling_scalar_group_evals = telemetry.scalar_group_evals;
        profile.leaf_ads_tiles = telemetry.tile_count;
        profile.leaf_ads_tile_rows_total = telemetry.tile_rows_total;
        profile.leaf_ads_tile_wall = telemetry.tile_wall;
        profile.leaf_ads_tile_wait = telemetry.tile_wait;
        profile.leaf_ads_handle_requeues = telemetry.tile_handle_requeues;
        profile.leaf_ads_tiling_enabled = telemetry.tiled;
        profile.leaf_ads_wavefront_pairmask_enabled = telemetry.wavefront_pairmask;
        profile.leaf_ads_work_graph_enabled = telemetry.work_graph;
        profile.leaf_ads_tile_rows_min = telemetry.tile_rows_min;
        profile.leaf_ads_tile_rows_max = telemetry.tile_rows_max;
        profile.leaf_ads_cpu_budget = telemetry.cpu_budget;
        profile.leaf_ads_active_context_peak = telemetry.active_context_peak;
        profile.leaf_ads_active_workers_peak = telemetry.active_workers_peak;
        profile.leaf_ads_ewma_ns_per_row_by_bucket = telemetry.ewma_ns_per_row_by_bucket;
        profile.leaf_adsampling_leaves = 1;
        profile.leaf_adsampling_rows = leaf_size;
        if telemetry.tiled {
            profile.leaf_ads_tiled_leaves = 1;
            profile.leaf_ads_tiled_rows = leaf_size;
        }
        profile
    }

    /// Adds a sampled leaf: as merging its profile.
    pub fn record_leaf_adsampling(&mut self, leaf_size: usize, telemetry: &LeafAdSamplingTelemetry)
        requires
            forall|leaf: LeafProfile| #[trigger]
                leaf.is_sampled_leaf(leaf_size as int, *telemetry) ==> old(self).mergeable(leaf),
        ensures
            exists|leaf: LeafProfile| #[trigger]
                leaf.is_sampled_leaf(leaf_size as int, *telemetry) && final(self).merges(
                    *old(self),
                    leaf,
                ),
    {
        let leaf: LeafProfile = LeafProfile::sampled_leaf(leaf_size, telemetry);
        self.merge(leaf);
    }

    /// What one leaf adds to its class of sizes.
    pub open spec fn leaf_bucket(
        self,
        leaf_size: int,
        adsampling: Option<LeafAdSamplingTelemetry>,
        bucket: LeafSizeBucketProfile,
    ) -> bool {
        &&& bucket.leaves == 1
        &&& bucket.rows == leaf_size
        &&& match adsampling {
            Some(telemetry) => {
                &&& bucket.exact_leaves == 0
                &&& bucket.exact_rows == 0
                &&& bucket.exact_wall == 0
                &&& bucket.exact_distance == 0
                &&& bucket.exact_topk == 0
                &&& bucket.adsampling_leaves == 1
                &&& bucket.adsampling_rows == leaf_size
                &&& bucket.adsampling_wall == self.total_wall
                &&& bucket.adsampling_layout == telemetry.layout
                &&& bucket.adsampling_seed == telemetry.seed
                &&& bucket.adsampling_scan == telemetry.scan
                &&& bucket.adsampling_seed_evals == telemetry.seed_evals
                &&& bucket.adsampling_full_evals == telemetry.full_evals
                &&& bucket.adsampling_pruned_evals == telemetry.pruned_evals
                &&& bucket.adsampling_group_evals == telemetry.group_evals
                &&& bucket.adsampling_simd_group_calls == telemetry.simd_group_calls
                &&& bucket.adsampling_simd_active_lane_evals == telemetry.simd_active_lane_evals
                &&& bucket.adsampling_scalar_group_evals == telemetry.scalar_group_evals
            },
            None => {
                &&& bucket.exact_leaves == 1
                &&& bucket.exact_rows == leaf_size
                &&& bucket.exact_wall == self.total_wall
                &&& bucket.exact_distance == self.distance
                &&& bucket.exact_topk == self.topk
                &&& bucket.adsampling_leaves == 0
                &&& bucket.adsampling_rows == 0
                &&& bucket.adsampling_wall == 0
                &&& bucket.adsampling_layout == 0
                &&& bucket.adsampling_seed == 0
                &&& bucket.adsampling_scan == 0
                &&& bucket.adsampling_seed_evals == 0
                &&& bucket.adsampling_full_evals == 0
                &&& bucket.adsampling_pruned_evals == 0
                &&& bucket.adsampling_group_evals == 0
                &&& bucket.adsampling_simd_group_calls == 0
                &&& bucket.adsampling_simd_active_lane_evals == 0
                &&& bucket.adsampling_scalar_group_evals == 0
            },
        }
    }

    /// Adds the leaf's times to its class of sizes, where it has one.
    pub fn record_leaf_size_bucket(
        &mut self,
        leaf_size: usize,
        adsampling: Option<&LeafAdSamplingTelemetry>,
    )
        requires
            forall|i: int, leaf: LeafSizeBucketProfile|
                0 <= i < LEAF_SIZE_BUCKETS && old(self).leaf_bucket(
                    leaf_size as int,
                    given_telemetry(adsampling),
                    leaf,
                ) ==> (#[trigger] old(self).leaf_size_buckets@[i]).mergeable(#[trigger] leaf.same()),
        ensures
            final(self).sames_but_buckets(*old(self)),
            ({
                match size_bucket(leaf_size as int) {
                    None => final(self).leaf_size_buckets@ == old(self).leaf_size_buckets@,
                    Some(at) => {
                        &&& forall|i: int|
                            0 <= i < LEAF_SIZE_BUCKETS && i != at
                                ==> #[trigger] final(self).leaf_size_buckets@[i]
                                    == old(self).leaf_size_buckets@[i]
                        &&& exists|leaf: LeafSizeBucketProfile| #[trigger]
                            old(self).leaf_bucket(leaf_size as int, given_telemetry(adsampling), leaf) && final(self).leaf_size_buckets@[at as int].merges(
                                old(self).leaf_size_buckets@[at as int],
                                leaf,
                            )
                    },
                }
            }),
    {
        let at: usize = match leaf_size_bucket_index(leaf_size) {
            Some(at) => at,
            None => {
                return ;
            },
        };
        let mut leaf: LeafSizeBucketProfile = LeafSizeBucketProfile::default();
        leaf.leaves = 1;
        leaf.rows = leaf_size;
        match adsampling {
            Some(telemetry) => {
                leaf.adsampling_leaves = 1;
                leaf.adsampling_rows = leaf_size;
                leaf.adsampling_wall = self.total_wall;
                leaf.adsampling_layout = telemetry.layout;
                leaf.adsampling_seed = telemetry.seed;
                leaf.adsampling_scan = telemetry.scan;
                leaf.adsampling_seed_evals = telemetry.seed_evals;
                leaf.adsampling_full_evals = telemetry.full_evals;
                leaf.adsampling_pruned_evals = telemetry.pruned_evals;
                leaf.adsampling_group_evals = telemetry.group_evals;
                leaf.adsampling_simd_group_calls = telemetry.simd_group_calls;
                leaf.adsampling_simd_active_lane_evals = telemetry.simd_active_lane_evals;
                leaf.adsampling_scalar_group_evals = telemetry.scalar_group_evals;
            },
            None => {
                leaf.exact_leaves = 1;
                leaf.exact_rows = leaf_size;
                leaf.exact_wall = self.total_wall;
                leaf.exact_distance = self.distance;
                leaf.exact_topk = self.topk;
            },
        }
        let mut bucket: LeafSizeBucketProfile = self.leaf_size_buckets[at];
        proof {
            assert(old(self).leaf_size_buckets@[at as int].mergeable(leaf.same()));
        }
        bucket.merge(leaf);
        self.leaf_size_buckets[at] = bucket;
        proof {
            assert(old(self).leaf_bucket(leaf_size as int, given_telemetry(adsampling), leaf));
        }
    }

    /// Everything but the classes of sizes is as in `other`.
    pub open spec fn sames_but_buckets(self, other: LeafProfile) -> bool {
        &&& self.total_wall == other.total_wall
        &&& self.load == other.load
        &&& self.distance == other.distance
        &&& self.topk == other.topk
        &&& self.hash == other.hash
        &&& self.flush == other.flush
        &&& self.leaves == other.leaves
        &&& self.points == other.points
        &&& self.blockwise_leaves == other.blockwise_leaves
        &&& self.point_calls == other.point_calls
        &&& self.range_calls == other.range_calls
        &&& self.range_rows_read == other.range_rows_read
        &&& self.bytes_read == other.bytes_read
        &&& self.sketch_prefetch == other.sketch_prefetch
        &&& self.sketch_rows_prefetched == other.sketch_rows_prefetched
        &&& self.lune_witness_emit == other.lune_witness_emit
        &&& self.lune_witness_records == other.lune_witness_records
        &&& self.leaf_adsampling_leaves == other.leaf_adsampling_leaves
        &&& self.leaf_adsampling_rows == other.leaf_adsampling_rows
        &&& self.leaf_adsampling_layout == other.leaf_adsampling_layout
        &&& self.leaf_adsampling_seed == other.leaf_adsampling_seed
        &&& self.leaf_adsampling_scan == other.leaf_adsampling_scan
        &&& self.leaf_adsampling_seed_evals == other.leaf_adsampling_seed_evals
        &&& self.leaf_adsampling_full_evals == other.leaf_adsampling_full_evals
        &&& self.leaf_adsampling_pruned_evals == other.leaf_adsampling_pruned_evals
        &&& self.leaf_adsampling_group_evals == other.leaf_adsampling_group_evals
        &&& self.leaf_adsampling_simd_group_calls == other.leaf_adsampling_simd_group_calls
        &&& self.leaf_adsampling_simd_active_lane_evals
            == other.leaf_adsampling_simd_active_lane_evals
        &&& self.leaf_adsampling_scalar_group_evals == other.leaf_adsampling_scalar_group_evals
        &&& self.leaf_ads_tiling_enabled == other.leaf_ads_tiling_enabled
        &&& self.leaf_ads_wavefront_pairmask_enabled == other.leaf_ads_wavefront_pairmask_enabled
        &&& self.leaf_ads_work_graph_enabled == other.leaf_ads_work_graph_enabled
        &&& self.leaf_ads_tiled_leaves == other.leaf_ads_tiled_leaves
        &&& self.leaf_ads_tiled_rows == other.leaf_ads_tiled_rows
        &&& self.leaf_ads_tiles == other.leaf_ads_tiles
        &&& self.leaf_ads_tile_rows_total == other.leaf_ads_tile_rows_total
        &&& self.leaf_ads_tile_rows_min == other.leaf_ads_tile_rows_min
        &&& self.leaf_ads_tile_rows_max == other.leaf_ads_tile_rows_max
        &&& self.leaf_ads_tile_wall == other.leaf_ads_tile_wall
        &&& self.leaf_ads_tile_wait == other.leaf_ads_tile_wait
        &&& self.leaf_ads_handle_requeues == other.leaf_ads_handle_requeues
        &&& self.leaf_ads_cpu_budget == other.leaf_ads_cpu_budget
        &&& self.leaf_ads_active_context_peak == other.leaf_ads_active_context_peak
        &&& self.leaf_ads_active_workers_peak == other.leaf_ads_active_workers_peak
        &&& self.leaf_ads_ewma_ns_per_row_by_bucket@ == other.leaf_ads_ewma_ns_per_row_by_bucket@
    }
}

pub open spec fn given_telemetry(telemetry: Option<&LeafAdSamplingTelemetry>) -> Option<
    LeafAdSamplingTelemetry,
> {
    match telemetry {
        Some(telemetry) => Some(*telemetry),
        None => None,
    }
}

impl LeafSizeBucketProfile {
    pub open spec fn same(self) -> Self {
        self
    }
}

/// The profile that the work on a leaf starts with.
pub fn leaf_profile_start(
    leaf_size: usize,
    blockwise: bool,
    params: &ForgeANNParams,
    pairmask: bool,
) -> (profile: LeafProfile)
    ensures
        profile.leaves == (if leaf_size > 0 {
            1int
        } else {
            0
        }),
        profile.points == leaf_size,
        profile.blockwise_leaves == (if blockwise {
            1int
        } else {
            0
        }),
        profile.leaf_ads_tiling_enabled == params.leaf_ads_tiling_enable,
        profile.leaf_ads_wavefront_pairmask_enabled == pairmask,
        profile.leaf_ads_work_graph_enabled == params.leaf_ads_work_graph_enable,
        profile.leaf_ads_ewma_ns_per_row_by_bucket@ == seq![0u64, 0, 0, 0],
        profile.total_wall == 0,
        profile.load == 0,
        profile.distance == 0,
        profile.topk == 0,
        profile.hash == 0,
        profile.flush == 0,
        profile.point_calls == 0,
        profile.range_calls == 0,
        profile.range_rows_read == 0,
        profile.bytes_read == 0,
        profile.sketch_prefetch == 0,
        profile.sketch_rows_prefetched == 0,
        profile.lune_witness_emit == 0,
        profile.lune_witness_records == 0,
        profile.leaf_adsampling_leaves == 0,
        profile.leaf_adsampling_rows == 0,
        profile.leaf_adsampling_layout == 0,
        profile.leaf_adsampling_seed == 0,
        profile.leaf_adsampling_scan == 0,
        profile.leaf_adsampling_seed_evals == 0,
        profile.leaf_adsampling_full_evals == 0,
        profile.leaf_adsampling_pruned_evals == 0,
        profile.leaf_adsampling_group_evals == 0,
        profile.leaf_adsampling_simd_group_calls == 0,
        profile.leaf_adsampling_simd_active_lane_evals == 0,
        profile.leaf_adsampling_scalar_group_evals == 0,
        profile.leaf_ads_tiled_leaves == 0,
        profile.leaf_ads_tiled_rows == 0,
        profile.leaf_ads_tiles == 0,
        profile.leaf_ads_tile_rows_total == 0,
        profile.leaf_ads_tile_rows_min == 0,
        profile.leaf_ads_tile_rows_max == 0,
        profile.leaf_ads_tile_wall == 0,
        profile.leaf_ads_tile_wait == 0,
        profile.leaf_ads_handle_requeues == 0,
        profile.leaf_ads_cpu_budget == 0,
        profile.leaf_ads_active_context_peak == 0,
        profile.leaf_ads_active_workers_peak == 0,
        forall|i: int|
            0 <= i < LEAF_SIZE_BUCKETS ==> (#[trigger] profile.leaf_size_buckets@[i]).is_zero(),
{
    let mut profile: LeafProfile = LeafProfile::default();
    if leaf_size > 0 {
        profile.leaves = 1;
    }
    profile.points = leaf_size;
    if blockwise {
        profile.blockwise_leaves = 1;
    }
    profile.leaf_ads_tiling_enabled = params.leaf_ads_tiling_enable;
    profile.leaf_ads_wavefront_pairmask_enabled = pairmask;
    profile.leaf_ads_work_graph_enabled = params.leaf_ads_work_graph_enable;
    profile
}

/// Merging profiles does not depend on which side is merged into which.
pub proof fn law_leaf_profile_merge_commutes(a: LeafProfile, b: LeafProfile, merged: LeafProfile)
    requires
        merged.merges(a, b),
    ensures
        merged.merges(b, a),
{
    assert(larger_each(
        a.leaf_ads_ewma_ns_per_row_by_bucket@,
        b.leaf_ads_ewma_ns_per_row_by_bucket@,
    ) =~= larger_each(
        b.leaf_ads_ewma_ns_per_row_by_bucket@,
        a.leaf_ads_ewma_ns_per_row_by_bucket@,
    ));
}

/// What the streaming part of a build took.
#[derive(Clone, Copy, Debug)]
pub struct StreamingProfile {
    pub producer_wall: u64,
    pub total_wall: u64,
    pub leaf: LeafProfile,
}

impl StreamingProfile {
    /// The time in which no leaf was worked on, as far as that can be told from the
    /// totals.
    pub fn leaf_idle_time(&self) -> (time: u64)
        ensures
            time == (if self.total_wall >= self.leaf.total_wall {
                self.total_wall - self.leaf.total_wall
            } else {
                0
            }),
    {
        self.total_wall.saturating_sub(self.leaf.total_wall)
    }
}

impl Default for StreamingProfile {
    fn default() -> (zero: Self)
        ensures
            zero.producer_wall == 0,
            zero.total_wall == 0,
            zero.leaf.is_zero(),
    {
        StreamingProfile { producer_wall: 0, total_wall: 0, leaf: LeafProfile::default() }
    }
}

} // verus!
