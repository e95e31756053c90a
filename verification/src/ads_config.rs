//! When and how distances are sampled: gates, sizes and the shared worker budget.

use vstd::prelude::*;
use vstd::string::*;

use crate::ann_result::{AnnError, AnnResult};
use crate::arith::{
    blocks_for, capped, capped_u64, div_ceil, greatest, least, max_usize, min_usize, sat_mul,
    sat_mul_u64,
};
use crate::float_bits::F32;
use crate::gather::WindowedGatherOptions;
use crate::leaf_build::LEAF_ADSAMPLING_MIN_SIZE;
use crate::params::{
    ForgeANNParams, ADS_DEPTH_MAX_DEPTH, ADS_DEPTH_SEED_EXACT_M, ADS_HUGE_MIN_WORK,
    ADS_LARGE_MIN_LEADERS, ADS_LARGE_MIN_POINTS, ADS_LARGE_MIN_WORK, ADS_ROOT_SEED_EXACT_M,
    ADS_SPARSE_FULL64_THRESHOLD, ADS_SPARSE_GROUP16_THRESHOLD, LEAF_ADSAMPLING_SEED_EXACT_M,
};
use crate::pool::{current_num_threads, current_thread_index};
use crate::text::{decimal, joined, with_number};

verus! {

pub const ADS_QUERY_CHUNK: usize = 4096;

/// Queries that are measured together.
pub const ADS_QUERY_TILE: usize = 8;

/// Rows of a leaf that one task takes.
pub const ADS_LEAF_ROW_CHUNK: usize = 32;

/// Rows from which on a leaf's tasks are spread over threads.
pub const ADS_LEAF_PARALLEL_MIN_ROWS: usize = 512;

pub const ADS_ASSIGN_MIN_CHUNK_ROWS: usize = 256;

pub const ADS_ASSIGN_MAX_CHUNK_ROWS: usize = 8192;

/// Leaf sizes that tile costs are told apart by.
pub const LEAF_ADS_EWMA_BUCKETS: usize = 4;

/// Rows of a tile whose cost is not known yet.
pub const DEFAULT_TILE_ROWS: usize = 256;

/// The next whole number of query tiles.
pub open spec fn tile_aligned(rows: int) -> int {
    blocks_for(greatest(rows, 1), ADS_QUERY_TILE as int) * ADS_QUERY_TILE
}

pub fn align_leaf_ads_tile_rows(rows: usize) -> (aligned: usize)
    requires
        rows <= usize::MAX - ADS_QUERY_TILE,
    ensures
        aligned == tile_aligned(rows as int),
        rows <= aligned <= greatest(rows as int, 1) + ADS_QUERY_TILE - 1,
        aligned > 0,
{
    div_ceil(max_usize(rows, 1), ADS_QUERY_TILE) * ADS_QUERY_TILE
}

/// How leaves are cut into tiles that share workers.
#[derive(Clone, Copy, Debug, PartialEq, Eq, Structural)]
pub struct LeafAdsOperatorConfig {
    pub enabled: bool,
    pub work_graph: bool,
    pub cpu_budget: usize,
    pub target_tile_ms: u64,
    pub min_tile_rows: usize,
    pub max_tile_rows: usize,
    pub split_threshold: usize,
}

/// The workers that tiles may take: all but an eighth, of which at least two stay for
/// others where there are that many.
pub open spec fn automatic_budget(workers: int) -> int {
    greatest(workers - least(greatest(workers / 8, 2), workers - 1), 1)
}

/// Row counts that can be aligned without leaving the machine's range.
pub open spec fn tile_rows_fit(params: ForgeANNParams) -> bool {
    &&& params.leaf_ads_min_tile_rows <= usize::MAX - 16
    &&& params.leaf_ads_max_tile_rows <= usize::MAX - 16
    &&& params.leaf_ads_work_graph_min_tile_rows <= usize::MAX - 16
    &&& params.leaf_ads_work_graph_max_tile_rows <= usize::MAX - 16
}

impl LeafAdsOperatorConfig {
    /// What the parameters ask for with `workers` threads.
    pub open spec fn planned(params: ForgeANNParams, workers: int) -> LeafAdsOperatorConfig {
        let graph = params.leaf_ads_work_graph_enable;
        let low = tile_aligned(
            if graph {
                params.leaf_ads_work_graph_min_tile_rows as int
            } else {
                params.leaf_ads_min_tile_rows as int
            },
        );
        let high = tile_aligned(
            if graph {
                params.leaf_ads_work_graph_max_tile_rows as int
            } else {
                params.leaf_ads_max_tile_rows as int
            },
        );
        LeafAdsOperatorConfig {
            enabled: params.leaf_ads_tiling_enable || graph,
            work_graph: graph,
            cpu_budget: (if params.leaf_ads_cpu_budget == 0 {
                automatic_budget(greatest(workers, 1))
            } else {
                least(params.leaf_ads_cpu_budget as int, greatest(workers, 1))
            }) as usize,
            target_tile_ms: greatest(
                if graph {
                    params.leaf_ads_work_graph_quantum_ms as int
                } else {
                    params.leaf_ads_target_tile_ms as int
                },
                1,
            ) as u64,
            min_tile_rows: least(low, high) as usize,
            max_tile_rows: greatest(low, high) as usize,
            split_threshold: greatest(
                if graph {
                    params.leaf_ads_work_graph_split_threshold as int
                } else {
                    params.leaf_ads_split_threshold as int
                },
                LEAF_ADSAMPLING_MIN_SIZE as int,
            ) as usize,
        }
    }

    pub fn from_params(params: &ForgeANNParams, worker_count: usize) -> (config: Self)
        requires
            tile_rows_fit(*params),
        ensures
            config == LeafAdsOperatorConfig::planned(*params, worker_count as int),
            config.wf(),
    {
        let workers: usize = max_usize(worker_count, 1);
        let reserved: usize = min_usize(max_usize(workers / 8, 2), workers - 1);
        let cpu_budget: usize = if params.leaf_ads_cpu_budget == 0 {
            max_usize(workers - reserved, 1)
        } else {
            max_usize(min_usize(params.leaf_ads_cpu_budget, workers), 1)
        };
        let work_graph: bool = params.leaf_ads_work_graph_enable;
        let tile_ms: u64 = if work_graph {
            params.leaf_ads_work_graph_quantum_ms
        } else {
            params.leaf_ads_target_tile_ms
        };
        let min_rows: usize = align_leaf_ads_tile_rows(
            if work_graph {
                params.leaf_ads_work_graph_min_tile_rows
            } else {
                params.leaf_ads_min_tile_rows
            },
        );
        let max_rows: usize = align_leaf_ads_tile_rows(
            if work_graph {
                params.leaf_ads_work_graph_max_tile_rows
            } else {
                params.leaf_ads_max_tile_rows
            },
        );
        let split: usize = if work_graph {
            params.leaf_ads_work_graph_split_threshold
        } else {
            params.leaf_ads_split_threshold
        };
        LeafAdsOperatorConfig {
            enabled: params.leaf_ads_tiling_enable || work_graph,
            work_graph,
            cpu_budget,
            target_tile_ms: if tile_ms < 1 {
                1
            } else {
                tile_ms
            },
            min_tile_rows: min_usize(min_rows, max_rows),
            max_tile_rows: max_usize(min_rows, max_rows),
            split_threshold: max_usize(split, LEAF_ADSAMPLING_MIN_SIZE),
        }
    }

    /// There is a worker to give out, and a tile has rows.
    pub open spec fn wf(self) -> bool {
        &&& self.cpu_budget >= 1
        &&& self.min_tile_rows <= self.max_tile_rows <= usize::MAX - ADS_QUERY_TILE
    }
}

/// What leaves that are cut into tiles share: the workers that are out, and what a row
/// costs in leaves of each size.
#[derive(Clone, Copy, Debug)]
pub struct LeafAdsOperatorRuntime {
    pub config: LeafAdsOperatorConfig,
    pub active_contexts: usize,
    pub active_context_peak: usize,
    pub active_workers: usize,
    pub active_workers_peak: usize,
    pub ewma_ns_per_row_by_bucket: [u64; 4],
}

impl LeafAdsOperatorRuntime {
    /// No more workers are out than the budget has, and the peaks are not behind.
    pub open spec fn wf(self) -> bool {
        &&& self.config.wf()
        &&& self.active_workers <= self.config.cpu_budget
        &&& self.active_workers <= self.active_workers_peak
        &&& self.active_contexts <= self.active_context_peak
    }

    pub fn new(config: LeafAdsOperatorConfig) -> (runtime: Self)
        requires
            config.wf(),
        ensures
            runtime.wf(),
            runtime.config == config,
            runtime.active_contexts == 0,
            runtime.active_context_peak == 0,
            runtime.active_workers == 0,
            runtime.active_workers_peak == 0,
            runtime.ewma_ns_per_row_by_bucket@ == seq![0u64, 0, 0, 0],
    {
        let runtime: LeafAdsOperatorRuntime = LeafAdsOperatorRuntime {
            config,
            active_contexts: 0,
            active_context_peak: 0,
            active_workers: 0,
            active_workers_peak: 0,
            ewma_ns_per_row_by_bucket: [0, 0, 0, 0],
        };
        proof {
            assert(runtime.ewma_ns_per_row_by_bucket@ =~= seq![0u64, 0, 0, 0]);
        }
        runtime
    }

    pub fn from_params(params: &ForgeANNParams, worker_count: usize) -> (runtime: Self)
        requires
            tile_rows_fit(*params),
        ensures
            runtime.wf(),
            runtime.config == LeafAdsOperatorConfig::planned(*params, worker_count as int),
            runtime.active_contexts == 0,
            runtime.active_workers == 0,
    {
        LeafAdsOperatorRuntime::new(LeafAdsOperatorConfig::from_params(params, worker_count))
    }

    pub fn enabled_for_leaf(&self, leaf_size: usize) -> (enabled: bool)
        ensures
            enabled == (self.config.enabled && leaf_size >= self.config.split_threshold),
    {
        self.config.enabled && leaf_size >= self.config.split_threshold
    }

    pub fn cpu_budget(&self) -> (budget: usize)
        ensures
            budget == self.config.cpu_budget,
    {
        self.config.cpu_budget
    }

    pub fn work_graph_enabled(&self) -> (enabled: bool)
        ensures
            enabled == (self.config.enabled && self.config.work_graph),
    {
        self.config.enabled && self.config.work_graph
    }

    pub fn target_tile_ms(&self) -> (ms: u64)
        ensures
            ms == self.config.target_tile_ms,
    {
        self.config.target_tile_ms
    }

    pub fn ewma_snapshot(&self) -> (costs: [u64; 4])
        ensures
            costs@ == self.ewma_ns_per_row_by_bucket@,
    {
        self.ewma_ns_per_row_by_bucket
    }

    /// A leaf starts.
    pub fn begin_context(&mut self)
        requires
            old(self).active_contexts < usize::MAX,
        ensures
            *final(self) == (LeafAdsOperatorRuntime {
                active_contexts: (old(self).active_contexts + 1) as usize,
                active_context_peak: greatest(
                    old(self).active_context_peak as int,
                    old(self).active_contexts + 1,
                ) as usize,
                ..*old(self)
            }),
            old(self).wf() ==> final(self).wf(),
    {
        self.active_contexts = self.active_contexts + 1;
        self.active_context_peak = max_usize(self.active_context_peak, self.active_contexts);
    }

    /// A leaf ends.
    pub fn end_context(&mut self)
        requires
            old(self).active_contexts > 0,
        ensures
            *final(self) == (LeafAdsOperatorRuntime {
                active_contexts: (old(self).active_contexts - 1) as usize,
                ..*old(self)
            }),
            old(self).wf() ==> final(self).wf(),
    {
        self.active_contexts = self.active_contexts - 1;
    }

    /// The workers that a request is granted: as many as it asks for, at least one, and
    /// as many as are left. None are left where all are out.
    pub open spec fn granted(self, requested: int) -> Option<int> {
        let left = self.config.cpu_budget - self.active_workers;
        if left > 0 {
            Some(least(greatest(requested, 1), left))
        } else {
            None
        }
    }

    /// Asks for workers. Where none are left the caller has to wait and ask again.
    pub fn try_reserve_workers(&mut self, requested: usize) -> (granted: Option<usize>)
        requires
            old(self).wf(),
        ensures
            final(self).wf(),
            match old(self).granted(requested as int) {
                Some(count) => granted == Some(count as usize) && *final(self) == (
                LeafAdsOperatorRuntime {
                    active_workers: (old(self).active_workers + count) as usize,
                    active_workers_peak: greatest(
                        old(self).active_workers_peak as int,
                        old(self).active_workers + count,
                    ) as usize,
                    ..*old(self)
                }),
                None => granted is None && *final(self) == *old(self),
            },
    {
        if self.active_workers < self.config.cpu_budget {
            let wanted: usize = max_usize(requested, 1);
            let count: usize = min_usize(wanted, self.config.cpu_budget - self.active_workers);
            self.active_workers = self.active_workers + count;
            self.active_workers_peak = max_usize(self.active_workers_peak, self.active_workers);
            Some(count)
        } else {
            None
        }
    }

    /// Gives workers back.
    pub fn release_workers(&mut self, count: usize)
        requires
            old(self).wf(),
            count <= old(self).active_workers,
        ensures
            final(self).wf(),
            *final(self) == (LeafAdsOperatorRuntime {
                active_workers: (old(self).active_workers - count) as usize,
                ..*old(self)
            }),
    {
        self.active_workers = self.active_workers - count;
    }

    /// A leaf that runs without other workers counts as one.
    pub fn note_single_worker(&mut self)
        ensures
            *final(self) == (LeafAdsOperatorRuntime {
                active_workers_peak: greatest(old(self).active_workers_peak as int, 1) as usize,
                ..*old(self)
            }),
            old(self).wf() ==> final(self).wf(),
    {
        self.active_workers_peak = max_usize(self.active_workers_peak, 1);
    }

    /// The workers that one leaf may ask for: all, or a fair share of at least four.
    pub fn worker_cap_for_current_contexts(&self) -> (cap: usize)
        requires
            self.wf(),
        ensures
            cap == if self.active_contexts <= 1 {
                self.config.cpu_budget as int
            } else {
                least(
                    greatest(self.config.cpu_budget as int / self.active_contexts as int, 4),
                    self.config.cpu_budget as int,
                )
            },
    {
        let contexts: usize = max_usize(self.active_contexts, 1);
        if contexts == 1 {
            self.config.cpu_budget
        } else {
            min_usize(max_usize(self.config.cpu_budget / contexts, 4), self.config.cpu_budget)
        }
    }

    /// Rows of the next tile: as many as the known cost fits into the tile time, within
    /// the configured bounds, in whole query tiles.
    pub open spec fn tile_rows(self, bucket: int) -> int {
        let cost = self.ewma_ns_per_row_by_bucket@[bucket];
        let rows = if cost == 0 {
            DEFAULT_TILE_ROWS as int
        } else {
            capped(capped_u64(self.config.target_tile_ms * 1_000_000) / cost as int)
        };
        tile_aligned(
            if rows < self.config.min_tile_rows {
                self.config.min_tile_rows as int
            } else if rows > self.config.max_tile_rows {
                self.config.max_tile_rows as int
            } else {
                rows
            },
        )
    }

    pub fn tile_rows_for_bucket(&self, bucket: usize) -> (rows: usize)
        requires
            self.wf(),
            bucket < LEAF_ADS_EWMA_BUCKETS,
        ensures
            rows == self.tile_rows(bucket as int),
            rows > 0,
    {
        let cost: u64 = self.ewma_ns_per_row_by_bucket[bucket];
        let rows: usize = if cost == 0 {
            DEFAULT_TILE_ROWS
        } else {
            let target_ns: u64 = sat_mul_u64(self.config.target_tile_ms, 1_000_000);
            let fitting: u64 = target_ns / cost;
            if fitting > usize::MAX as u64 {
                usize::MAX
            } else {
                fitting as usize
            }
        };
        let bounded: usize = if rows < self.config.min_tile_rows {
            self.config.min_tile_rows
        } else if rows > self.config.max_tile_rows {
            self.config.max_tile_rows
        } else {
            rows
        };
        align_leaf_ads_tile_rows(bounded)
    }

    /// The cost of a row after a tile of `rows` rows took `elapsed` nanoseconds: the
    /// first tile sets it, later ones move it by an eighth.
    pub open spec fn cost_after(cost: int, rows: int, elapsed: int) -> int {
        let sample = greatest(capped_u64(elapsed / rows), 1);
        if cost == 0 {
            sample
        } else {
            capped_u64(capped_u64(cost * 7) + sample) / 8
        }
    }

    pub fn record_tile(&mut self, bucket: usize, rows: usize, elapsed_ns: u128)
        requires
            bucket < LEAF_ADS_EWMA_BUCKETS,
        ensures
            final(self).config == old(self).config,
            final(self).active_contexts == old(self).active_contexts,
            final(self).active_context_peak == old(self).active_context_peak,
            final(self).active_workers == old(self).active_workers,
            final(self).active_workers_peak == old(self).active_workers_peak,
            final(self).ewma_ns_per_row_by_bucket@ == if rows == 0 {
                old(self).ewma_ns_per_row_by_bucket@
            } else {
                old(self).ewma_ns_per_row_by_bucket@.update(
                    bucket as int,
                    LeafAdsOperatorRuntime::cost_after(
                        old(self).ewma_ns_per_row_by_bucket@[bucket as int] as int,
                        rows as int,
                        elapsed_ns as int,
                    ) as u64,
                )
            },
    {
        if rows == 0 {
            return ;
        }
        let share: u128 = elapsed_ns / (rows as u128);
        let limited: u64 = if share > u64::MAX as u128 {
            u64::MAX
        } else {
            share as u64
        };
        let sample: u64 = if limited < 1 {
            1
        } else {
            limited
        };
        let cost: u64 = self.ewma_ns_per_row_by_bucket[bucket];
        let next: u64 = if cost == 0 {
            sample
        } else {
            sat_mul_u64(cost, 7).saturating_add(sample) / 8
        };
        self.ewma_ns_per_row_by_bucket[bucket] = next;
    }
}

/// Workers that are given back after they were granted leave the runtime as it was, but
/// for the peak.
pub proof fn law_release_undoes_reservation(
    before: LeafAdsOperatorRuntime,
    during: LeafAdsOperatorRuntime,
    after: LeafAdsOperatorRuntime,
    requested: int,
)
    requires
        before.wf(),
        before.granted(requested) is Some,
        during.active_workers == before.active_workers + before.granted(requested)->0,
        after.active_workers == during.active_workers - before.granted(requested)->0,
    ensures
        after.active_workers == before.active_workers,
        during.active_workers <= before.config.cpu_budget,
{
}

/// Which costs a leaf's tiles are counted to.
pub fn leaf_ads_size_bucket(leaf_size: usize) -> (bucket: usize)
    ensures
        bucket == if leaf_size < 1024 {
            0int
        } else if leaf_size < 2048 {
            1
        } else if leaf_size < 4096 {
            2
        } else {
            3
        },
{
    if leaf_size < 1024 {
        0
    } else if leaf_size < 2048 {
        1
    } else if leaf_size < 4096 {
        2
    } else {
        3
    }
}

/// How distances are sampled.
#[derive(Clone, Copy, Debug, PartialEq, Eq, Structural)]
pub struct AdSamplingConfig {
    pub epsilon: F32,
    pub group_dims: usize,
    pub seed_exact: usize,
    pub sparse_full64_threshold: u32,
    pub sparse_group16_threshold: u32,
    pub validate_sources: usize,
}

/// Settings that the environment overrides.
#[derive(Clone, Copy, Debug, PartialEq, Eq, Structural)]
pub struct AdsOverrides {
    pub epsilon: Option<F32>,
    pub group_dims: Option<usize>,
    pub seed_exact: Option<usize>,
    pub validate_sources: Option<usize>,
}

/// The first that is set, or the fallback.
pub open spec fn set_or<T>(first: Option<T>, second: Option<T>, fallback: T) -> T {
    match first {
        Some(value) => value,
        None => match second {
            Some(value) => value,
            None => fallback,
        },
    }
}

fn pick<T: Copy>(first: Option<T>, second: Option<T>, fallback: T) -> (value: T)
    ensures
        value == set_or(first, second, fallback),
{
    match first {
        Some(value) => value,
        None => match second {
            Some(value) => value,
            None => fallback,
        },
    }
}

impl AdSamplingConfig {
    pub open spec fn for_root(
        params: ForgeANNParams,
        fanout: int,
        root: AdsOverrides,
        general: AdsOverrides,
    ) -> AdSamplingConfig {
        AdSamplingConfig {
            epsilon: set_or(root.epsilon, general.epsilon, params.adsampling_epsilon),
            group_dims: greatest(
                set_or(
                    root.group_dims,
                    general.group_dims,
                    params.adsampling_group_dims,
                ) as int,
                1,
            ) as usize,
            seed_exact: greatest(
                greatest(
                    set_or(root.seed_exact, general.seed_exact, ADS_ROOT_SEED_EXACT_M) as int,
                    fanout,
                ),
                1,
            ) as usize,
            sparse_full64_threshold: ADS_SPARSE_FULL64_THRESHOLD,
            sparse_group16_threshold: ADS_SPARSE_GROUP16_THRESHOLD,
            validate_sources: set_or(root.validate_sources, general.validate_sources, 0),
        }
    }

    pub open spec fn for_depth(
        params: ForgeANNParams,
        fanout: int,
        depth: AdsOverrides,
        general: AdsOverrides,
    ) -> AdSamplingConfig {
        AdSamplingConfig {
            epsilon: set_or(depth.epsilon, general.epsilon, params.adsampling_epsilon),
            group_dims: greatest(
                set_or(
                    depth.group_dims,
                    general.group_dims,
                    params.adsampling_group_dims,
                ) as int,
                1,
            ) as usize,
            seed_exact: greatest(
                greatest(ADS_DEPTH_SEED_EXACT_M as int, fanout),
                1,
            ) as usize,
            sparse_full64_threshold: ADS_SPARSE_FULL64_THRESHOLD,
            sparse_group16_threshold: ADS_SPARSE_GROUP16_THRESHOLD,
            validate_sources: 0,
        }
    }

    pub open spec fn for_leaf(
        params: ForgeANNParams,
        k: int,
        leaf: AdsOverrides,
    ) -> AdSamplingConfig {
        AdSamplingConfig {
            epsilon: set_or(leaf.epsilon, None, params.adsampling_epsilon),
            group_dims: greatest(
                set_or(leaf.group_dims, None, params.adsampling_group_dims) as int,
                1,
            ) as usize,
            seed_exact: greatest(
                greatest(LEAF_ADSAMPLING_SEED_EXACT_M as int, k),
                1,
            ) as usize,
            sparse_full64_threshold: ADS_SPARSE_FULL64_THRESHOLD,
            sparse_group16_threshold: ADS_SPARSE_GROUP16_THRESHOLD,
            validate_sources: 0,
        }
    }

    /// For the root. Settings for the root come before those for all levels.
    pub fn root_from_params(
        params: &ForgeANNParams,
        fanout: usize,
        root: &AdsOverrides,
        general: &AdsOverrides,
    ) -> (config: Self)
        ensures
            config == AdSamplingConfig::for_root(*params, fanout as int, *root, *general),
    {
        AdSamplingConfig {
            epsilon: pick(root.epsilon, general.epsilon, params.adsampling_epsilon),
            group_dims: max_usize(
                pick(root.group_dims, general.group_dims, params.adsampling_group_dims),
                1,
            ),
            seed_exact: max_usize(
                max_usize(pick(root.seed_exact, general.seed_exact, ADS_ROOT_SEED_EXACT_M), fanout),
                1,
            ),
            sparse_full64_threshold: ADS_SPARSE_FULL64_THRESHOLD,
            sparse_group16_threshold: ADS_SPARSE_GROUP16_THRESHOLD,
            validate_sources: pick(root.validate_sources, general.validate_sources, 0),
        }
    }

    /// For the levels below the root, whose seeds cannot be overridden.
    pub fn depth_from_params(
        params: &ForgeANNParams,
        fanout: usize,
        depth: &AdsOverrides,
        general: &AdsOverrides,
    ) -> (config: Self)
        ensures
            config == AdSamplingConfig::for_depth(*params, fanout as int, *depth, *general),
    {
        AdSamplingConfig {
            epsilon: pick(depth.epsilon, general.epsilon, params.adsampling_epsilon),
            group_dims: max_usize(
                pick(depth.group_dims, general.group_dims, params.adsampling_group_dims),
                1,
            ),
            seed_exact: max_usize(max_usize(ADS_DEPTH_SEED_EXACT_M, fanout), 1),
            sparse_full64_threshold: ADS_SPARSE_FULL64_THRESHOLD,
            sparse_group16_threshold: ADS_SPARSE_GROUP16_THRESHOLD,
            validate_sources: 0,
        }
    }

    /// For the rows of a leaf, each of which keeps `k`.
    pub fn leaf_from_params(
        params: &ForgeANNParams,
        k: usize,
        leaf: &AdsOverrides,
    ) -> (config: Self)
        ensures
            config == AdSamplingConfig::for_leaf(*params, k as int, *leaf),
    {
        AdSamplingConfig {
            epsilon: pick(leaf.epsilon, None, params.adsampling_epsilon),
            group_dims: max_usize(pick(leaf.group_dims, None, params.adsampling_group_dims), 1),
            seed_exact: max_usize(max_usize(LEAF_ADSAMPLING_SEED_EXACT_M, k), 1),
            sparse_full64_threshold: ADS_SPARSE_FULL64_THRESHOLD,
            sparse_group16_threshold: ADS_SPARSE_GROUP16_THRESHOLD,
            validate_sources: 0,
        }
    }
}

/// Whether `dim` dimensions can be sampled in groups with this epsilon, whose text the
/// error repeats.
pub fn check_adsampling_ratios(
    dim: usize,
    epsilon: F32,
    epsilon_text: &str,
    group_dims: usize,
) -> (result: AnnResult<()>)
    ensures
        match result {
            Ok(_) => dim > 0 && group_dims > 0 && epsilon.finite() && epsilon.rank() > 0,
            Err(error) => {
                &&& !(dim > 0 && group_dims > 0 && epsilon.finite() && epsilon.rank() > 0)
                &&& error matches AnnError::IndexConfig { parameter, err } && parameter@
                    == "adsampling"@ && err@ == "invalid ADSampling config: dim="@ + decimal(
                    dim as nat,
                ) + " epsilon="@ + epsilon_text@ + " group_dims="@ + decimal(group_dims as nat)
                    + ""@
            },
        },
{
    if dim == 0 || group_dims == 0 || !epsilon.is_finite() || epsilon.rank_value() <= 0 {
        let head: String = with_number(
            "invalid ADSampling config: dim=",
            dim as u64,
            " epsilon=",
        );
        let middle: String = joined(head.as_str(), epsilon_text);
        let tail: String = with_number(" group_dims=", group_dims as u64, "");
        let text: String = joined(middle.as_str(), tail.as_str());
        proof {
            assert(text@ =~= "invalid ADSampling config: dim="@ + decimal(dim as nat)
                + " epsilon="@ + epsilon_text@ + " group_dims="@ + decimal(group_dims as nat)
                    + ""@);
        }
        return Err(AnnError::log_index_config_error("adsampling".to_owned(), text));
    }
    Ok(())
}

/// Every how many sources one is checked, and from which on.
pub fn d0_validation_stride(root: Option<usize>, general: Option<usize>) -> (stride: usize)
    ensures
        stride == greatest(set_or(root, general, 1) as int, 1),
{
    max_usize(pick(root, general, 1), 1)
}

pub fn d0_validation_offset(root: Option<usize>, general: Option<usize>) -> (offset: usize)
    ensures
        offset == set_or(root, general, 0),
{
    pick(root, general, 0)
}

/// Whether a source is one of those that are checked against an exact scan: from the
/// offset on every `stride`-th, `limit` in all.
pub open spec fn source_checked(limit: int, stride: int, offset: int, source: int) -> bool {
    exists|n: int| 0 <= n < limit && source == #[trigger] (n * stride) + offset
}

pub fn should_validate_source_with(
    sample_limit: usize,
    sample_stride: usize,
    sample_offset: usize,
    source_id: usize,
) -> (result: bool)
    ensures
        sample_stride == 0 ==> !result,
        sample_stride > 0 ==> result == source_checked(
            sample_limit as int,
            sample_stride as int,
            sample_offset as int,
            source_id as int,
        ),
{
    if sample_limit == 0 || sample_stride == 0 || source_id < sample_offset {
        proof {
            if sample_stride > 0 && source_id < sample_offset {
                assert forall|n: int| 0 <= n < sample_limit implies source_id != #[trigger] (n
                    * sample_stride) + sample_offset by {
                    assert(n * sample_stride >= 0) by (nonlinear_arith)
                        requires
                            n >= 0,
                            sample_stride > 0,
                    ;
                }
            }
        }
        return false;
    }
    let delta: usize = source_id - sample_offset;
    proof {
        let d = delta as int;
        let s = sample_stride as int;
        vstd::arithmetic::div_mod::lemma_fundamental_div_mod(d, s);
        assert((d / s) * s == s * (d / s)) by (nonlinear_arith);
        assert forall|n: int| 0 <= n < sample_limit && source_id == #[trigger] (n * s)
            + sample_offset implies d % s == 0 && d / s == n by {
            vstd::arithmetic::div_mod::lemma_fundamental_div_mod_converse(d, s, n, 0);
        }
        if d % s == 0 && d / s < sample_limit {
            vstd::arithmetic::div_mod::lemma_div_pos_is_pos(d, s);
            assert(source_id == (d / s) * s + sample_offset);
        }
    }
    delta % sample_stride == 0 && delta / sample_stride < sample_limit
}

/// Bytes of a window that reads gather points in.
pub open spec fn ads_window_bytes(dim: int, rows: int, coalesced: bool, set: Option<usize>) -> int {
    let plain = greatest(
        least(capped(capped(dim * 4) * greatest(rows, 1)), 0x40_0000),
        0x4_0000,
    );
    if coalesced {
        match set {
            Some(bytes) => greatest(bytes as int, plain),
            None => plain,
        }
    } else {
        plain
    }
}

/// Rows between wanted ones that are read along: one of small rows, and a whole window's
/// where reads should be coalesced.
pub open spec fn ads_gap_rows(
    dim: int,
    window_bytes: int,
    coalesced: bool,
    set: Option<usize>,
) -> int {
    let row_bytes = capped(dim * 4);
    if coalesced {
        if set is Some && set->0 <= u32::MAX {
            set->0 as int
        } else {
            least(greatest(window_bytes / greatest(row_bytes, 1), 1) - 1, u32::MAX as int)
        }
    } else if row_bytes <= 4096 {
        1
    } else {
        0
    }
}

pub fn adsampling_windowed_options(
    dim: usize,
    rows: usize,
    prefers_coalesced: bool,
    window_bytes: Option<usize>,
    gap_rows: Option<usize>,
) -> (options: WindowedGatherOptions)
    ensures
        options == (WindowedGatherOptions {
            max_gap_rows: ads_gap_rows(
                dim as int,
                ads_window_bytes(dim as int, rows as int, prefers_coalesced, window_bytes),
                prefers_coalesced,
                gap_rows,
            ) as u32,
            max_window_bytes: ads_window_bytes(
                dim as int,
                rows as int,
                prefers_coalesced,
                window_bytes,
            ) as usize,
            alignment_bytes: 4096,
            sort_ids: true,
        }),
{
    let row_bytes: usize = sat_mul(dim, 4);
    let mut max_gap_rows: u32 = if row_bytes <= 4096 {
        1
    } else {
        0
    };
    let mut max_window_bytes: usize = max_usize(
        min_usize(sat_mul(row_bytes, max_usize(rows, 1)), 0x40_0000),
        0x4_0000,
    );
    if prefers_coalesced {
        max_window_bytes = match window_bytes {
            Some(bytes) => max_usize(bytes, max_window_bytes),
            None => max_window_bytes,
        };
        let window_rows: usize = max_usize(max_window_bytes / max_usize(row_bytes, 1), 1);
        let default_gap: u64 = (window_rows - 1) as u64;
        let default_gap_rows: u32 = if default_gap > u32::MAX as u64 {
            u32::MAX
        } else {
            default_gap as u32
        };
        max_gap_rows = match gap_rows {
            Some(gap) => if gap as u64 <= u32::MAX as u64 {
                gap as u32
            } else {
                default_gap_rows
            },
            None => default_gap_rows,
        };
    }
    WindowedGatherOptions {
        max_gap_rows,
        max_window_bytes,
        alignment_bytes: 4096,
        sort_ids: true,
    }
}

/// The root's points are assigned by sampling where that is enabled and prepared, and
/// there are more leaders than each point takes.
pub open spec fn samples_root(
    params: ForgeANNParams,
    points: int,
    leaders: int,
    fanout: int,
) -> bool {
    params.root_adsampling_enable && points > 0 && leaders > greatest(fanout, 1)
        && params.adsampling_rotation_ready
}

pub fn should_use_adsampling_root(
    params: &ForgeANNParams,
    points: usize,
    leaders: usize,
    fanout: usize,
) -> (result: bool)
    ensures
        result == samples_root(*params, points as int, leaders as int, fanout as int),
{
    params.root_adsampling_enabled() && points > 0 && leaders > max_usize(fanout, 1)
        && params.adsampling_rotation_available()
}

/// Why a level's points are not assigned by sampling.
pub open spec fn depth_fallback(
    params: ForgeANNParams,
    depth: int,
    points: int,
    leaders: int,
    fanout: int,
) -> Option<Seq<char>> {
    if depth == 0 {
        Some("root-depth"@)
    } else if depth > ADS_DEPTH_MAX_DEPTH {
        Some("max-depth"@)
    } else if points == 0 {
        Some("empty-points"@)
    } else if fanout < 2 {
        Some("fanout"@)
    } else if leaders <= fanout {
        Some("leaders-le-fanout"@)
    } else if params.adsampling_group_dims == 0 {
        Some("group-dims"@)
    } else {
        None
    }
}

pub fn adsampling_depth_fallback_reason(
    params: &ForgeANNParams,
    depth: usize,
    points: usize,
    leaders: usize,
    fanout: usize,
) -> (reason: Option<&'static str>)
    ensures
        match reason {
            Some(text) => depth_fallback(
                *params,
                depth as int,
                points as int,
                leaders as int,
                fanout as int,
            ) == Some(text@),
            None => depth_fallback(
                *params,
                depth as int,
                points as int,
                leaders as int,
                fanout as int,
            ) is None,
        },
{
    if depth == 0 {
        return Some("root-depth");
    }
    if depth > ADS_DEPTH_MAX_DEPTH {
        return Some("max-depth");
    }
    if points == 0 {
        return Some("empty-points");
    }
    if fanout < 2 {
        return Some("fanout");
    }
    if leaders <= fanout {
        return Some("leaders-le-fanout");
    }
    if params.adsampling_group_dims == 0 {
        return Some("group-dims");
    }
    None
}

pub fn should_use_adsampling_depth(
    params: &ForgeANNParams,
    depth: usize,
    points: usize,
    leaders: usize,
    fanout: usize,
) -> (result: bool)
    ensures
        result == (depth_fallback(
            *params,
            depth as int,
            points as int,
            leaders as int,
            fanout as int,
        ) is None),
{
    adsampling_depth_fallback_reason(params, depth, points, leaders, fanout).is_none()
}

/// Whether points are assigned by sampling: by the test for the root at depth 0, by that for
/// the other levels below.
pub fn should_use_adsampling_assignment(
    params: &ForgeANNParams,
    depth: usize,
    points: usize,
    leaders: usize,
    fanout: usize,
) -> (result: bool)
    ensures
        depth == 0 ==> result == samples_root(
            *params,
            points as int,
            leaders as int,
            fanout as int,
        ),
        depth > 0 ==> result == (depth_fallback(
            *params,
            depth as int,
            points as int,
            leaders as int,
            fanout as int,
        ) is None),
{
    if depth == 0 {
        should_use_adsampling_root(params, points, leaders, fanout)
    } else {
        should_use_adsampling_depth(params, depth, points, leaders, fanout)
    }
}

/// How much work an assignment is.
#[derive(Clone, Copy, Debug, PartialEq, Eq, Structural)]
pub struct AdSamplingTaskClass {
    pub large_ads: bool,
    pub huge_ads: bool,
}

pub fn classify_adsampling_task(
    _params: &ForgeANNParams,
    points: usize,
    leaders: usize,
) -> (class: AdSamplingTaskClass)
    ensures
        class.large_ads == (points * leaders >= ADS_LARGE_MIN_WORK || (points
            >= ADS_LARGE_MIN_POINTS && leaders >= ADS_LARGE_MIN_LEADERS)),
        class.huge_ads == (points * leaders >= ADS_HUGE_MIN_WORK || points >= 1_000_000 || leaders
            >= 4096),
{
    proof {
        assert(0 <= points * leaders <= 0xffff_ffff_ffff_ffff * 0xffff_ffff_ffff_ffff)
            by (nonlinear_arith)
            requires
                0 <= points <= 0xffff_ffff_ffff_ffff,
                0 <= leaders <= 0xffff_ffff_ffff_ffff,
        ;
    }
    let work: u128 = points as u128 * leaders as u128;
    AdSamplingTaskClass {
        large_ads: work >= ADS_LARGE_MIN_WORK as u128 || (points >= ADS_LARGE_MIN_POINTS && leaders
            >= ADS_LARGE_MIN_LEADERS),
        huge_ads: work >= ADS_HUGE_MIN_WORK as u128 || points >= 1_000_000 || leaders >= 4096,
    }
}

/// Rows of a chunk: an even share for each thread, but not too few and not too many.
pub open spec fn assignment_chunk_rows(points: int, threads: int) -> int {
    if points == 0 {
        ADS_ASSIGN_MIN_CHUNK_ROWS as int
    } else {
        let blocks = least(
            greatest(threads, 1),
            blocks_for(points, ADS_ASSIGN_MIN_CHUNK_ROWS as int),
        );
        least(
            greatest(blocks_for(points, blocks), ADS_ASSIGN_MIN_CHUNK_ROWS as int),
            ADS_ASSIGN_MAX_CHUNK_ROWS as int,
        )
    }
}

pub fn choose_adsampling_assignment_chunk_rows_for_threads(
    points: usize,
    threads: usize,
) -> (rows: usize)
    ensures
        rows == assignment_chunk_rows(points as int, threads as int),
        ADS_ASSIGN_MIN_CHUNK_ROWS <= rows <= ADS_ASSIGN_MAX_CHUNK_ROWS,
{
    if points == 0 {
        return ADS_ASSIGN_MIN_CHUNK_ROWS;
    }
    let most: usize = div_ceil(points, ADS_ASSIGN_MIN_CHUNK_ROWS);
    let blocks: usize = min_usize(max_usize(threads, 1), most);
    min_usize(
        max_usize(div_ceil(points, blocks), ADS_ASSIGN_MIN_CHUNK_ROWS),
        ADS_ASSIGN_MAX_CHUNK_ROWS,
    )
}

/// For as many threads as the caller's pool has.
pub fn choose_adsampling_assignment_chunk_rows(points: usize) -> (rows: usize)
    ensures
        exists|threads: usize| rows == #[trigger] assignment_chunk_rows(
            points as int,
            threads as int,
        ),
        ADS_ASSIGN_MIN_CHUNK_ROWS <= rows <= ADS_ASSIGN_MAX_CHUNK_ROWS,
{
    let threads: usize = current_num_threads();
    choose_adsampling_assignment_chunk_rows_for_threads(points, threads)
}

/// Whether the rows of a leaf are spread over threads, for a caller that runs in a pool
/// or outside of any.
pub fn should_parallelize_rows_from(leaf_size: usize, inside_pool: bool) -> (result: bool)
    ensures
        result == (leaf_size >= ADS_LEAF_PARALLEL_MIN_ROWS && !inside_pool),
{
    leaf_size >= ADS_LEAF_PARALLEL_MIN_ROWS && !inside_pool
}

/// Whether the caller should spread the rows of a leaf over threads: never from within
/// a pool, and never those of a small leaf.
pub fn should_parallelize_leaf_adsampling_rows(leaf_size: usize) -> (result: bool)
    ensures
        result ==> leaf_size >= ADS_LEAF_PARALLEL_MIN_ROWS,
{
    should_parallelize_rows_from(leaf_size, current_thread_index().is_some())
}

} // verus!
