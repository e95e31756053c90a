//! What planned reads have done, in all and at each depth.

use vstd::prelude::*;

use crate::arith::{capped, capped_u64, greatest, max_u64, max_usize};
use crate::io_plan::{
    larger, larger_of, IoPainSample, IoPlanConfig, NodeAction, NodeCost, NodeExecutionPlan,
    PlannerCounters,
};
use crate::window_cache::VectorWindowCacheStats;

verus! {

/// What reads at one depth have cost. Times are in nanoseconds.
#[derive(Clone, Copy, Debug, PartialEq, Eq, Structural)]
pub struct DepthIoPainStats {
    pub depth: usize,
    pub point_gather_windows: usize,
    pub point_gather_batches: usize,
    pub logical_bytes: u64,
    pub physical_bytes: u64,
    pub io_ns: u64,
    pub consumer_wait_ns: u64,
    pub producer_wait_ns: u64,
    pub prefetch_used_peak_bytes: usize,
}

impl DepthIoPainStats {
    pub open spec fn zero(depth: usize) -> DepthIoPainStats {
        DepthIoPainStats {
            depth,
            point_gather_windows: 0,
            point_gather_batches: 0,
            logical_bytes: 0,
            physical_bytes: 0,
            io_ns: 0,
            consumer_wait_ns: 0,
            producer_wait_ns: 0,
            prefetch_used_peak_bytes: 0,
        }
    }

    pub fn new(depth: usize) -> (stats: Self)
        ensures
            stats == DepthIoPainStats::zero(depth),
    {
        DepthIoPainStats {
            depth,
            point_gather_windows: 0,
            point_gather_batches: 0,
            logical_bytes: 0,
            physical_bytes: 0,
            io_ns: 0,
            consumer_wait_ns: 0,
            producer_wait_ns: 0,
            prefetch_used_peak_bytes: 0,
        }
    }

    pub open spec fn addable(self, other: DepthIoPainStats) -> bool {
        &&& self.point_gather_windows + other.point_gather_windows <= usize::MAX
        &&& self.point_gather_batches + other.point_gather_batches <= usize::MAX
    }

    /// Counters, bytes and times add up, the peak is the larger one.
    pub open spec fn plus(self, other: DepthIoPainStats) -> DepthIoPainStats {
        DepthIoPainStats {
            depth: self.depth,
            point_gather_windows: (self.point_gather_windows
                + other.point_gather_windows) as usize,
            point_gather_batches: (self.point_gather_batches
                + other.point_gather_batches) as usize,
            logical_bytes: capped_u64(self.logical_bytes + other.logical_bytes) as u64,
            physical_bytes: capped_u64(self.physical_bytes + other.physical_bytes) as u64,
            io_ns: capped_u64(self.io_ns + other.io_ns) as u64,
            consumer_wait_ns: capped_u64(self.consumer_wait_ns + other.consumer_wait_ns) as u64,
            producer_wait_ns: capped_u64(self.producer_wait_ns + other.producer_wait_ns) as u64,
            prefetch_used_peak_bytes: greatest(
                self.prefetch_used_peak_bytes as int,
                other.prefetch_used_peak_bytes as int,
            ) as usize,
        }
    }

    pub fn add_io_pain(&mut self, other: &DepthIoPainStats)
        requires
            old(self).addable(*other),
        ensures
            *final(self) == old(self).plus(*other),
    {
        self.point_gather_windows = self.point_gather_windows + other.point_gather_windows;
        self.point_gather_batches = self.point_gather_batches + other.point_gather_batches;
        self.logical_bytes = self.logical_bytes.saturating_add(other.logical_bytes);
        self.physical_bytes = self.physical_bytes.saturating_add(other.physical_bytes);
        self.io_ns = self.io_ns.saturating_add(other.io_ns);
        self.consumer_wait_ns = self.consumer_wait_ns.saturating_add(other.consumer_wait_ns);
        self.producer_wait_ns = self.producer_wait_ns.saturating_add(other.producer_wait_ns);
        self.prefetch_used_peak_bytes = max_usize(
            self.prefetch_used_peak_bytes,
            other.prefetch_used_peak_bytes,
        );
    }

    /// The larger of both, counter by counter.
    pub open spec fn at_least(self, other: DepthIoPainStats) -> DepthIoPainStats {
        DepthIoPainStats {
            depth: self.depth,
            point_gather_windows: greatest(
                self.point_gather_windows as int,
                other.point_gather_windows as int,
            ) as usize,
            point_gather_batches: greatest(
                self.point_gather_batches as int,
                other.point_gather_batches as int,
            ) as usize,
            logical_bytes: greatest(self.logical_bytes as int, other.logical_bytes as int) as u64,
            physical_bytes: greatest(
                self.physical_bytes as int,
                other.physical_bytes as int,
            ) as u64,
            io_ns: greatest(self.io_ns as int, other.io_ns as int) as u64,
            consumer_wait_ns: greatest(
                self.consumer_wait_ns as int,
                other.consumer_wait_ns as int,
            ) as u64,
            producer_wait_ns: greatest(
                self.producer_wait_ns as int,
                other.producer_wait_ns as int,
            ) as u64,
            prefetch_used_peak_bytes: greatest(
                self.prefetch_used_peak_bytes as int,
                other.prefetch_used_peak_bytes as int,
            ) as usize,
        }
    }

    pub fn raise_to(&mut self, other: &DepthIoPainStats)
        ensures
            *final(self) == old(self).at_least(*other),
    {
        self.point_gather_windows = max_usize(
            self.point_gather_windows,
            other.point_gather_windows,
        );
        self.point_gather_batches = max_usize(
            self.point_gather_batches,
            other.point_gather_batches,
        );
        self.logical_bytes = max_u64(self.logical_bytes, other.logical_bytes);
        self.physical_bytes = max_u64(self.physical_bytes, other.physical_bytes);
        self.io_ns = max_u64(self.io_ns, other.io_ns);
        self.consumer_wait_ns = max_u64(self.consumer_wait_ns, other.consumer_wait_ns);
        self.producer_wait_ns = max_u64(self.producer_wait_ns, other.producer_wait_ns);
        self.prefetch_used_peak_bytes = max_usize(
            self.prefetch_used_peak_bytes,
            other.prefetch_used_peak_bytes,
        );
    }

    /// Enough was measured to tell what a read costs.
    pub open spec fn telling(self) -> bool {
        self.point_gather_windows > 0 && self.logical_bytes > 0 && self.physical_bytes > 0
            && self.io_ns > 0
    }

    pub open spec fn sample(self) -> IoPainSample {
        IoPainSample {
            raw_read_calls: self.point_gather_windows as u64,
            logical_bytes: self.logical_bytes,
            physical_bytes: self.physical_bytes,
            consumer_wait_ns: self.consumer_wait_ns,
            producer_wait_ns: self.producer_wait_ns,
            io_wall_ns: self.io_ns,
            compute_wall_ns: 0,
            observed_wait_ns: self.io_ns,
            observed_reads: self.point_gather_windows as u64,
            blocked_worker_wait_ns: 0,
        }
    }

    pub fn to_pain_sample(&self) -> (sample: Option<IoPainSample>)
        ensures
            sample == if self.telling() {
                Some(self.sample())
            } else {
                None
            },
    {
        if self.point_gather_windows == 0 || self.logical_bytes == 0 || self.physical_bytes == 0
            || self.io_ns == 0 {
            return None;
        }
        Some(
            IoPainSample {
                raw_read_calls: self.point_gather_windows as u64,
                logical_bytes: self.logical_bytes,
                physical_bytes: self.physical_bytes,
                consumer_wait_ns: self.consumer_wait_ns,
                producer_wait_ns: self.producer_wait_ns,
                io_wall_ns: self.io_ns,
                compute_wall_ns: 0,
                observed_wait_ns: self.io_ns,
                observed_reads: self.point_gather_windows as u64,
                blocked_worker_wait_ns: 0,
            },
        )
    }
}

/// A snapshot that was taken over once changes nothing when it comes again.
pub proof fn law_snapshot_counts_once(a: DepthIoPainStats, b: DepthIoPainStats)
    ensures
        a.at_least(b).at_least(b) == a.at_least(b),
        a.depth == b.depth ==> a.at_least(b) == b.at_least(a),
{
}

/// The depths are listed from the smallest to the largest, each once.
pub open spec fn by_depth(pain: Seq<DepthIoPainStats>) -> bool {
    forall|i: int, j: int|
        0 <= i < j < pain.len() ==> (#[trigger] pain[i]).depth < (#[trigger] pain[j]).depth
}

/// What is listed for a depth.
pub open spec fn pain_at(pain: Seq<DepthIoPainStats>, depth: usize) -> Option<DepthIoPainStats> {
    if exists|i: int| 0 <= i < pain.len() && (#[trigger] pain[i]).depth == depth {
        Some(pain[choose|i: int| 0 <= i < pain.len() && (#[trigger] pain[i]).depth == depth])
    } else {
        None
    }
}

proof fn lemma_pain_at(pain: Seq<DepthIoPainStats>, i: int)
    requires
        by_depth(pain),
        0 <= i < pain.len(),
    ensures
        pain_at(pain, pain[i].depth) == Some(pain[i]),
{
    let depth = pain[i].depth;
    let k = choose|k: int| 0 <= k < pain.len() && (#[trigger] pain[k]).depth == depth;
    assert(pain[k].depth == depth);
    if k < i {
        assert(pain[k].depth < pain[i].depth);
    } else if i < k {
        assert(pain[i].depth < pain[k].depth);
    }
}

/// What is listed for a depth, or nothing measured.
pub open spec fn pain_or_zero(pain: Seq<DepthIoPainStats>, depth: usize) -> DepthIoPainStats {
    match pain_at(pain, depth) {
        Some(stats) => stats,
        None => DepthIoPainStats::zero(depth),
    }
}

/// Where a depth is listed. It is added, with nothing measured, where it was not.
fn entry(pain: &mut Vec<DepthIoPainStats>, depth: usize) -> (at: usize)
    requires
        by_depth(old(pain)@),
    ensures
        by_depth(final(pain)@),
        at < final(pain)@.len(),
        final(pain)@[at as int] == pain_or_zero(old(pain)@, depth),
        final(pain)@[at as int].depth == depth,
        forall|d: usize|
            #![trigger pain_at(final(pain)@, d)]
            pain_at(final(pain)@, d) == if d == depth {
                Some(pain_or_zero(old(pain)@, depth))
            } else {
                pain_at(old(pain)@, d)
            },
{
    let ghost before = pain@;
    let mut at: usize = 0;
    while at < pain.len() && pain[at].depth < depth
        invariant
            by_depth(pain@),
            pain@ == before,
            at <= pain@.len(),
            forall|i: int| 0 <= i < at ==> (#[trigger] pain@[i]).depth < depth,
        decreases pain@.len() - at,
    {
        at = at + 1;
    }
    if at < pain.len() && pain[at].depth == depth {
        proof {
            lemma_pain_at(before, at as int);
        }
        return at;
    }
    proof {
        assert forall|i: int| 0 <= i < before.len()
            implies (#[trigger] before[i]).depth != depth by {
            if i > at {
                assert(before[at as int].depth < before[i].depth);
            }
        }
        assert(pain_at(before, depth) is None);
    }
    pain.insert(at, DepthIoPainStats::new(depth));
    proof {
        let after = pain@;
        assert forall|i: int, j: int| 0 <= i < j < after.len()
            implies (#[trigger] after[i]).depth < (
        #[trigger] after[j]).depth by {
            let a = if i < at {
                i
            } else {
                i - 1
            };
            let b = if j < at {
                j
            } else {
                j - 1
            };
            if i != at {
                assert(after[i] == before[a]);
            }
            if j != at {
                assert(after[j] == before[b]);
            }
            if i == at {
                assert(before[at as int].depth > depth);
                if b > at {
                    assert(before[at as int].depth < before[b].depth);
                }
            }
        }
        lemma_pain_at(after, at as int);
        assert forall|d: usize| #![trigger pain_at(after, d)] pain_at(after, d) == if d == depth {
            Some(pain_or_zero(before, depth))
        } else {
            pain_at(before, d)
        } by {
            if d != depth {
                lemma_inserted_pain(before, after, at as int, depth, d);
            }
        }
    }
    at
}

/// Adding one depth leaves the others as they are listed.
proof fn lemma_inserted_pain(
    before: Seq<DepthIoPainStats>,
    after: Seq<DepthIoPainStats>,
    at: int,
    depth: usize,
    d: usize,
)
    requires
        by_depth(before),
        by_depth(after),
        0 <= at <= before.len(),
        after == before.insert(at, DepthIoPainStats::zero(depth)),
        d != depth,
    ensures
        pain_at(after, d) == pain_at(before, d),
{
    if exists|i: int| 0 <= i < before.len() && (#[trigger] before[i]).depth == d {
        let i = choose|i: int| 0 <= i < before.len() && (#[trigger] before[i]).depth == d;
        let k = if i < at {
            i
        } else {
            i + 1
        };
        assert(after[k] == before[i]);
        lemma_pain_at(before, i);
        lemma_pain_at(after, k);
    } else if exists|k: int| 0 <= k < after.len() && (#[trigger] after[k]).depth == d {
        let k = choose|k: int| 0 <= k < after.len() && (#[trigger] after[k]).depth == d;
        let i = if k < at {
            k
        } else {
            k - 1
        };
        assert(k != at);
        assert(before[i] == after[k]);
    }
}

/// Changing what is listed for one depth leaves the others.
proof fn lemma_updated_pain(pain: Seq<DepthIoPainStats>, at: int, stats: DepthIoPainStats, d: usize)
    requires
        by_depth(pain),
        0 <= at < pain.len(),
        stats.depth == pain[at].depth,
    ensures
        by_depth(pain.update(at, stats)),
        pain_at(pain.update(at, stats), d) == if d == stats.depth {
            Some(stats)
        } else {
            pain_at(pain, d)
        },
{
    let after = pain.update(at, stats);
    assert forall|i: int, j: int| 0 <= i < j < after.len() implies (#[trigger] after[i]).depth < (
    #[trigger] after[j]).depth by {
        assert(pain[i].depth < pain[j].depth);
    }
    if d == stats.depth {
        lemma_pain_at(after, at);
    } else if exists|i: int| 0 <= i < pain.len() && (#[trigger] pain[i]).depth == d {
        let i = choose|i: int| 0 <= i < pain.len() && (#[trigger] pain[i]).depth == d;
        assert(after[i] == pain[i]);
        lemma_pain_at(pain, i);
        lemma_pain_at(after, i);
    } else if exists|i: int| 0 <= i < after.len() && (#[trigger] after[i]).depth == d {
        let i = choose|i: int| 0 <= i < after.len() && (#[trigger] after[i]).depth == d;
        assert(pain[i].depth == d);
    }
}

/// Counters of a planned build, and its reads at each depth.
#[derive(Debug)]
pub struct IoPlannerStats {
    pub counters: PlannerCounters,
    pub io_pain_by_depth: Vec<DepthIoPainStats>,
}

impl IoPlannerStats {
    pub open spec fn wf(&self) -> bool {
        by_depth(self.io_pain_by_depth@)
    }

    pub fn new() -> (stats: Self)
        ensures
            stats.wf(),
            stats.counters == PlannerCounters::zero(),
            stats.io_pain_by_depth@ == Seq::<DepthIoPainStats>::empty(),
    {
        IoPlannerStats { counters: PlannerCounters::new(), io_pain_by_depth: Vec::new() }
    }

    /// The counters with the configuration taken over.
    pub open spec fn configured(
        counters: PlannerCounters,
        config: IoPlanConfig,
    ) -> PlannerCounters {
        PlannerCounters {
            enabled: true,
            dry_run: config.dry_run,
            verify: config.verify,
            window_cache_budget_bytes: greatest(
                counters.window_cache_budget_bytes as int,
                config.window_cache_bytes as int,
            ) as usize,
            ..counters
        }
    }

    pub fn record_config(&mut self, config: &IoPlanConfig)
        ensures
            final(self).io_pain_by_depth@ == old(self).io_pain_by_depth@,
            final(self).counters == IoPlannerStats::configured(old(self).counters, *config),
    {
        self.counters.enabled = true;
        self.counters.dry_run = config.dry_run;
        self.counters.verify = config.verify;
        self.counters.window_cache_budget_bytes = max_usize(
            self.counters.window_cache_budget_bytes,
            config.window_cache_bytes,
        );
    }

    /// A plan can be counted.
    pub open spec fn plan_fits(counters: PlannerCounters, plan: NodeExecutionPlan) -> bool {
        &&& counters.planned_nodes < usize::MAX
        &&& counters.selected_external < usize::MAX
        &&& counters.selected_prefetch_streaming < usize::MAX
        &&& counters.selected_vector_run < usize::MAX
        &&& counters.selected_exact_fallback < usize::MAX
        &&& counters.estimated_before_raw_read_calls
            + plan.external_streaming.estimated_raw_read_calls <= u64::MAX
        &&& counters.estimated_after_raw_read_calls
            + plan.selected_cost().estimated_raw_read_calls <= u64::MAX
        &&& counters.estimated_before_raw_read_bytes
            + plan.external_streaming.estimated_raw_read_bytes <= u64::MAX
        &&& counters.estimated_after_raw_read_bytes
            + plan.selected_cost().estimated_raw_read_bytes <= u64::MAX
    }

    /// The counters after a plan.
    pub open spec fn planned(
        counters: PlannerCounters,
        plan: NodeExecutionPlan,
    ) -> PlannerCounters {
        let cost = plan.selected_cost();
        PlannerCounters {
            planned_nodes: (counters.planned_nodes + 1) as usize,
            selected_external: (counters.selected_external + if plan.selected
                == NodeAction::ExternalStreaming {
                1int
            } else {
                0
            }) as usize,
            selected_prefetch_streaming: (counters.selected_prefetch_streaming + if plan.selected
                == NodeAction::PrefetchStreaming {
                1int
            } else {
                0
            }) as usize,
            selected_vector_run: (counters.selected_vector_run + if plan.selected
                == NodeAction::HotVectorRun {
                1int
            } else {
                0
            }) as usize,
            selected_exact_fallback: (counters.selected_exact_fallback + if plan.selected
                == NodeAction::ExactFallback {
                1int
            } else {
                0
            }) as usize,
            estimated_before_raw_read_calls: (counters.estimated_before_raw_read_calls
                + plan.external_streaming.estimated_raw_read_calls) as u64,
            estimated_after_raw_read_calls: (counters.estimated_after_raw_read_calls
                + cost.estimated_raw_read_calls) as u64,
            estimated_before_raw_read_bytes: (counters.estimated_before_raw_read_bytes
                + plan.external_streaming.estimated_raw_read_bytes) as u64,
            estimated_after_raw_read_bytes: (counters.estimated_after_raw_read_bytes
                + cost.estimated_raw_read_bytes) as u64,
            planned_temp_bytes: capped(counters.planned_temp_bytes + cost.temp_bytes) as usize,
            best_benefit_per_temp_byte: larger(
                counters.best_benefit_per_temp_byte,
                plan.benefit_per_temp_byte,
            ),
            ..counters
        }
    }

    /// Counts a plan, and lists its depth.
    pub fn record_plan(&mut self, plan: &NodeExecutionPlan, config: &IoPlanConfig)
        requires
            old(self).wf(),
            IoPlannerStats::plan_fits(old(self).counters, *plan),
        ensures
            final(self).wf(),
            final(self).counters == IoPlannerStats::planned(
                IoPlannerStats::configured(old(self).counters, *config),
                *plan,
            ),
            forall|d: usize|
                #![trigger pain_at(final(self).io_pain_by_depth@, d)]
                pain_at(final(self).io_pain_by_depth@, d) == if d == plan.depth {
                    Some(pain_or_zero(old(self).io_pain_by_depth@, d))
                } else {
                    pain_at(old(self).io_pain_by_depth@, d)
                },
    {
        self.record_config(config);
        let _at: usize = entry(&mut self.io_pain_by_depth, plan.depth);
        let cost: NodeCost = plan.cost();
        self.counters.planned_nodes = self.counters.planned_nodes + 1;
        match plan.selected {
            NodeAction::ExternalStreaming => {
                self.counters.selected_external = self.counters.selected_external + 1;
            },
            NodeAction::PrefetchStreaming => {
                self.counters.selected_prefetch_streaming = self.counters.selected_prefetch_streaming
                    + 1;
            },
            NodeAction::HotVectorRun => {
                self.counters.selected_vector_run = self.counters.selected_vector_run + 1;
            },
            NodeAction::ExactFallback => {
                self.counters.selected_exact_fallback = self.counters.selected_exact_fallback + 1;
            },
        }
        self.counters.estimated_before_raw_read_calls = self.counters.estimated_before_raw_read_calls
            + plan.external_streaming.estimated_raw_read_calls;
        self.counters.estimated_after_raw_read_calls = self.counters.estimated_after_raw_read_calls
            + cost.estimated_raw_read_calls;
        self.counters.estimated_before_raw_read_bytes = self.counters.estimated_before_raw_read_bytes
            + plan.external_streaming.estimated_raw_read_bytes;
        self.counters.estimated_after_raw_read_bytes = self.counters.estimated_after_raw_read_bytes
            + cost.estimated_raw_read_bytes;
        self.counters.planned_temp_bytes = self.counters.planned_temp_bytes.saturating_add(
            cost.temp_bytes,
        );
        self.counters.best_benefit_per_temp_byte = larger_of(
            self.counters.best_benefit_per_temp_byte,
            plan.benefit_per_temp_byte,
        );
    }

    pub fn record_external_execution(&mut self)
        requires
            old(self).counters.executed_external < usize::MAX,
        ensures
            final(self).io_pain_by_depth@ == old(self).io_pain_by_depth@,
            final(self).counters == (PlannerCounters {
                enabled: true,
                executed_external: (old(self).counters.executed_external + 1) as usize,
                ..old(self).counters
            }),
    {
        self.counters.enabled = true;
        self.counters.executed_external = self.counters.executed_external + 1;
    }

    pub fn record_prefetch_streaming_execution(&mut self)
        requires
            old(self).counters.executed_prefetch_streaming < usize::MAX,
        ensures
            final(self).io_pain_by_depth@ == old(self).io_pain_by_depth@,
            final(self).counters == (PlannerCounters {
                enabled: true,
                executed_prefetch_streaming: (old(self).counters.executed_prefetch_streaming
                    + 1) as usize,
                ..old(self).counters
            }),
    {
        self.counters.enabled = true;
        self.counters.executed_prefetch_streaming = self.counters.executed_prefetch_streaming + 1;
    }

    pub fn record_vector_run_execution(&mut self, temp_bytes: usize, wall_ns: u64)
        requires
            old(self).counters.executed_vector_run < usize::MAX,
            old(self).counters.vector_run_materialize_ns + wall_ns <= u64::MAX,
        ensures
            final(self).io_pain_by_depth@ == old(self).io_pain_by_depth@,
            final(self).counters == (PlannerCounters {
                enabled: true,
                executed_vector_run: (old(self).counters.executed_vector_run + 1) as usize,
                materialized_temp_bytes: capped(
                    old(self).counters.materialized_temp_bytes + temp_bytes,
                ) as usize,
                vector_run_materialize_ns: (old(self).counters.vector_run_materialize_ns
                    + wall_ns) as u64,
                ..old(self).counters
            }),
    {
        self.counters.enabled = true;
        self.counters.executed_vector_run = self.counters.executed_vector_run + 1;
        self.counters.materialized_temp_bytes = self.counters.materialized_temp_bytes.saturating_add(
            temp_bytes,
        );
        self.counters.vector_run_materialize_ns = self.counters.vector_run_materialize_ns + wall_ns;
    }

    pub fn record_exact_fallback_execution(&mut self)
        requires
            old(self).counters.executed_exact_fallback < usize::MAX,
        ensures
            final(self).io_pain_by_depth@ == old(self).io_pain_by_depth@,
            final(self).counters == (PlannerCounters {
                enabled: true,
                executed_exact_fallback: (old(self).counters.executed_exact_fallback
                    + 1) as usize,
                ..old(self).counters
            }),
    {
        self.counters.enabled = true;
        self.counters.executed_exact_fallback = self.counters.executed_exact_fallback + 1;
    }

    pub fn record_child_extent_batching(
        &mut self,
        logical_extents: usize,
        coalesced_reads: usize,
        logical_bytes: u64,
        physical_bytes: u64,
        header_read_savings: usize,
    )
        requires
            old(self).counters.child_extent_logical_extents + logical_extents <= usize::MAX,
            old(self).counters.child_extent_coalesced_reads + coalesced_reads <= usize::MAX,
            old(self).counters.child_extent_header_read_savings + header_read_savings
                <= usize::MAX,
        ensures
            final(self).io_pain_by_depth@ == old(self).io_pain_by_depth@,
            final(self).counters == (PlannerCounters {
                enabled: true,
                child_extent_logical_extents: (old(self).counters.child_extent_logical_extents
                    + logical_extents) as usize,
                child_extent_coalesced_reads: (old(self).counters.child_extent_coalesced_reads
                    + coalesced_reads) as usize,
                child_extent_logical_bytes: capped_u64(
                    old(self).counters.child_extent_logical_bytes + logical_bytes,
                ) as u64,
                child_extent_physical_bytes: capped_u64(
                    old(self).counters.child_extent_physical_bytes + physical_bytes,
                ) as u64,
                child_extent_header_read_savings: (old(self).counters.child_extent_header_read_savings
                    + header_read_savings) as usize,
                ..old(self).counters
            }),
    {
        self.counters.enabled = true;
        self.counters.child_extent_logical_extents = self.counters.child_extent_logical_extents
            + logical_extents;
        self.counters.child_extent_coalesced_reads = self.counters.child_extent_coalesced_reads
            + coalesced_reads;
        self.counters.child_extent_logical_bytes = self.counters.child_extent_logical_bytes.saturating_add(
            logical_bytes,
        );
        self.counters.child_extent_physical_bytes = self.counters.child_extent_physical_bytes.saturating_add(
            physical_bytes,
        );
        self.counters.child_extent_header_read_savings = self.counters.child_extent_header_read_savings
            + header_read_savings;
    }

    pub fn record_small_run_wave(&mut self, runs: usize, points: usize)
        requires
            old(self).counters.small_run_waves < usize::MAX,
            old(self).counters.small_run_wave_runs + runs <= usize::MAX,
            old(self).counters.small_run_wave_points + points <= usize::MAX,
        ensures
            final(self).io_pain_by_depth@ == old(self).io_pain_by_depth@,
            final(self).counters == (PlannerCounters {
                enabled: true,
                small_run_waves: (old(self).counters.small_run_waves + 1) as usize,
                small_run_wave_runs: (old(self).counters.small_run_wave_runs + runs) as usize,
                small_run_wave_points: (old(self).counters.small_run_wave_points
                    + points) as usize,
                ..old(self).counters
            }),
    {
        self.counters.enabled = true;
        self.counters.small_run_waves = self.counters.small_run_waves + 1;
        self.counters.small_run_wave_runs = self.counters.small_run_wave_runs + runs;
        self.counters.small_run_wave_points = self.counters.small_run_wave_points + points;
    }

    pub fn record_vector_to_external_fallback(&mut self)
        requires
            old(self).counters.vector_to_external_fallbacks < usize::MAX,
        ensures
            final(self).io_pain_by_depth@ == old(self).io_pain_by_depth@,
            final(self).counters == (PlannerCounters {
                enabled: true,
                vector_to_external_fallbacks: (old(self).counters.vector_to_external_fallbacks
                    + 1) as usize,
                ..old(self).counters
            }),
    {
        self.counters.enabled = true;
        self.counters.vector_to_external_fallbacks = self.counters.vector_to_external_fallbacks + 1;
    }

    /// Adds what reads at a depth have cost, where there were any.
    pub fn record_depth_io_pain(&mut self, pain: &DepthIoPainStats)
        requires
            old(self).wf(),
            pain_or_zero(old(self).io_pain_by_depth@, pain.depth).addable(*pain),
        ensures
            final(self).wf(),
            if pain.point_gather_windows == 0 && pain.point_gather_batches == 0
                && pain.logical_bytes == 0 {
                *final(self) == *old(self)
            } else {
                &&& final(self).counters == (PlannerCounters {
                    enabled: true,
                    ..old(self).counters
                })
                &&& forall|d: usize|
                    #![trigger pain_at(final(self).io_pain_by_depth@, d)]
                    pain_at(final(self).io_pain_by_depth@, d) == if d == pain.depth {
                        Some(pain_or_zero(old(self).io_pain_by_depth@, d).plus(*pain))
                    } else {
                        pain_at(old(self).io_pain_by_depth@, d)
                    }
            },
    {
        if pain.point_gather_windows == 0 && pain.point_gather_batches == 0 && pain.logical_bytes
            == 0 {
            return ;
        }
        self.counters.enabled = true;
        let at: usize = entry(&mut self.io_pain_by_depth, pain.depth);
        let ghost listed = self.io_pain_by_depth@;
        let mut stats: DepthIoPainStats = self.io_pain_by_depth[at];
        stats.add_io_pain(pain);
        self.io_pain_by_depth.set(at, stats);
        proof {
            assert forall|d: usize| #![trigger pain_at(self.io_pain_by_depth@, d)] pain_at(
                self.io_pain_by_depth@,
                d,
            ) == if d == pain.depth {
                Some(stats)
            } else {
                pain_at(old(self).io_pain_by_depth@, d)
            } by {
                lemma_updated_pain(listed, at as int, stats, d);
                assert(pain_at(listed, d) == pain_at(listed, d));
            }
            lemma_updated_pain(listed, at as int, stats, pain.depth);
        }
    }

    /// Adds what the reads of one pipeline at a depth have cost, and its cache.
    pub fn record_depth_point_pipeline(
        &mut self,
        pain: &DepthIoPainStats,
        window_cache: &VectorWindowCacheStats,
    )
        requires
            old(self).wf(),
            pain_or_zero(old(self).io_pain_by_depth@, pain.depth).addable(*pain),
            old(self).counters.window_cache.mergeable(*window_cache),
        ensures
            final(self).wf(),
            if pain.point_gather_windows == 0 && pain.point_gather_batches == 0 {
                *final(self) == *old(self)
            } else {
                &&& final(self).counters == (PlannerCounters {
                    enabled: true,
                    window_cache: old(self).counters.window_cache.merged(*window_cache),
                    ..old(self).counters
                })
                &&& forall|d: usize|
                    #![trigger pain_at(final(self).io_pain_by_depth@, d)]
                    pain_at(final(self).io_pain_by_depth@, d) == if d == pain.depth {
                        Some(pain_or_zero(old(self).io_pain_by_depth@, d).plus(*pain))
                    } else {
                        pain_at(old(self).io_pain_by_depth@, d)
                    }
            },
    {
        if pain.point_gather_batches == 0 && pain.point_gather_windows == 0 {
            return ;
        }
        self.record_depth_io_pain(pain);
        self.counters.window_cache.merge(window_cache);
    }

    /// What reads cost at the nearest depth, not below the given one, that tells.
    pub fn pain_sample_for_depth(&self, depth: usize) -> (sample: Option<IoPainSample>)
        requires
            self.wf(),
        ensures
            match sample {
                Some(found) => exists|i: int|
                    0 <= i < self.io_pain_by_depth@.len() && (
                    #[trigger] self.io_pain_by_depth@[i]).depth <= depth
                        && self.io_pain_by_depth@[i].telling() && found
                        == self.io_pain_by_depth@[i].sample() && forall|j: int|
                        i < j < self.io_pain_by_depth@.len() ==> (
                        #[trigger] self.io_pain_by_depth@[j]).depth > depth
                            || !self.io_pain_by_depth@[j].telling(),
                None => forall|j: int|
                    0 <= j < self.io_pain_by_depth@.len() ==> (
                    #[trigger] self.io_pain_by_depth@[j]).depth > depth
                        || !self.io_pain_by_depth@[j].telling(),
            },
    {
        let mut i: usize = self.io_pain_by_depth.len();
        while i > 0
            invariant
                i <= self.io_pain_by_depth@.len(),
                forall|j: int|
                    i <= j < self.io_pain_by_depth@.len() ==> (
                    #[trigger] self.io_pain_by_depth@[j]).depth > depth
                        || !self.io_pain_by_depth@[j].telling(),
            decreases i,
        {
            i = i - 1;
            let stats: DepthIoPainStats = self.io_pain_by_depth[i];
            if stats.depth <= depth {
                let found: Option<IoPainSample> = stats.to_pain_sample();
                if found.is_some() {
                    proof {
                        assert(self.io_pain_by_depth@[i as int] == stats);
                    }
                    return found;
                }
            }
        }
        None
    }

    /// Counters and depths of both can be added.
    pub open spec fn mergeable(&self, other: &IoPlannerStats) -> bool {
        &&& self.counters.mergeable(other.counters)
        &&& forall|i: int|
            0 <= i < other.io_pain_by_depth@.len() ==> pain_or_zero(
                self.io_pain_by_depth@,
                (#[trigger] other.io_pain_by_depth@[i]).depth,
            ).addable(other.io_pain_by_depth@[i])
    }

    /// Adds the counters of another build, and its reads depth by depth.
    pub fn merge(&mut self, other: &IoPlannerStats)
        requires
            old(self).wf(),
            other.wf(),
            old(self).mergeable(other),
        ensures
            final(self).wf(),
            final(self).counters == old(self).counters.merged(other.counters),
            forall|d: usize|
                #![trigger pain_at(final(self).io_pain_by_depth@, d)]
                pain_at(final(self).io_pain_by_depth@, d) == match pain_at(
                    other.io_pain_by_depth@,
                    d,
                ) {
                    Some(stats) => Some(pain_or_zero(old(self).io_pain_by_depth@, d).plus(stats)),
                    None => pain_at(old(self).io_pain_by_depth@, d),
                },
    {
        self.counters.merge(&other.counters);
        let total: usize = other.io_pain_by_depth.len();
        let ghost theirs = other.io_pain_by_depth@;
        let ghost mine = self.io_pain_by_depth@;
        proof {
            assert forall|d: usize| #![trigger pain_at(mine, d)] pain_at(mine, d) == match pain_at(
                theirs.take(0),
                d,
            ) {
                Some(stats) => Some(pain_or_zero(mine, d).plus(stats)),
                None => pain_at(mine, d),
            } by {}
        }
        for i in 0..total
            invariant
                total == theirs.len(),
                theirs == other.io_pain_by_depth@,
                by_depth(theirs),
                self.wf(),
                self.counters == old(self).counters.merged(other.counters),
                mine == old(self).io_pain_by_depth@,
                forall|k: int|
                    0 <= k < theirs.len()
                        ==> pain_or_zero(mine, (#[trigger] theirs[k]).depth).addable(
                        theirs[k],
                    ),
                forall|d: usize|
                    #![trigger pain_at(self.io_pain_by_depth@, d)]
                    pain_at(self.io_pain_by_depth@, d) == match pain_at(
                        theirs.take(i as int),
                        d,
                    ) {
                        Some(stats) => Some(pain_or_zero(mine, d).plus(stats)),
                        None => pain_at(mine, d),
                    },
        {
            let pain: DepthIoPainStats = other.io_pain_by_depth[i];
            proof {
                lemma_taken_pain(theirs, i as int, pain.depth);
                assert(pain_at(self.io_pain_by_depth@, pain.depth) == pain_at(mine, pain.depth));
            }
            let ghost before = self.io_pain_by_depth@;
            let at: usize = entry(&mut self.io_pain_by_depth, pain.depth);
            let ghost listed = self.io_pain_by_depth@;
            let mut stats: DepthIoPainStats = self.io_pain_by_depth[at];
            stats.add_io_pain(&pain);
            self.io_pain_by_depth.set(at, stats);
            proof {
                lemma_updated_pain(listed, at as int, stats, pain.depth);
                assert forall|d: usize| #![trigger pain_at(self.io_pain_by_depth@, d)] pain_at(
                    self.io_pain_by_depth@,
                    d,
                ) == match pain_at(theirs.take(i + 1), d) {
                    Some(s) => Some(pain_or_zero(mine, d).plus(s)),
                    None => pain_at(mine, d),
                } by {
                    lemma_updated_pain(listed, at as int, stats, d);
                    lemma_taken_pain(theirs, i as int, d);
                    assert(pain_at(listed, d) == pain_at(listed, d));
                    assert(pain_at(before, d) == pain_at(before, d));
                }
            }
        }
        proof {
            assert(theirs.take(total as int) =~= theirs);
        }
    }

    /// Takes over the reads of a snapshot, depth by depth the larger of both: it holds
    /// the same reads that may be counted here already.
    pub fn merge_depth_io_pain_from(&mut self, other: &IoPlannerStats)
        requires
            old(self).wf(),
            other.wf(),
        ensures
            final(self).wf(),
            final(self).counters == old(self).counters,
            forall|d: usize|
                #![trigger pain_at(final(self).io_pain_by_depth@, d)]
                pain_at(final(self).io_pain_by_depth@, d) == match pain_at(
                    other.io_pain_by_depth@,
                    d,
                ) {
                    Some(stats) => Some(
                        pain_or_zero(old(self).io_pain_by_depth@, d).at_least(stats),
                    ),
                    None => pain_at(old(self).io_pain_by_depth@, d),
                },
    {
        let total: usize = other.io_pain_by_depth.len();
        let ghost theirs = other.io_pain_by_depth@;
        let ghost mine = self.io_pain_by_depth@;
        for i in 0..total
            invariant
                total == theirs.len(),
                theirs == other.io_pain_by_depth@,
                by_depth(theirs),
                self.wf(),
                self.counters == old(self).counters,
                mine == old(self).io_pain_by_depth@,
                forall|d: usize|
                    #![trigger pain_at(self.io_pain_by_depth@, d)]
                    pain_at(self.io_pain_by_depth@, d) == match pain_at(
                        theirs.take(i as int),
                        d,
                    ) {
                        Some(stats) => Some(pain_or_zero(mine, d).at_least(stats)),
                        None => pain_at(mine, d),
                    },
        {
            let pain: DepthIoPainStats = other.io_pain_by_depth[i];
            proof {
                lemma_taken_pain(theirs, i as int, pain.depth);
                assert(pain_at(self.io_pain_by_depth@, pain.depth) == pain_at(mine, pain.depth));
            }
            let ghost before = self.io_pain_by_depth@;
            let at: usize = entry(&mut self.io_pain_by_depth, pain.depth);
            let ghost listed = self.io_pain_by_depth@;
            let mut stats: DepthIoPainStats = self.io_pain_by_depth[at];
            stats.raise_to(&pain);
            self.io_pain_by_depth.set(at, stats);
            proof {
                lemma_updated_pain(listed, at as int, stats, pain.depth);
                assert forall|d: usize| #![trigger pain_at(self.io_pain_by_depth@, d)] pain_at(
                    self.io_pain_by_depth@,
                    d,
                ) == match pain_at(theirs.take(i + 1), d) {
                    Some(s) => Some(pain_or_zero(mine, d).at_least(s)),
                    None => pain_at(mine, d),
                } by {
                    lemma_updated_pain(listed, at as int, stats, d);
                    lemma_taken_pain(theirs, i as int, d);
                    assert(pain_at(listed, d) == pain_at(listed, d));
                    assert(pain_at(before, d) == pain_at(before, d));
                }
            }
        }
        proof {
            assert(theirs.take(total as int) =~= theirs);
        }
    }
}

/// One more depth of a list is listed, and those before it stay.
proof fn lemma_taken_pain(pain: Seq<DepthIoPainStats>, i: int, d: usize)
    requires
        by_depth(pain),
        0 <= i < pain.len(),
    ensures
        by_depth(pain.take(i)),
        pain_at(pain.take(i + 1), d) == if d == pain[i].depth {
            Some(pain[i])
        } else {
            pain_at(pain.take(i), d)
        },
        pain_at(pain.take(i), pain[i].depth) is None,
{
    let shorter = pain.take(i);
    let longer = pain.take(i + 1);
    assert forall|a: int, b: int| 0 <= a < b < shorter.len()
        implies (#[trigger] shorter[a]).depth < (
    #[trigger] shorter[b]).depth by {
        assert(pain[a].depth < pain[b].depth);
    }
    assert forall|a: int, b: int| 0 <= a < b < longer.len() implies (#[trigger] longer[a]).depth < (
    #[trigger] longer[b]).depth by {
        assert(pain[a].depth < pain[b].depth);
    }
    assert forall|k: int| 0 <= k < shorter.len() implies (#[trigger] shorter[k]).depth
        != pain[i].depth by {
        assert(pain[k].depth < pain[i].depth);
    }
    if d == pain[i].depth {
        assert(longer[i] == pain[i]);
        lemma_pain_at(longer, i);
    } else if exists|k: int| 0 <= k < shorter.len() && (#[trigger] shorter[k]).depth == d {
        let k = choose|k: int| 0 <= k < shorter.len() && (#[trigger] shorter[k]).depth == d;
        assert(longer[k] == shorter[k]);
        lemma_pain_at(shorter, k);
        lemma_pain_at(longer, k);
    } else if exists|k: int| 0 <= k < longer.len() && (#[trigger] longer[k]).depth == d {
        let k = choose|k: int| 0 <= k < longer.len() && (#[trigger] longer[k]).depth == d;
        assert(k < i);
        assert(shorter[k].depth == d);
    }
}

/// Counters of two builds can be merged in either order, but for benefits that are
/// different zeros or no numbers.
pub proof fn law_planner_counters_merge_commutes(a: PlannerCounters, b: PlannerCounters)
    requires
        a.best_benefit_per_temp_byte.finite(),
        b.best_benefit_per_temp_byte.finite(),
        a.best_benefit_per_temp_byte.rank() == b.best_benefit_per_temp_byte.rank()
            ==> a.best_benefit_per_temp_byte == b.best_benefit_per_temp_byte,
    ensures
        a.merged(b) == b.merged(a),
{
    crate::window_cache::law_cache_stats_merge_commutes(a.window_cache, b.window_cache);
}

} // verus!
