//! Planning how the points of a node are read, and what the plans came to.

use vstd::prelude::*;

use crate::arith::{capped, capped_u64, div_ceil, floored, greatest, max_u64, max_usize, sat_mul};
use crate::float_bits::F64;
use crate::float_value::{double_units, unordered_double};
use crate::io_plan_laws::{
    law_larger_is_the_larger_one, law_read_ahead_windows_cover_the_bytes,
    law_runs_are_allowed_where_they_pay, law_selected_way_is_worth_most, run_pays, windows_cover,
    worth_most,
};
use crate::window_cache::VectorWindowCacheStats;

verus! {

/// Where the points of a node are.
#[derive(Clone, Copy, Debug, PartialEq, Eq, Structural)]
pub enum StorageState {
    RawIds,
    VectorRun,
    Resident,
}

/// How the points of a node are read.
#[derive(Clone, Copy, Debug, PartialEq, Eq, Structural)]
pub enum NodeAction {
    PrefetchStreaming,
    ExternalStreaming,
    HotVectorRun,
    ExactFallback,
}

/// What the planning is told.
#[derive(Clone, Copy, Debug, PartialEq, Eq, Structural)]
pub struct IoPlanConfig {
    pub enabled: bool,
    pub dry_run: bool,
    pub allow_full_build: bool,
    pub min_depth: usize,
    pub vector_run_enable: bool,
    pub resident_enable: bool,
    pub prefetch_streaming_enable: bool,
    pub small_run_wave_enable: bool,
    pub child_run_batching_enable: bool,
    pub temp_budget_bytes: usize,
    pub window_cache_bytes: usize,
    pub min_resident_points: usize,
    pub max_resident_points: usize,
    pub max_avg_read_size_bytes: usize,
    pub min_consumer_wait_ratio: F64,
    pub min_saved_wait_ms: F64,
    pub min_saved_wait_per_gib_ms: F64,
    pub verify: bool,
}

impl IoPlanConfig {
    /// Nothing is planned.
    pub fn disabled() -> (config: Self)
        ensures
            config == (IoPlanConfig {
                enabled: false,
                dry_run: true,
                allow_full_build: false,
                min_depth: 2,
                vector_run_enable: false,
                resident_enable: false,
                prefetch_streaming_enable: false,
                small_run_wave_enable: false,
                child_run_batching_enable: false,
                temp_budget_bytes: 0,
                window_cache_bytes: 0,
                min_resident_points: 32_768,
                max_resident_points: 0,
                max_avg_read_size_bytes: 16_384,
                min_consumer_wait_ratio: F64 { bits: 0x3fe0_0000_0000_0000 },
                min_saved_wait_ms: F64 { bits: 0x4049_0000_0000_0000 },
                min_saved_wait_per_gib_ms: F64 { bits: 0x408f_4000_0000_0000 },
                verify: false,
            }),
    {
        IoPlanConfig {
            enabled: false,
            dry_run: true,
            allow_full_build: false,
            min_depth: 2,
            vector_run_enable: false,
            resident_enable: false,
            prefetch_streaming_enable: false,
            small_run_wave_enable: false,
            child_run_batching_enable: false,
            temp_budget_bytes: 0,
            window_cache_bytes: 0,
            min_resident_points: 32_768,
            max_resident_points: 0,
            max_avg_read_size_bytes: 16_384,
            min_consumer_wait_ratio: F64 { bits: 0x3fe0_0000_0000_0000 },
            min_saved_wait_ms: F64 { bits: 0x4049_0000_0000_0000 },
            min_saved_wait_per_gib_ms: F64 { bits: 0x408f_4000_0000_0000 },
            verify: false,
        }
    }
}

/// What reads have cost: calls, bytes and waiting times in nanoseconds.
#[derive(Clone, Copy, Debug, PartialEq, Eq, Structural)]
pub struct IoPainSample {
    pub raw_read_calls: u64,
    pub logical_bytes: u64,
    pub physical_bytes: u64,
    pub consumer_wait_ns: u64,
    pub producer_wait_ns: u64,
    pub io_wall_ns: u64,
    pub compute_wall_ns: u64,
    /// What one read takes is `observed_wait_ns` over `observed_reads`.
    pub observed_wait_ns: u64,
    pub observed_reads: u64,
    pub blocked_worker_wait_ns: u64,
}

impl IoPainSample {
    /// An estimate where nothing was measured: one read of each point, of which each
    /// costs 2 microseconds of waiting and 2.5 of reading.
    pub fn estimated(point_count: usize, row_bytes: usize) -> (sample: Self)
        ensures
            sample == (IoPainSample {
                raw_read_calls: point_count as u64,
                logical_bytes: capped(point_count * row_bytes) as u64,
                physical_bytes: capped(point_count * row_bytes) as u64,
                consumer_wait_ns: capped_u64(point_count * 2_000) as u64,
                producer_wait_ns: 0,
                io_wall_ns: capped_u64(point_count * 2_500) as u64,
                compute_wall_ns: 0,
                observed_wait_ns: 2_000,
                observed_reads: 1,
                blocked_worker_wait_ns: 0,
            }),
    {
        let bytes: u64 = sat_mul(point_count, row_bytes) as u64;
        IoPainSample {
            raw_read_calls: point_count as u64,
            logical_bytes: bytes,
            physical_bytes: bytes,
            consumer_wait_ns: crate::arith::sat_mul_u64(point_count as u64, 2_000),
            producer_wait_ns: 0,
            io_wall_ns: crate::arith::sat_mul_u64(point_count as u64, 2_500),
            compute_wall_ns: 0,
            observed_wait_ns: 2_000,
            observed_reads: 1,
            blocked_worker_wait_ns: 0,
        }
    }
}

/// The bytes of temporary files that planned runs may take together.
#[derive(Clone, Copy, Debug, PartialEq, Eq, Structural)]
pub struct IoPlanBudgetState {
    pub temp_budget_bytes: u64,
    pub temp_reserved_bytes: u64,
    /// What was really written.
    pub temp_written_bytes: u64,
}

/// A call that changes what is reserved.
#[derive(Clone, Copy, Debug, PartialEq, Eq, Structural)]
pub enum BudgetCall {
    Reserve { bytes: u64 },
    Release { bytes: u64 },
}

impl IoPlanBudgetState {
    /// No more is reserved than the budget has.
    pub open spec fn wf(self) -> bool {
        self.temp_reserved_bytes <= self.temp_budget_bytes
    }

    /// The budget has so many bytes left.
    pub open spec fn grants(self, bytes: u64) -> bool {
        self.temp_reserved_bytes + bytes <= self.temp_budget_bytes
    }

    /// The state after `bytes` were asked for.
    pub open spec fn reserving(self, bytes: u64) -> Self {
        if self.grants(bytes) {
            IoPlanBudgetState {
                temp_reserved_bytes: (self.temp_reserved_bytes + bytes) as u64,
                ..self
            }
        } else {
            self
        }
    }

    /// The state after `bytes` were given back.
    pub open spec fn releasing(self, bytes: u64) -> Self {
        IoPlanBudgetState { temp_reserved_bytes: (self.temp_reserved_bytes - bytes) as u64, ..self }
    }

    /// The state after some calls, whoever made them, in the order in which they took
    /// effect.
    pub open spec fn after(self, calls: Seq<BudgetCall>) -> Self
        decreases calls.len(),
    {
        if calls.len() == 0 {
            self
        } else {
            let before = self.after(calls.drop_last());
            match calls.last() {
                BudgetCall::Reserve { bytes } => before.reserving(bytes),
                BudgetCall::Release { bytes } => before.releasing(bytes),
            }
        }
    }

    /// What the calls were granted and have not given back.
    pub open spec fn outstanding(self, calls: Seq<BudgetCall>) -> int
        decreases calls.len(),
    {
        if calls.len() == 0 {
            0
        } else {
            let held = self.outstanding(calls.drop_last());
            match calls.last() {
                BudgetCall::Reserve { bytes } => if self.after(calls.drop_last()).grants(bytes) {
                    held + bytes
                } else {
                    held
                },
                BudgetCall::Release { bytes } => held - bytes,
            }
        }
    }

    /// No call gives back more than was granted and not given back before.
    pub open spec fn orderly(self, calls: Seq<BudgetCall>) -> bool
        decreases calls.len(),
    {
        calls.len() == 0 || {
            &&& self.orderly(calls.drop_last())
            &&& calls.last() matches BudgetCall::Release { bytes } ==> bytes <= self.outstanding(
                calls.drop_last(),
            )
        }
    }

    pub fn new(temp_budget_bytes: u64) -> (state: Self)
        ensures
            state.wf(),
            state == (IoPlanBudgetState {
                temp_budget_bytes,
                temp_reserved_bytes: 0,
                temp_written_bytes: 0,
            }),
    {
        IoPlanBudgetState { temp_budget_bytes, temp_reserved_bytes: 0, temp_written_bytes: 0 }
    }

    /// Reserves `bytes` where the budget has them, and nothing where it has not.
    pub fn try_reserve_temp(&mut self, bytes: u64) -> (reserved: bool)
        requires
            old(self).wf(),
        ensures
            final(self).wf(),
            reserved == old(self).grants(bytes),
            *final(self) == old(self).reserving(bytes),
            reserved == (old(self).temp_reserved_bytes + bytes <= old(self).temp_budget_bytes),
            final(self).temp_reserved_bytes == old(self).temp_reserved_bytes + if reserved {
                bytes as int
            } else {
                0
            },
            final(self).temp_budget_bytes == old(self).temp_budget_bytes,
            final(self).temp_written_bytes == old(self).temp_written_bytes,
    {
        match self.temp_reserved_bytes.checked_add(bytes) {
            Some(next) => {
                if next > self.temp_budget_bytes {
                    false
                } else {
                    self.temp_reserved_bytes = next;
                    true
                }
            },
            None => false,
        }
    }

    /// Gives reserved bytes back.
    pub fn release_temp(&mut self, bytes: u64)
        requires
            old(self).wf(),
            bytes <= old(self).temp_reserved_bytes,
        ensures
            final(self).wf(),
            *final(self) == old(self).releasing(bytes),
            final(self).temp_reserved_bytes == old(self).temp_reserved_bytes - bytes,
            final(self).temp_budget_bytes == old(self).temp_budget_bytes,
            final(self).temp_written_bytes == old(self).temp_written_bytes,
    {
        self.temp_reserved_bytes = self.temp_reserved_bytes - bytes;
    }

    /// Counts bytes that were written.
    pub fn record_temp_written(&mut self, bytes: u64)
        requires
            old(self).temp_written_bytes + bytes <= u64::MAX,
        ensures
            *final(self) == (IoPlanBudgetState {
                temp_written_bytes: (old(self).temp_written_bytes + bytes) as u64,
                ..*old(self)
            }),
    {
        self.temp_written_bytes = self.temp_written_bytes + bytes;
    }

    pub fn temp_reserved(&self) -> (bytes: u64)
        ensures
            bytes == self.temp_reserved_bytes,
    {
        self.temp_reserved_bytes
    }
}

/// Bytes that were reserved and given back can be reserved again.
pub proof fn law_release_undoes_reserve(before: IoPlanBudgetState, bytes: u64)
    requires
        before.wf(),
        before.grants(bytes),
    ensures
        before.reserving(bytes).releasing(bytes) == before,
{
}

/// Whatever calls are made and in whatever order they take effect, what they were granted
/// and have not given back is what the state has reserved, and never exceeds the budget.
pub proof fn law_reservations_stay_within_budget(
    start: IoPlanBudgetState,
    calls: Seq<BudgetCall>,
)
    requires
        start.temp_reserved_bytes == 0,
        start.orderly(calls),
    ensures
        0 <= start.outstanding(calls) <= start.temp_budget_bytes,
        start.after(calls).temp_reserved_bytes == start.outstanding(calls),
        start.after(calls).temp_budget_bytes == start.temp_budget_bytes,
        start.after(calls).wf(),
    decreases calls.len(),
{
    if calls.len() > 0 {
        law_reservations_stay_within_budget(start, calls.drop_last());
    }
}

/// What one way of reading a node costs and saves.
#[derive(Clone, Copy, Debug, PartialEq, Eq, Structural)]
pub struct NodeCost {
    pub action: NodeAction,
    pub allowed: bool,
    pub estimated_raw_read_calls: u64,
    pub estimated_raw_read_bytes: u64,
    pub temp_bytes: usize,
    pub resident_bytes: usize,
    pub estimated_benefit: F64,
}

impl NodeCost {
    pub fn gate(&self) -> (gate: &'static str)
        ensures
            gate@ == if self.allowed {
                "allowed"@
            } else {
                "blocked"@
            },
    {
        if self.allowed {
            "allowed"
        } else {
            "blocked"
        }
    }
}

/// Reads and bytes of each way, before anything is known of what they save.
#[derive(Clone, Copy, Debug, PartialEq, Eq, Structural)]
pub struct NodeEstimates {
    pub before_calls: u64,
    pub before_bytes: u64,
    pub prefetch_calls: u64,
    pub prefetch_bytes: u64,
    pub vector_calls: u64,
    pub temp_bytes: usize,
}

/// Bytes of a window that is read ahead.
pub open spec fn prefetch_window_bytes(max_avg_read_size_bytes: int) -> int {
    if max_avg_read_size_bytes == 0 {
        0x1_0000
    } else {
        greatest(capped(max_avg_read_size_bytes * 4), 0x1_0000)
    }
}

/// Reads of a node that is read ahead: its physical bytes in windows.
pub open spec fn prefetch_calls(points: int, row_bytes: int, window: int, physical: int) -> int {
    if points == 0 {
        0
    } else {
        let row = greatest(row_bytes, 1);
        let rows_per_window = greatest(window / row, 1);
        let rows = capped(capped(physical) + (row - 1)) / row;
        greatest(crate::arith::blocks_for(rows, rows_per_window), 1)
    }
}

pub fn estimate_prefetch_read_calls(
    point_count: usize,
    row_bytes: usize,
    config: &IoPlanConfig,
    pain: &IoPainSample,
) -> (calls: u64)
    ensures
        calls == prefetch_calls(
            point_count as int,
            row_bytes as int,
            prefetch_window_bytes(config.max_avg_read_size_bytes as int),
            pain.physical_bytes as int,
        ),
        point_count == 0 ==> calls == 0,
        point_count > 0 && 4 * config.max_avg_read_size_bytes <= usize::MAX && pain.physical_bytes
            + row_bytes <= usize::MAX ==> windows_cover(
            calls as int,
            row_bytes as int,
            if config.max_avg_read_size_bytes <= 16384 {
                65536
            } else {
                4 * config.max_avg_read_size_bytes
            },
            pain.physical_bytes as int,
        ),
{
    proof {
        if 4 * config.max_avg_read_size_bytes <= usize::MAX && pain.physical_bytes + row_bytes
            <= usize::MAX {
            law_read_ahead_windows_cover_the_bytes(
                point_count as int,
                row_bytes as int,
                config.max_avg_read_size_bytes as int,
                pain.physical_bytes as int,
            );
        }
    }
    if point_count == 0 {
        return 0;
    }
    let window: usize = if config.max_avg_read_size_bytes == 0 {
        0x1_0000
    } else {
        max_usize(sat_mul(config.max_avg_read_size_bytes, 4), 0x1_0000)
    };
    let row: usize = max_usize(row_bytes, 1);
    let rows_per_window: usize = max_usize(window / row, 1);
    let physical: usize = if pain.physical_bytes > usize::MAX as u64 {
        usize::MAX
    } else {
        pain.physical_bytes as usize
    };
    let rows: usize = physical.saturating_add(row - 1) / row;
    max_usize(div_ceil(rows, rows_per_window), 1) as u64
}

/// Bytes of a node that is read ahead: what reads have come to, but at least its own.
pub fn estimate_prefetch_physical_bytes(
    point_count: usize,
    row_bytes: usize,
    pain: &IoPainSample,
) -> (bytes: u64)
    ensures
        bytes == greatest(pain.physical_bytes as int, capped(point_count * row_bytes)),
{
    max_u64(pain.physical_bytes, sat_mul(point_count, row_bytes) as u64)
}

/// The estimates of a node.
pub fn estimate_node(
    config: &IoPlanConfig,
    point_count: usize,
    fanout: usize,
    row_bytes: usize,
    pain: &IoPainSample,
) -> (estimates: NodeEstimates)
    ensures
        estimates == (NodeEstimates {
            before_calls: greatest(point_count as int, 1) as u64,
            before_bytes: greatest(capped(point_count * row_bytes), 1) as u64,
            prefetch_calls: prefetch_calls(
                point_count as int,
                row_bytes as int,
                prefetch_window_bytes(config.max_avg_read_size_bytes as int),
                pain.physical_bytes as int,
            ) as u64,
            prefetch_bytes: greatest(
                pain.physical_bytes as int,
                capped(point_count * row_bytes),
            ) as u64,
            vector_calls: greatest(fanout as int, 1) as u64,
            temp_bytes: capped(point_count * row_bytes) as usize,
        }),
{
    let temp_bytes: usize = sat_mul(point_count, row_bytes);
    NodeEstimates {
        before_calls: max_u64(point_count as u64, 1),
        before_bytes: max_u64(temp_bytes as u64, 1),
        prefetch_calls: estimate_prefetch_read_calls(point_count, row_bytes, config, pain),
        prefetch_bytes: estimate_prefetch_physical_bytes(point_count, row_bytes, pain),
        vector_calls: max_usize(fanout, 1) as u64,
        temp_bytes,
    }
}

/// What each way saves, and what it is worth, as they were computed.
#[derive(Clone, Copy, Debug, PartialEq, Eq, Structural)]
pub struct NodeBenefits {
    pub prefetch: F64,
    pub vector_run: F64,
    pub benefit_per_temp_byte: F64,
}

/// How a node is read, with the costs of every way.
#[derive(Clone, Copy, Debug, PartialEq, Eq, Structural)]
pub struct NodeExecutionPlan {
    pub storage_state: StorageState,
    pub selected: NodeAction,
    pub external_streaming: NodeCost,
    pub prefetch_streaming: NodeCost,
    pub hot_vector_run: NodeCost,
    pub exact_fallback: NodeCost,
    pub depth: usize,
    pub point_count: usize,
    pub fanout: usize,
    pub pain_observed: bool,
    /// The speedup is `before_calls` over `after_calls`.
    pub before_calls: u64,
    pub after_calls: u64,
    pub benefit_per_temp_byte: F64,
}

/// A node's points may be read ahead unless they are in memory.
pub open spec fn prefetch_allowed(config: IoPlanConfig, state: StorageState) -> bool {
    config.enabled && config.prefetch_streaming_enable && state != StorageState::Resident
}

/// A node's vectors may be written to a run of their own: from the configured depth on or
/// for a single child, within the temporary bytes that are left, and only where that
/// saves at least every other read.
pub open spec fn vector_run_allowed(
    config: IoPlanConfig,
    state: StorageState,
    depth: int,
    points: int,
    fanout: int,
    row_bytes: int,
    temp_used: int,
) -> bool {
    let temp = capped(points * row_bytes);
    let saved = floored(greatest(points, 1) - greatest(fanout, 1));
    &&& config.enabled
    &&& config.vector_run_enable
    &&& state == StorageState::RawIds
    &&& depth >= config.min_depth || greatest(fanout, 1) == 1
    &&& temp > 0
    &&& capped(temp_used + temp) <= config.temp_budget_bytes
    &&& points > 0 && 2 * saved >= points
}

/// The way with the larger benefit, where that is over 0: reading ahead unless the run
/// is worth more, and plain reading where neither saves anything.
pub open spec fn best_action(
    run_allowed: bool,
    run: F64,
    ahead_allowed: bool,
    ahead: F64,
) -> NodeAction {
    let zero = F64 { bits: 0 };
    if run_allowed && (!ahead_allowed || ahead.below(run)) {
        if zero.below(run) {
            NodeAction::HotVectorRun
        } else {
            NodeAction::ExternalStreaming
        }
    } else if ahead_allowed && zero.below(ahead) {
        NodeAction::PrefetchStreaming
    } else {
        NodeAction::ExternalStreaming
    }
}

/// Plans a node from its estimates and what each way saves.
pub fn plan_node_with_pain_observed(
    config: &IoPlanConfig,
    state: StorageState,
    depth: usize,
    point_count: usize,
    fanout: usize,
    row_bytes: usize,
    temp_used_bytes: usize,
    pain: &IoPainSample,
    pain_observed: bool,
    benefits: &NodeBenefits,
) -> (plan: NodeExecutionPlan)
    ensures
        plan.storage_state == state,
        plan.depth == depth,
        plan.point_count == point_count,
        plan.fanout == greatest(fanout as int, 1),
        plan.pain_observed == pain_observed,
        plan.before_calls == greatest(point_count as int, 1),
        plan.after_calls == greatest(plan.selected_cost().estimated_raw_read_calls as int, 1),
        plan.benefit_per_temp_byte == benefits.benefit_per_temp_byte,
        plan.external_streaming == (NodeCost {
            action: NodeAction::ExternalStreaming,
            allowed: true,
            estimated_raw_read_calls: point_count as u64,
            estimated_raw_read_bytes: capped(point_count * row_bytes) as u64,
            temp_bytes: 0,
            resident_bytes: 0,
            estimated_benefit: F64 { bits: 0 },
        }),
        plan.prefetch_streaming == (NodeCost {
            action: NodeAction::PrefetchStreaming,
            allowed: prefetch_allowed(*config, state),
            estimated_raw_read_calls: prefetch_calls(
                point_count as int,
                row_bytes as int,
                prefetch_window_bytes(config.max_avg_read_size_bytes as int),
                pain.physical_bytes as int,
            ) as u64,
            estimated_raw_read_bytes: greatest(
                pain.physical_bytes as int,
                capped(point_count * row_bytes),
            ) as u64,
            temp_bytes: 0,
            resident_bytes: 0,
            estimated_benefit: benefits.prefetch,
        }),
        plan.hot_vector_run == (NodeCost {
            action: NodeAction::HotVectorRun,
            allowed: vector_run_allowed(
                *config,
                state,
                depth as int,
                point_count as int,
                fanout as int,
                row_bytes as int,
                temp_used_bytes as int,
            ),
            estimated_raw_read_calls: greatest(fanout as int, 1) as u64,
            estimated_raw_read_bytes: capped(point_count * row_bytes) as u64,
            temp_bytes: capped(point_count * row_bytes) as usize,
            resident_bytes: 0,
            estimated_benefit: benefits.vector_run,
        }),
        plan.exact_fallback == (NodeCost {
            action: NodeAction::ExactFallback,
            allowed: false,
            estimated_raw_read_calls: greatest(point_count as int, 1) as u64,
            estimated_raw_read_bytes: greatest(capped(point_count * row_bytes), 1) as u64,
            temp_bytes: 0,
            resident_bytes: 0,
            estimated_benefit: F64 { bits: 0 },
        }),
        plan.selected == best_action(
            plan.hot_vector_run.allowed,
            benefits.vector_run,
            plan.prefetch_streaming.allowed,
            benefits.prefetch,
        ),
        !unordered_double(benefits.vector_run) && !unordered_double(benefits.prefetch)
            ==> worth_most(
            plan.selected,
            plan.hot_vector_run.allowed,
            benefits.vector_run,
            plan.prefetch_streaming.allowed,
            benefits.prefetch,
        ),
        temp_used_bytes + point_count * row_bytes <= usize::MAX ==> plan.hot_vector_run.allowed
            == run_pays(
            *config,
            state,
            depth as int,
            point_count as int,
            fanout as int,
            row_bytes as int,
            temp_used_bytes as int,
        ),
{
    proof {
        if temp_used_bytes + point_count * row_bytes <= usize::MAX {
            law_runs_are_allowed_where_they_pay(
                *config,
                state,
                depth as int,
                point_count as int,
                fanout as int,
                row_bytes as int,
                temp_used_bytes as int,
            );
        }
        if !unordered_double(benefits.vector_run) && !unordered_double(benefits.prefetch) {
            law_selected_way_is_worth_most(
                vector_run_allowed(
                    *config,
                    state,
                    depth as int,
                    point_count as int,
                    fanout as int,
                    row_bytes as int,
                    temp_used_bytes as int,
                ),
                benefits.vector_run,
                prefetch_allowed(*config, state),
                benefits.prefetch,
            );
        }
    }
    let estimates: NodeEstimates = estimate_node(config, point_count, fanout, row_bytes, pain);
    let zero: F64 = F64 { bits: 0 };
    let children: usize = max_usize(fanout, 1);
    let temp_bytes: usize = estimates.temp_bytes;
    let saved: u64 = estimates.before_calls.saturating_sub(estimates.vector_calls);
    let dense: bool = point_count > 0 && 2 * (saved as u128) >= point_count as u128;
    let run_allowed: bool = config.enabled && config.vector_run_enable && state
        == StorageState::RawIds && (depth >= config.min_depth || children == 1) && temp_bytes > 0
        && temp_used_bytes.saturating_add(temp_bytes) <= config.temp_budget_bytes && dense;
    let ahead_allowed: bool = config.enabled && config.prefetch_streaming_enable && state
        != StorageState::Resident;
    let selected: NodeAction = if run_allowed && (!ahead_allowed || benefits.prefetch.lt(
        benefits.vector_run,
    )) {
        if zero.lt(benefits.vector_run) {
            NodeAction::HotVectorRun
        } else {
            NodeAction::ExternalStreaming
        }
    } else if ahead_allowed && zero.lt(benefits.prefetch) {
        NodeAction::PrefetchStreaming
    } else {
        NodeAction::ExternalStreaming
    };
    let selected_calls: u64 = match selected {
        NodeAction::ExternalStreaming => point_count as u64,
        NodeAction::PrefetchStreaming => estimates.prefetch_calls,
        NodeAction::HotVectorRun => estimates.vector_calls,
        NodeAction::ExactFallback => estimates.before_calls,
    };
    NodeExecutionPlan {
        storage_state: state,
        selected,
        external_streaming: NodeCost {
            action: NodeAction::ExternalStreaming,
            allowed: true,
            estimated_raw_read_calls: point_count as u64,
            estimated_raw_read_bytes: temp_bytes as u64,
            temp_bytes: 0,
            resident_bytes: 0,
            estimated_benefit: zero,
        },
        prefetch_streaming: NodeCost {
            action: NodeAction::PrefetchStreaming,
            allowed: ahead_allowed,
            estimated_raw_read_calls: estimates.prefetch_calls,
            estimated_raw_read_bytes: estimates.prefetch_bytes,
            temp_bytes: 0,
            resident_bytes: 0,
            estimated_benefit: benefits.prefetch,
        },
        hot_vector_run: NodeCost {
            action: NodeAction::HotVectorRun,
            allowed: run_allowed,
            estimated_raw_read_calls: estimates.vector_calls,
            estimated_raw_read_bytes: temp_bytes as u64,
            temp_bytes,
            resident_bytes: 0,
            estimated_benefit: benefits.vector_run,
        },
        exact_fallback: NodeCost {
            action: NodeAction::ExactFallback,
            allowed: false,
            estimated_raw_read_calls: estimates.before_calls,
            estimated_raw_read_bytes: estimates.before_bytes,
            temp_bytes: 0,
            resident_bytes: 0,
            estimated_benefit: zero,
        },
        depth,
        point_count,
        fanout: children,
        pain_observed,
        before_calls: estimates.before_calls,
        after_calls: max_u64(selected_calls, 1),
        benefit_per_temp_byte: benefits.benefit_per_temp_byte,
    }
}

impl NodeExecutionPlan {
    /// The cost of the way that was selected.
    pub open spec fn selected_cost(self) -> NodeCost {
        match self.selected {
            NodeAction::ExternalStreaming => self.external_streaming,
            NodeAction::PrefetchStreaming => self.prefetch_streaming,
            NodeAction::HotVectorRun => self.hot_vector_run,
            NodeAction::ExactFallback => self.exact_fallback,
        }
    }

    pub fn cost(&self) -> (cost: NodeCost)
        ensures
            cost == self.selected_cost(),
    {
        match self.selected {
            NodeAction::ExternalStreaming => self.external_streaming,
            NodeAction::PrefetchStreaming => self.prefetch_streaming,
            NodeAction::HotVectorRun => self.hot_vector_run,
            NodeAction::ExactFallback => self.exact_fallback,
        }
    }
}

/// A way is selected only where it is allowed, and never one that stays behind another
/// allowed way.
pub proof fn law_selection_is_allowed_and_best(plan: NodeExecutionPlan, benefits: NodeBenefits)
    requires
        plan.external_streaming.allowed,
        plan.selected == best_action(
            plan.hot_vector_run.allowed,
            benefits.vector_run,
            plan.prefetch_streaming.allowed,
            benefits.prefetch,
        ),
        !benefits.vector_run.nan(),
        !benefits.prefetch.nan(),
    ensures
        plan.selected_cost().allowed,
        plan.selected == NodeAction::HotVectorRun && plan.prefetch_streaming.allowed
            ==> benefits.prefetch.below(benefits.vector_run),
        plan.selected == NodeAction::PrefetchStreaming && plan.hot_vector_run.allowed
            ==> benefits.vector_run.at_most(benefits.prefetch),
        plan.selected == NodeAction::ExternalStreaming && plan.hot_vector_run.allowed
            ==> benefits.vector_run.at_most(F64 { bits: 0 }),
        plan.selected == NodeAction::ExternalStreaming && plan.prefetch_streaming.allowed
            ==> benefits.prefetch.at_most(F64 { bits: 0 }),
{
}

/// The larger of two numbers; one that is no number does not count.
pub open spec fn larger(a: F64, b: F64) -> F64 {
    if a.nan() {
        b
    } else if b.nan() || !a.below(b) {
        a
    } else {
        b
    }
}

pub fn larger_of(a: F64, b: F64) -> (c: F64)
    ensures
        c == larger(a, b),
        c == a || c == b,
        !unordered_double(a) ==> !unordered_double(c) && double_units(a) <= double_units(c),
        !unordered_double(b) ==> !unordered_double(c) && double_units(b) <= double_units(c),
{
    proof {
        law_larger_is_the_larger_one(a, b);
    }
    if a.is_nan() {
        b
    } else if b.is_nan() || !a.lt(b) {
        a
    } else {
        b
    }
}

/// Counters of a planned build.
#[derive(Clone, Copy, Debug, PartialEq, Eq, Structural)]
pub struct PlannerCounters {
    pub enabled: bool,
    pub dry_run: bool,
    pub verify: bool,
    pub planned_nodes: usize,
    pub selected_external: usize,
    pub selected_prefetch_streaming: usize,
    pub selected_vector_run: usize,
    pub selected_exact_fallback: usize,
    pub executed_external: usize,
    pub executed_prefetch_streaming: usize,
    pub executed_vector_run: usize,
    pub executed_exact_fallback: usize,
    pub vector_to_external_fallbacks: usize,
    pub child_extent_logical_extents: usize,
    pub child_extent_coalesced_reads: usize,
    pub child_extent_header_read_savings: usize,
    pub small_run_waves: usize,
    pub small_run_wave_runs: usize,
    pub small_run_wave_points: usize,
    pub planned_temp_bytes: usize,
    pub materialized_temp_bytes: usize,
    pub estimated_before_raw_read_calls: u64,
    pub estimated_after_raw_read_calls: u64,
    pub estimated_before_raw_read_bytes: u64,
    pub estimated_after_raw_read_bytes: u64,
    pub vector_run_materialize_ns: u64,
    pub child_extent_logical_bytes: u64,
    pub child_extent_physical_bytes: u64,
    pub window_cache_budget_bytes: usize,
    pub best_benefit_per_temp_byte: F64,
    pub window_cache: VectorWindowCacheStats,
}

impl PlannerCounters {
    pub open spec fn zero() -> PlannerCounters {
        PlannerCounters {
            enabled: false,
            dry_run: false,
            verify: false,
            planned_nodes: 0,
            selected_external: 0,
            selected_prefetch_streaming: 0,
            selected_vector_run: 0,
            selected_exact_fallback: 0,
            executed_external: 0,
            executed_prefetch_streaming: 0,
            executed_vector_run: 0,
            executed_exact_fallback: 0,
            vector_to_external_fallbacks: 0,
            child_extent_logical_extents: 0,
            child_extent_coalesced_reads: 0,
            child_extent_header_read_savings: 0,
            small_run_waves: 0,
            small_run_wave_runs: 0,
            small_run_wave_points: 0,
            planned_temp_bytes: 0,
            materialized_temp_bytes: 0,
            estimated_before_raw_read_calls: 0,
            estimated_after_raw_read_calls: 0,
            estimated_before_raw_read_bytes: 0,
            estimated_after_raw_read_bytes: 0,
            vector_run_materialize_ns: 0,
            child_extent_logical_bytes: 0,
            child_extent_physical_bytes: 0,
            window_cache_budget_bytes: 0,
            best_benefit_per_temp_byte: F64 { bits: 0 },
            window_cache: VectorWindowCacheStats::zero(),
        }
    }

    pub fn new() -> (counters: PlannerCounters)
        ensures
            counters == PlannerCounters::zero(),
    {
        PlannerCounters {
            enabled: false,
            dry_run: false,
            verify: false,
            planned_nodes: 0,
            selected_external: 0,
            selected_prefetch_streaming: 0,
            selected_vector_run: 0,
            selected_exact_fallback: 0,
            executed_external: 0,
            executed_prefetch_streaming: 0,
            executed_vector_run: 0,
            executed_exact_fallback: 0,
            vector_to_external_fallbacks: 0,
            child_extent_logical_extents: 0,
            child_extent_coalesced_reads: 0,
            child_extent_header_read_savings: 0,
            small_run_waves: 0,
            small_run_wave_runs: 0,
            small_run_wave_points: 0,
            planned_temp_bytes: 0,
            materialized_temp_bytes: 0,
            estimated_before_raw_read_calls: 0,
            estimated_after_raw_read_calls: 0,
            estimated_before_raw_read_bytes: 0,
            estimated_after_raw_read_bytes: 0,
            vector_run_materialize_ns: 0,
            child_extent_logical_bytes: 0,
            child_extent_physical_bytes: 0,
            window_cache_budget_bytes: 0,
            best_benefit_per_temp_byte: F64 { bits: 0 },
            window_cache: VectorWindowCacheStats::default(),
        }
    }

    /// Both together fit their counters.
    pub open spec fn mergeable(self, other: PlannerCounters) -> bool {
        &&& self.planned_nodes + other.planned_nodes <= usize::MAX
        &&& self.selected_external + other.selected_external <= usize::MAX
        &&& self.selected_prefetch_streaming + other.selected_prefetch_streaming <= usize::MAX
        &&& self.selected_vector_run + other.selected_vector_run <= usize::MAX
        &&& self.selected_exact_fallback + other.selected_exact_fallback <= usize::MAX
        &&& self.executed_external + other.executed_external <= usize::MAX
        &&& self.executed_prefetch_streaming + other.executed_prefetch_streaming <= usize::MAX
        &&& self.executed_vector_run + other.executed_vector_run <= usize::MAX
        &&& self.executed_exact_fallback + other.executed_exact_fallback <= usize::MAX
        &&& self.vector_to_external_fallbacks + other.vector_to_external_fallbacks <= usize::MAX
        &&& self.child_extent_logical_extents + other.child_extent_logical_extents <= usize::MAX
        &&& self.child_extent_coalesced_reads + other.child_extent_coalesced_reads <= usize::MAX
        &&& self.child_extent_header_read_savings + other.child_extent_header_read_savings
            <= usize::MAX
        &&& self.small_run_waves + other.small_run_waves <= usize::MAX
        &&& self.small_run_wave_runs + other.small_run_wave_runs <= usize::MAX
        &&& self.small_run_wave_points + other.small_run_wave_points <= usize::MAX
        &&& self.estimated_before_raw_read_calls + other.estimated_before_raw_read_calls <= u64::MAX
        &&& self.estimated_after_raw_read_calls + other.estimated_after_raw_read_calls <= u64::MAX
        &&& self.estimated_before_raw_read_bytes + other.estimated_before_raw_read_bytes <= u64::MAX
        &&& self.estimated_after_raw_read_bytes + other.estimated_after_raw_read_bytes <= u64::MAX
        &&& self.vector_run_materialize_ns + other.vector_run_materialize_ns <= u64::MAX
        &&& self.window_cache.mergeable(other.window_cache)
    }

    /// Flags stay set, counters add up, budgets and benefits are the larger ones.
    pub open spec fn merged(self, other: PlannerCounters) -> PlannerCounters {
        PlannerCounters {
            enabled: self.enabled || other.enabled,
            dry_run: self.dry_run || other.dry_run,
            verify: self.verify || other.verify,
            planned_nodes: (self.planned_nodes + other.planned_nodes) as usize,
            selected_external: (self.selected_external + other.selected_external) as usize,
            selected_prefetch_streaming: (self.selected_prefetch_streaming
                + other.selected_prefetch_streaming) as usize,
            selected_vector_run: (self.selected_vector_run + other.selected_vector_run) as usize,
            selected_exact_fallback: (self.selected_exact_fallback
                + other.selected_exact_fallback) as usize,
            executed_external: (self.executed_external + other.executed_external) as usize,
            executed_prefetch_streaming: (self.executed_prefetch_streaming
                + other.executed_prefetch_streaming) as usize,
            executed_vector_run: (self.executed_vector_run + other.executed_vector_run) as usize,
            executed_exact_fallback: (self.executed_exact_fallback
                + other.executed_exact_fallback) as usize,
            vector_to_external_fallbacks: (self.vector_to_external_fallbacks
                + other.vector_to_external_fallbacks) as usize,
            child_extent_logical_extents: (self.child_extent_logical_extents
                + other.child_extent_logical_extents) as usize,
            child_extent_coalesced_reads: (self.child_extent_coalesced_reads
                + other.child_extent_coalesced_reads) as usize,
            child_extent_header_read_savings: (self.child_extent_header_read_savings
                + other.child_extent_header_read_savings) as usize,
            small_run_waves: (self.small_run_waves + other.small_run_waves) as usize,
            small_run_wave_runs: (self.small_run_wave_runs + other.small_run_wave_runs) as usize,
            small_run_wave_points: (self.small_run_wave_points
                + other.small_run_wave_points) as usize,
            planned_temp_bytes: capped(self.planned_temp_bytes + other.planned_temp_bytes) as usize,
            materialized_temp_bytes: capped(self.materialized_temp_bytes
                + other.materialized_temp_bytes) as usize,
            estimated_before_raw_read_calls: (self.estimated_before_raw_read_calls
                + other.estimated_before_raw_read_calls) as u64,
            estimated_after_raw_read_calls: (self.estimated_after_raw_read_calls
                + other.estimated_after_raw_read_calls) as u64,
            estimated_before_raw_read_bytes: (self.estimated_before_raw_read_bytes
                + other.estimated_before_raw_read_bytes) as u64,
            estimated_after_raw_read_bytes: (self.estimated_after_raw_read_bytes
                + other.estimated_after_raw_read_bytes) as u64,
            vector_run_materialize_ns: (self.vector_run_materialize_ns
                + other.vector_run_materialize_ns) as u64,
            child_extent_logical_bytes: capped_u64(self.child_extent_logical_bytes
                + other.child_extent_logical_bytes) as u64,
            child_extent_physical_bytes: capped_u64(self.child_extent_physical_bytes
                + other.child_extent_physical_bytes) as u64,
            window_cache_budget_bytes: greatest(
                self.window_cache_budget_bytes as int,
                other.window_cache_budget_bytes as int,
            ) as usize,
            best_benefit_per_temp_byte: larger(
                self.best_benefit_per_temp_byte,
                other.best_benefit_per_temp_byte,
            ),
            window_cache: self.window_cache.merged(other.window_cache),
        }
    }

    pub fn merge(&mut self, other: &PlannerCounters)
        requires
            old(self).mergeable(*other),
        ensures
            *final(self) == old(self).merged(*other),
    {
        self.enabled = self.enabled || other.enabled;
        self.dry_run = self.dry_run || other.dry_run;
        self.verify = self.verify || other.verify;
        self.planned_nodes = self.planned_nodes + other.planned_nodes;
        self.selected_external = self.selected_external + other.selected_external;
        self.selected_prefetch_streaming = self.selected_prefetch_streaming
            + other.selected_prefetch_streaming;
        self.selected_vector_run = self.selected_vector_run + other.selected_vector_run;
        self.selected_exact_fallback = self.selected_exact_fallback + other.selected_exact_fallback;
        self.executed_external = self.executed_external + other.executed_external;
        self.executed_prefetch_streaming = self.executed_prefetch_streaming
            + other.executed_prefetch_streaming;
        self.executed_vector_run = self.executed_vector_run + other.executed_vector_run;
        self.executed_exact_fallback = self.executed_exact_fallback + other.executed_exact_fallback;
        self.vector_to_external_fallbacks = self.vector_to_external_fallbacks
            + other.vector_to_external_fallbacks;
        self.child_extent_logical_extents = self.child_extent_logical_extents
            + other.child_extent_logical_extents;
        self.child_extent_coalesced_reads = self.child_extent_coalesced_reads
            + other.child_extent_coalesced_reads;
        self.child_extent_header_read_savings = self.child_extent_header_read_savings
            + other.child_extent_header_read_savings;
        self.small_run_waves = self.small_run_waves + other.small_run_waves;
        self.small_run_wave_runs = self.small_run_wave_runs + other.small_run_wave_runs;
        self.small_run_wave_points = self.small_run_wave_points + other.small_run_wave_points;
        self.estimated_before_raw_read_calls = self.estimated_before_raw_read_calls
            + other.estimated_before_raw_read_calls;
        self.estimated_after_raw_read_calls = self.estimated_after_raw_read_calls
            + other.estimated_after_raw_read_calls;
        self.estimated_before_raw_read_bytes = self.estimated_before_raw_read_bytes
            + other.estimated_before_raw_read_bytes;
        self.estimated_after_raw_read_bytes = self.estimated_after_raw_read_bytes
            + other.estimated_after_raw_read_bytes;
        self.vector_run_materialize_ns = self.vector_run_materialize_ns
            + other.vector_run_materialize_ns;
        self.planned_temp_bytes = self.planned_temp_bytes.saturating_add(other.planned_temp_bytes);
        self.materialized_temp_bytes = self.materialized_temp_bytes.saturating_add(
            other.materialized_temp_bytes,
        );
        self.child_extent_logical_bytes = self.child_extent_logical_bytes.saturating_add(
            other.child_extent_logical_bytes,
        );
        self.child_extent_physical_bytes = self.child_extent_physical_bytes.saturating_add(
            other.child_extent_physical_bytes,
        );
        self.window_cache_budget_bytes = max_usize(
            self.window_cache_budget_bytes,
            other.window_cache_budget_bytes,
        );
        self.best_benefit_per_temp_byte = larger_of(
            self.best_benefit_per_temp_byte,
            other.best_benefit_per_temp_byte,
        );
        self.window_cache.merge(&other.window_cache);
    }
}
} // verus!
