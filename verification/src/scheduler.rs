//! Limits on the work that a build keeps in flight.

use vstd::prelude::*;

use crate::arith::{capped, greatest, least, max_usize, min_usize, sat_mul};

verus! {

/// Leaves that may wait per worker.
pub const LEAVES_PER_WORKER: usize = 2048;

/// The most leaves that may wait for the sake of a memory budget.
pub const MAX_BUDGETED_LEAVES: usize = 1_048_576;

/// Budget bytes that allow one more leaf to wait.
pub const BUDGET_BYTES_PER_LEAF: usize = 32_768;

/// Rows of a leaf that are worked on together.
pub const LEAF_BLOCK_ROWS: usize = 1024;

/// How much a scheduler lets happen at once.
#[derive(Clone, Copy, Debug, PartialEq, Eq, Structural)]
pub struct SchedulerBudget {
    pub worker_count: usize,
    /// Leaves that may wait to be worked on.
    pub leaf_backlog_capacity: usize,
    /// Waiting leaves at which the producer starts to help; 0 for never.
    pub producer_leaf_backlog_soft_limit: usize,
    /// The least rows of a leaf that is worked on in blocks.
    pub large_leaf_min_size: usize,
    pub leaf_block_rows: usize,
}

impl SchedulerBudget {
    pub open spec fn worker_backlog(workers: int) -> int {
        capped(greatest(workers, 1) * LEAVES_PER_WORKER)
    }

    pub fn for_worker_count(workers: usize, leaf_size: usize) -> (budget: SchedulerBudget)
        ensures
            budget == (SchedulerBudget {
                worker_count: greatest(workers as int, 1) as usize,
                leaf_backlog_capacity: SchedulerBudget::worker_backlog(workers as int) as usize,
                producer_leaf_backlog_soft_limit: 0,
                large_leaf_min_size: capped(leaf_size * 2) as usize,
                leaf_block_rows: LEAF_BLOCK_ROWS,
            }),
    {
        let worker_count: usize = max_usize(workers, 1);
        SchedulerBudget {
            worker_count,
            leaf_backlog_capacity: sat_mul(worker_count, LEAVES_PER_WORKER),
            producer_leaf_backlog_soft_limit: 0,
            large_leaf_min_size: sat_mul(leaf_size, 2),
            leaf_block_rows: LEAF_BLOCK_ROWS,
        }
    }

    /// A memory budget lets more leaves wait than the workers alone.
    pub fn for_memory_budget(
        workers: usize,
        leaf_size: usize,
        memory_bytes: usize,
    ) -> (budget: SchedulerBudget)
        ensures
            budget == (SchedulerBudget {
                worker_count: greatest(workers as int, 1) as usize,
                leaf_backlog_capacity: greatest(
                    SchedulerBudget::worker_backlog(workers as int),
                    least(
                        memory_bytes as int / BUDGET_BYTES_PER_LEAF as int,
                        MAX_BUDGETED_LEAVES as int,
                    ),
                ) as usize,
                producer_leaf_backlog_soft_limit: 0,
                large_leaf_min_size: capped(leaf_size * 2) as usize,
                leaf_block_rows: LEAF_BLOCK_ROWS,
            }),
    {
        let base: SchedulerBudget = SchedulerBudget::for_worker_count(workers, leaf_size);
        let budgeted: usize = min_usize(memory_bytes / BUDGET_BYTES_PER_LEAF, MAX_BUDGETED_LEAVES);
        SchedulerBudget {
            leaf_backlog_capacity: max_usize(base.leaf_backlog_capacity, budgeted),
            ..base
        }
    }
}

/// Leaves are drained as they come, so the budget stays as it is.
pub fn apply_immediate_leaf_drain_budget(
    budget: SchedulerBudget,
    _worker_count: usize,
) -> (result: SchedulerBudget)
    ensures
        result == budget,
{
    budget
}

pub const DEFAULT_FORGEANN_RAYON_STACK_MB: usize = 32;

pub const MIN_FORGEANN_RAYON_STACK_MB: usize = 8;

pub const MAX_FORGEANN_RAYON_STACK_MB: usize = 256;

/// The stack of a worker in MiB: the configured one within its limits, or a default.
pub open spec fn stack_mb(configured_mb: Option<int>) -> int {
    match configured_mb {
        None => DEFAULT_FORGEANN_RAYON_STACK_MB as int,
        Some(mb) => least(
            greatest(mb, MIN_FORGEANN_RAYON_STACK_MB as int),
            MAX_FORGEANN_RAYON_STACK_MB as int,
        ),
    }
}

/// The value as an integer.
pub open spec fn as_int(value: Option<usize>) -> Option<int> {
    match value {
        None => None,
        Some(v) => Some(v as int),
    }
}

/// The stack of a worker in MiB for a configured one: within its limits, with a
/// default where none is configured.
pub fn normalize_forgeann_rayon_stack_mb(configured_mb: Option<usize>) -> (result: usize)
    ensures
        result == stack_mb(as_int(configured_mb)),
{
    let mb: usize = match configured_mb {
        None => DEFAULT_FORGEANN_RAYON_STACK_MB,
        Some(mb) => mb,
    };
    min_usize(max_usize(mb, MIN_FORGEANN_RAYON_STACK_MB), MAX_FORGEANN_RAYON_STACK_MB)
}

/// The stack of a worker in bytes.
pub fn forgeann_rayon_worker_stack_bytes(configured_mb: Option<usize>) -> (bytes: usize)
    ensures
        bytes == stack_mb(as_int(configured_mb)) * 0x10_0000,
{
    normalize_forgeann_rayon_stack_mb(configured_mb) * 0x10_0000
}

} // verus!
