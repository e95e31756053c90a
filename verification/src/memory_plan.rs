//! How a memory budget is shared out.

use vstd::prelude::*;

use crate::arith::{capped, floored, greatest, least, max_usize, min_usize, sat_mul};
use crate::budget_laws::{
    bare_point_bytes, fills_cap, fills_reservoir_budget, fills_spill_cache, fills_worker_budget,
    law_budget_is_shared_in_hundredths, law_capped_residents_fill_the_cap,
    law_leaf_scratch_is_the_sum_of_its_parts, law_resident_reservoirs_fill_the_budget,
    law_shard_fills_its_cache, law_workers_fill_their_budget, leaf_bytes, point_bytes, shared_out,
};
use crate::float_bits::F32;
use crate::hash_prune::HashPruneReservoir;
use crate::params::ForgeANNParams;

verus! {

/// `parking_lot::RawMutex`, the lock of a reservoir. Nothing is claimed of it.
#[verifier::external_type_specification]
#[verifier::external_body]
pub struct ExRawMutex(parking_lot::RawMutex);

/// `parking_lot::lock_api::Mutex`, which a reservoir lies in. Only its size counts here.
#[verifier::external_type_specification]
#[verifier::external_body]
#[verifier::reject_recursive_types(R)]
#[verifier::reject_recursive_types(T)]
pub struct ExMutex<R, T: ?Sized>(parking_lot::lock_api::Mutex<R, T>);

/// Bytes of a slot: its target, its hash and its distance.
pub const SLOT_BYTES: usize = 8;

/// What a worker is given beside its leaf scratch.
pub const WORKER_RESERVE_BYTES: usize = 0x200_0000;

/// The least that stays free beside resident reservoirs.
pub const MIN_RESERVOIR_HEADROOM_BYTES: usize = 0x2000_0000;

/// How many points keep their reservoir in memory.
#[derive(Clone, Copy, Debug, PartialEq, Eq, Structural)]
pub struct ResidentReservoirPlan {
    pub resident_points: usize,
}

/// The shares of a memory budget.
#[derive(Clone, Copy, Debug, PartialEq, Eq, Structural)]
pub struct OomMemoryPlan {
    pub total_budget_bytes: usize,
    pub reservoir_budget_bytes: usize,
    pub scratch_budget_bytes: usize,
    pub io_headroom_bytes: usize,
}

impl OomMemoryPlan {
    /// Forty-five hundredths for reservoirs, fifteen for leaf scratch, and the rest
    /// for input and output.
    pub open spec fn shares(total: int) -> OomMemoryPlan {
        let reservoir = capped(total * 45) / 100;
        let scratch = capped(total * 15) / 100;
        OomMemoryPlan {
            total_budget_bytes: total as usize,
            reservoir_budget_bytes: reservoir as usize,
            scratch_budget_bytes: scratch as usize,
            io_headroom_bytes: floored(total - (reservoir + scratch)) as usize,
        }
    }

    pub fn from_params(params: &ForgeANNParams) -> (plan: Self)
        ensures
            plan == OomMemoryPlan::shares(params.memory_budget()),
    {
        OomMemoryPlan::from_budget(params.effective_oom_memory_budget_bytes())
    }

    pub fn from_budget(total_budget_bytes: usize) -> (plan: Self)
        ensures
            plan == OomMemoryPlan::shares(total_budget_bytes as int),
            45 * total_budget_bytes <= usize::MAX ==> shared_out(total_budget_bytes as int, plan),
    {
        proof {
            if 45 * total_budget_bytes <= usize::MAX {
                law_budget_is_shared_in_hundredths(total_budget_bytes as int);
            }
        }
        let reservoir_budget_bytes: usize = sat_mul(total_budget_bytes, 45) / 100;
        let scratch_budget_bytes: usize = sat_mul(total_budget_bytes, 15) / 100;
        let allocated: usize = reservoir_budget_bytes.saturating_add(scratch_budget_bytes);
        OomMemoryPlan {
            total_budget_bytes,
            reservoir_budget_bytes,
            scratch_budget_bytes,
            io_headroom_bytes: total_budget_bytes.saturating_sub(allocated),
        }
    }
}

/// The shares of a budget together never exceed it, and they use it up.
pub proof fn law_memory_shares_add_up(total: int)
    requires
        0 <= total <= usize::MAX,
    ensures
        ({
            let plan = OomMemoryPlan::shares(total);
            plan.reservoir_budget_bytes + plan.scratch_budget_bytes + plan.io_headroom_bytes
                == total
        }),
{
}

/// Sketches are held in memory as a whole where the configured cache takes the
/// whole file.
pub fn should_use_full_resident_sketch_cache(
    params: &ForgeANNParams,
    sketch_file_bytes: usize,
) -> (result: bool)
    ensures
        result == (0 < sketch_file_bytes <= params.oom_sketch_cache_bytes),
{
    sketch_file_bytes > 0 && params.oom_sketch_cache_bytes > 0 && sketch_file_bytes
        <= params.oom_sketch_cache_bytes
}

/// The bytes of a reservoir of `l_max` slots.
pub open spec fn reservoir_bytes(l_max: int) -> int {
    capped(core::mem::size_of::<HashPruneReservoir>() + l_max * SLOT_BYTES)
}

/// How many points a shard of spilled candidates covers.
pub open spec fn shard_points(points: int, budget: int, l_max: int) -> int {
    least(
        greatest(budget / greatest(reservoir_bytes(l_max), 1), 1),
        greatest(points, 1),
    )
}

/// The points of a shard: as many as have reservoirs within the spill cache, or
/// within an eighth of the memory budget where no cache is set.
pub open spec fn spill_shard_points(
    points: int,
    params: ForgeANNParams,
    memory_budget: int,
) -> int {
    shard_points(
        points,
        if params.oom_spill_cache_bytes == 0 {
            greatest(memory_budget / 8, 1)
        } else {
            params.oom_spill_cache_bytes as int
        },
        params.l_max as int,
    )
}

pub fn derive_spill_shard_points(
    num_points: usize,
    params: &ForgeANNParams,
    memory_budget_bytes: usize,
) -> (points: usize)
    ensures
        points == spill_shard_points(num_points as int, *params, memory_budget_bytes as int),
        1 <= points <= greatest(num_points as int, 1),
        1 <= bare_point_bytes(params.l_max as int) <= usize::MAX ==> fills_spill_cache(
            num_points as int,
            if params.oom_spill_cache_bytes == 0 {
                greatest(memory_budget_bytes as int / 8, 1)
            } else {
                params.oom_spill_cache_bytes as int
            },
            params.l_max as int,
            points as int,
        ),
{
    proof {
        if 1 <= bare_point_bytes(params.l_max as int) <= usize::MAX {
            law_shard_fills_its_cache(
                num_points as int,
                if params.oom_spill_cache_bytes == 0 {
                    greatest(memory_budget_bytes as int / 8, 1)
                } else {
                    params.oom_spill_cache_bytes as int
                },
                params.l_max as int,
            );
        }
    }
    let spill_budget: usize = if params.oom_spill_cache_bytes == 0 {
        max_usize(memory_budget_bytes / 8, 1)
    } else {
        max_usize(params.oom_spill_cache_bytes, 1)
    };
    let per_point: usize = core::mem::size_of::<HashPruneReservoir>().saturating_add(
        sat_mul(params.l_max, SLOT_BYTES),
    );
    let fitting: usize = spill_budget / max_usize(per_point, 1);
    min_usize(max_usize(fitting, 1), max_usize(num_points, 1))
}

/// The bytes of the reservoirs of `points` points with the locks around them.
pub open spec fn locked_reservoir_bytes(points: int, l_max: int) -> int {
    capped(
        points * capped(
            core::mem::size_of::<HashPruneReservoir>() + core::mem::size_of::<
                parking_lot::Mutex<HashPruneReservoir>,
            >() + l_max * SLOT_BYTES,
        ),
    )
}

pub fn estimate_reservoir_bytes(num_points: usize, l_max: usize) -> (bytes: usize)
    ensures
        bytes == locked_reservoir_bytes(num_points as int, l_max as int),
        point_bytes(l_max as int) <= usize::MAX && num_points * point_bytes(l_max as int)
            <= usize::MAX ==> bytes == num_points * point_bytes(l_max as int),
{
    let fixed: usize = core::mem::size_of::<HashPruneReservoir>().saturating_add(
        core::mem::size_of::<parking_lot::Mutex<HashPruneReservoir>>(),
    );
    sat_mul(num_points, fixed.saturating_add(sat_mul(l_max, SLOT_BYTES)))
}

/// The scratch of one leaf worker: the distances of all pairs, a candidate row, the
/// points, and the edges in both directions.
pub open spec fn leaf_scratch_bytes(max_leaf_size: int, dim: int, leaf_knn: int) -> int {
    let leaf = greatest(max_leaf_size, 1);
    let distances = capped(capped(leaf * leaf) * 4);
    let candidates = capped(leaf * core::mem::size_of::<(usize, F32)>());
    let points = capped(capped(leaf * dim) * 4);
    let edge = capped(core::mem::size_of::<usize>() + 10);
    let edges = capped(capped(leaf * capped(greatest(leaf_knn, 1) * 2)) * edge);
    capped(distances + candidates + points + edges)
}

pub fn estimate_leaf_scratch_bytes(
    max_leaf_size: usize,
    dim: usize,
    leaf_knn: usize,
) -> (bytes: usize)
    ensures
        bytes == leaf_scratch_bytes(max_leaf_size as int, dim as int, leaf_knn as int),
        leaf_bytes(
            greatest(max_leaf_size as int, 1),
            dim as int,
            greatest(leaf_knn as int, 1),
        ) <= usize::MAX ==> bytes == leaf_bytes(
            greatest(max_leaf_size as int, 1),
            dim as int,
            greatest(leaf_knn as int, 1),
        ),
{
    proof {
        law_leaf_scratch_is_the_sum_of_its_parts(
            greatest(max_leaf_size as int, 1),
            dim as int,
            greatest(leaf_knn as int, 1),
        );
    }
    let leaf: usize = max_usize(max_leaf_size, 1);
    let distances: usize = sat_mul(sat_mul(leaf, leaf), 4);
    let candidates: usize = sat_mul(leaf, core::mem::size_of::<(usize, F32)>());
    let points: usize = sat_mul(sat_mul(leaf, dim), 4);
    let edge: usize = core::mem::size_of::<usize>().saturating_add(10);
    let edges: usize = sat_mul(sat_mul(leaf, sat_mul(max_usize(leaf_knn, 1), 2)), edge);
    distances.saturating_add(candidates).saturating_add(points).saturating_add(edges)
}

/// The resident points for a reservoir budget: all where they fit beside leaf
/// scratch, sketches and headroom, else whole shards.
pub open spec fn resident_prefix(
    points: int,
    threads: int,
    scratch: int,
    sketch_bytes: int,
    shard_points: int,
    budget: int,
    l_max: int,
) -> int {
    let active = capped(scratch * greatest(threads, 1));
    let headroom = greatest(budget / 10, MIN_RESERVOIR_HEADROOM_BYTES as int);
    let available = floored(floored(floored(budget - active) - sketch_bytes) - headroom);
    let fitting = available / greatest(locked_reservoir_bytes(1, l_max), 1);
    let shard = greatest(shard_points, 1);
    if fitting >= points {
        points
    } else {
        least(fitting / shard * shard, points)
    }
}

pub fn plan_resident_reservoir_prefix(
    num_points: usize,
    effective_threads: usize,
    params: &ForgeANNParams,
    dim: usize,
    sketch_bytes: usize,
    shard_points: usize,
    reservoir_budget_bytes: usize,
) -> (plan: ResidentReservoirPlan)
    ensures
        plan.resident_points == resident_prefix(
            num_points as int,
            effective_threads as int,
            leaf_scratch_bytes(
                params.max_full_matrix_leaf_size as int,
                dim as int,
                params.leaf_knn as int,
            ),
            sketch_bytes as int,
            shard_points as int,
            reservoir_budget_bytes as int,
            params.l_max as int,
        ),
        1 <= point_bytes(params.l_max as int) <= usize::MAX && effective_threads
            * leaf_scratch_bytes(
            params.max_full_matrix_leaf_size as int,
            dim as int,
            params.leaf_knn as int,
        ) <= usize::MAX ==> fills_reservoir_budget(
            num_points as int,
            effective_threads as int,
            leaf_scratch_bytes(
                params.max_full_matrix_leaf_size as int,
                dim as int,
                params.leaf_knn as int,
            ),
            sketch_bytes as int,
            greatest(shard_points as int, 1),
            reservoir_budget_bytes as int,
            params.l_max as int,
            plan.resident_points as int,
        ),
{
    proof {
        let bytes = leaf_scratch_bytes(
            params.max_full_matrix_leaf_size as int,
            dim as int,
            params.leaf_knn as int,
        );
        if 1 <= point_bytes(params.l_max as int) <= usize::MAX && effective_threads * bytes
            <= usize::MAX {
            law_leaf_scratch_is_the_sum_of_its_parts(
                greatest(params.max_full_matrix_leaf_size as int, 1),
                dim as int,
                greatest(params.leaf_knn as int, 1),
            );
            law_resident_reservoirs_fill_the_budget(
                num_points as int,
                effective_threads as int,
                bytes,
                sketch_bytes as int,
                greatest(shard_points as int, 1),
                reservoir_budget_bytes as int,
                params.l_max as int,
            );
        }
    }
    let scratch: usize = estimate_leaf_scratch_bytes(
        params.kernel_safe_leaf_size(),
        dim,
        params.leaf_knn,
    );
    let active: usize = sat_mul(scratch, max_usize(effective_threads, 1));
    let headroom: usize = max_usize(reservoir_budget_bytes / 10, MIN_RESERVOIR_HEADROOM_BYTES);
    let shard: usize = max_usize(shard_points, 1);
    let available: usize = reservoir_budget_bytes.saturating_sub(active).saturating_sub(
        sketch_bytes,
    ).saturating_sub(headroom);
    let per_point: usize = max_usize(estimate_reservoir_bytes(1, params.l_max), 1);
    let fitting: usize = available / per_point;
    let resident_points: usize = if fitting >= num_points {
        num_points
    } else {
        proof {
            crate::direct_io::lemma_rounded(fitting as int, shard as int);
        }
        min_usize(fitting / shard * shard, num_points)
    };
    ResidentReservoirPlan { resident_points }
}

/// Never more points are resident than there are, and fewer than all are a whole
/// number of shards.
pub proof fn law_resident_prefix_is_whole_shards(
    points: int,
    threads: int,
    scratch: int,
    sketch_bytes: int,
    shard_points: int,
    budget: int,
    l_max: int,
)
    requires
        0 <= points,
        1 <= shard_points,
        0 <= budget,
        0 <= scratch,
        0 <= sketch_bytes,
    ensures
        ({
            let resident = resident_prefix(
                points,
                threads,
                scratch,
                sketch_bytes,
                shard_points,
                budget,
                l_max,
            );
            &&& 0 <= resident <= points
            &&& resident < points ==> resident % shard_points == 0
        }),
{
    let active = capped(scratch * greatest(threads, 1));
    let headroom = greatest(budget / 10, MIN_RESERVOIR_HEADROOM_BYTES as int);
    let available = floored(floored(floored(budget - active) - sketch_bytes) - headroom);
    let per_point = greatest(locked_reservoir_bytes(1, l_max), 1);
    let fitting = available / per_point;
    assert(fitting >= 0) by (nonlinear_arith)
        requires
            fitting == available / per_point,
            available >= 0,
            per_point >= 1,
    ;
    crate::direct_io::lemma_rounded(fitting, shard_points);
}

/// A larger reservoir budget never keeps fewer points resident.
pub proof fn law_resident_prefix_grows_with_budget(
    points: int,
    threads: int,
    scratch: int,
    sketch_bytes: int,
    shard_points: int,
    budget: int,
    larger: int,
    l_max: int,
)
    requires
        0 <= points,
        1 <= shard_points,
        0 <= budget <= larger,
        0 <= scratch,
        0 <= sketch_bytes,
    ensures
        resident_prefix(points, threads, scratch, sketch_bytes, shard_points, budget, l_max)
            <= resident_prefix(
            points,
            threads,
            scratch,
            sketch_bytes,
            shard_points,
            larger,
            l_max,
        ),
{
    let active = capped(scratch * greatest(threads, 1));
    let per_point = greatest(locked_reservoir_bytes(1, l_max), 1);
    let low = floored(
        floored(floored(budget - active) - sketch_bytes) - greatest(
            budget / 10,
            MIN_RESERVOIR_HEADROOM_BYTES as int,
        ),
    );
    let high = floored(
        floored(floored(larger - active) - sketch_bytes) - greatest(
            larger / 10,
            MIN_RESERVOIR_HEADROOM_BYTES as int,
        ),
    );
    assert(low <= high);
    vstd::arithmetic::div_mod::lemma_div_is_ordered(low, high, per_point);
    vstd::arithmetic::div_mod::lemma_div_is_ordered(
        low / per_point,
        high / per_point,
        shard_points,
    );
    let a = low / per_point / shard_points;
    let b = high / per_point / shard_points;
    assert(a * shard_points <= b * shard_points) by (nonlinear_arith)
        requires
            a <= b,
            shard_points >= 1,
    ;
    assert(low / per_point >= 0) by (nonlinear_arith)
        requires
            low >= 0,
            per_point >= 1,
    ;
    assert(high / per_point >= 0) by (nonlinear_arith)
        requires
            high >= 0,
            per_point >= 1,
    ;
    crate::direct_io::lemma_rounded(low / per_point, shard_points);
    crate::direct_io::lemma_rounded(high / per_point, shard_points);
}

/// The points whose reservoirs fit an explicit cap.
pub fn plan_resident_reservoir_prefix_from_cap(
    num_points: usize,
    params: &ForgeANNParams,
    reservoir_cap_bytes: usize,
) -> (plan: ResidentReservoirPlan)
    ensures
        plan.resident_points == least(
            reservoir_cap_bytes as int / greatest(
                locked_reservoir_bytes(1, params.l_max as int),
                1,
            ),
            num_points as int,
        ),
        1 <= point_bytes(params.l_max as int) <= usize::MAX ==> fills_cap(
            num_points as int,
            reservoir_cap_bytes as int,
            params.l_max as int,
            plan.resident_points as int,
        ),
{
    proof {
        if 1 <= point_bytes(params.l_max as int) <= usize::MAX {
            law_capped_residents_fill_the_cap(
                num_points as int,
                reservoir_cap_bytes as int,
                params.l_max as int,
            );
        }
    }
    let per_point: usize = max_usize(estimate_reservoir_bytes(1, params.l_max), 1);
    ResidentReservoirPlan { resident_points: min_usize(reservoir_cap_bytes / per_point, num_points) }
}

/// The leaf workers that a budget allows: two thirds of it are for other work.
pub open spec fn budgeted_workers(requested: int, budget: int, scratch: int) -> int {
    let per_worker = capped(scratch + WORKER_RESERVE_BYTES);
    let shared = capped(budget * 2) / 3;
    let for_workers = greatest(floored(budget - shared), per_worker);
    least(greatest(requested, 1), greatest(for_workers / per_worker, 1))
}

pub fn derive_oom_worker_count(
    requested_threads: usize,
    params: &ForgeANNParams,
    dim: usize,
) -> (workers: usize)
    ensures
        workers == budgeted_workers(
            requested_threads as int,
            params.memory_budget(),
            leaf_scratch_bytes(
                params.max_full_matrix_leaf_size as int,
                dim as int,
                params.leaf_knn as int,
            ),
        ),
        1 <= workers <= greatest(requested_threads as int, 1),
        2 * params.memory_budget() <= usize::MAX && leaf_scratch_bytes(
            params.max_full_matrix_leaf_size as int,
            dim as int,
            params.leaf_knn as int,
        ) + 0x200_0000 <= usize::MAX ==> fills_worker_budget(
            requested_threads as int,
            params.memory_budget(),
            leaf_scratch_bytes(
                params.max_full_matrix_leaf_size as int,
                dim as int,
                params.leaf_knn as int,
            ),
            workers as int,
        ),
{
    proof {
        let bytes = leaf_scratch_bytes(
            params.max_full_matrix_leaf_size as int,
            dim as int,
            params.leaf_knn as int,
        );
        if 2 * params.memory_budget() <= usize::MAX && bytes + 0x200_0000 <= usize::MAX {
            law_leaf_scratch_is_the_sum_of_its_parts(
                greatest(params.max_full_matrix_leaf_size as int, 1),
                dim as int,
                greatest(params.leaf_knn as int, 1),
            );
            law_workers_fill_their_budget(
                requested_threads as int,
                params.memory_budget(),
                bytes,
            );
        }
    }
    let requested: usize = max_usize(requested_threads, 1);
    let budget: usize = params.effective_oom_memory_budget_bytes();
    let per_worker: usize = estimate_leaf_scratch_bytes(
        params.kernel_safe_leaf_size(),
        dim,
        params.leaf_knn,
    ).saturating_add(WORKER_RESERVE_BYTES);
    let shared: usize = sat_mul(budget, 2) / 3;
    let for_workers: usize = max_usize(budget.saturating_sub(shared), per_worker);
    min_usize(requested, max_usize(for_workers / per_worker, 1))
}

/// The threads of an out-of-core build.
#[derive(Clone, Copy, Debug, PartialEq, Eq, Structural)]
pub struct OomExecutionThreads {
    pub pool_threads: usize,
    pub leaf_budget_threads: usize,
}

/// The pool is as wide as asked for; leaves are worked on by as many of its threads
/// as the budget allows.
pub fn derive_oom_execution_threads(
    requested_threads: usize,
    params: &ForgeANNParams,
    dim: usize,
) -> (threads: OomExecutionThreads)
    ensures
        threads.pool_threads == greatest(requested_threads as int, 1),
        threads.leaf_budget_threads == budgeted_workers(
            requested_threads as int,
            params.memory_budget(),
            leaf_scratch_bytes(
                params.max_full_matrix_leaf_size as int,
                dim as int,
                params.leaf_knn as int,
            ),
        ),
        1 <= threads.leaf_budget_threads <= threads.pool_threads,
        2 * params.memory_budget() <= usize::MAX && leaf_scratch_bytes(
            params.max_full_matrix_leaf_size as int,
            dim as int,
            params.leaf_knn as int,
        ) + 0x200_0000 <= usize::MAX ==> fills_worker_budget(
            requested_threads as int,
            params.memory_budget(),
            leaf_scratch_bytes(
                params.max_full_matrix_leaf_size as int,
                dim as int,
                params.leaf_knn as int,
            ),
            threads.leaf_budget_threads as int,
        ),
{
    let pool_threads: usize = max_usize(requested_threads, 1);
    OomExecutionThreads {
        pool_threads,
        leaf_budget_threads: derive_oom_worker_count(pool_threads, params, dim),
    }
}

} // verus!
