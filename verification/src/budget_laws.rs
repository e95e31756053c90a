//! What the shares of a memory budget hold, said in bytes.

use vstd::arithmetic::div_mod::lemma_div_is_ordered;
use vstd::prelude::*;

use crate::arith::{capped, floored, greatest, least};
use crate::direct_io::lemma_rounded;
use crate::float_bits::F32;
use crate::graph_build::{build_mode, metadata_only, planned_residents, OomBuildMode, StoreInput};
use crate::hash_prune::HashPruneReservoir;
use crate::memory_plan::{
    budgeted_workers, leaf_scratch_bytes, locked_reservoir_bytes, resident_prefix, shard_points,
    spill_shard_points, OomMemoryPlan, MIN_RESERVOIR_HEADROOM_BYTES,
};
use crate::params::ForgeANNParams;

verus! {

/// The bytes of one reservoir without its lock: eight for each slot.
pub open spec fn bare_point_bytes(l_max: int) -> int {
    core::mem::size_of::<HashPruneReservoir>() + 8 * l_max
}

/// The bytes of one reservoir in its lock.
pub open spec fn point_bytes(l_max: int) -> int {
    core::mem::size_of::<parking_lot::Mutex<HashPruneReservoir>>() + bare_point_bytes(l_max)
}

/// The largest whole number of shards, or all points, whose reservoirs lie within a budget
/// beside the leaf scratch of all threads, the sketches and the headroom: a tenth of the
/// budget and half a gibibyte at least.
pub open spec fn fills_reservoir_budget(
    points: int,
    threads: int,
    scratch: int,
    sketch_bytes: int,
    shard: int,
    budget: int,
    l_max: int,
    resident: int,
) -> bool {
    let working = if threads <= 1 {
        scratch
    } else {
        threads * scratch
    };
    let room = |headroom: int| budget - working - sketch_bytes - headroom;
    &&& 0 <= resident <= points
    &&& resident > 0 ==> resident * point_bytes(l_max) <= room(budget / 10)
    &&& resident > 0 ==> resident * point_bytes(l_max) <= room(0x2000_0000)
    &&& resident < points ==> (resident + shard) * point_bytes(l_max) > room(budget / 10) || (
    resident + shard) * point_bytes(l_max) > room(0x2000_0000)
    &&& resident < points ==> exists|shards: int| resident == #[trigger] (shards * shard)
}

proof fn lemma_threads(threads: int, scratch: int)
    ensures
        scratch * greatest(threads, 1) == if threads <= 1 {
            scratch
        } else {
            threads * scratch
        },
{
    assert(scratch * 1 == scratch);
    assert(scratch * threads == threads * scratch) by (nonlinear_arith);
}

/// What fits into `available` bytes, rounded down to whole shards.
proof fn lemma_whole_shards(available: int, each: int, shard: int)
    requires
        0 <= available,
        1 <= each,
        1 <= shard,
    ensures
        0 <= available / each,
        (available / each) * each <= available < (available / each + 1) * each,
        0 <= available / each / shard * shard <= available / each,
        (available / each / shard * shard) * each <= available,
        (available / each / shard * shard + shard) * each > available,
{
    let fitting = available / each;
    lemma_rounded(available, each);
    assert((fitting + 1) * each == fitting * each + each) by (nonlinear_arith);
    assert(fitting >= 0) by (nonlinear_arith)
        requires
            fitting == available / each,
            available >= 0,
            each >= 1,
    ;
    lemma_rounded(fitting, shard);
    let whole = fitting / shard * shard;
    assert(whole * each <= fitting * each) by (nonlinear_arith)
        requires
            whole <= fitting,
            each >= 1,
    ;
    assert((whole + shard) * each >= (fitting + 1) * each) by (nonlinear_arith)
        requires
            whole + shard >= fitting + 1,
            each >= 1,
    ;
}

/// Where any point is resident, the resident reservoirs, the leaf scratch of all threads,
/// the sketches and the headroom together do not exceed the reservoir budget; and where
/// points are left out, one more shard would exceed it.
pub proof fn law_resident_reservoirs_fill_the_budget(
    points: int,
    threads: int,
    scratch: int,
    sketch_bytes: int,
    shard: int,
    budget: int,
    l_max: int,
)
    requires
        0 <= points,
        0 <= scratch,
        0 <= sketch_bytes,
        1 <= shard,
        0 <= budget <= usize::MAX,
        0 <= l_max,
        point_bytes(l_max) <= usize::MAX,
        1 <= point_bytes(l_max),
        threads * scratch <= usize::MAX,
        scratch <= usize::MAX,
    ensures
        fills_reservoir_budget(
            points,
            threads,
            scratch,
            sketch_bytes,
            shard,
            budget,
            l_max,
            resident_prefix(points, threads, scratch, sketch_bytes, shard, budget, l_max),
        ),
{
    let each = point_bytes(l_max);
    lemma_threads(threads, scratch);
    let active = scratch * greatest(threads, 1);
    let least_free = greatest(budget / 10, MIN_RESERVOIR_HEADROOM_BYTES as int);
    let free = floored(floored(floored(budget - active) - sketch_bytes) - least_free);
    assert(active >= 0) by (nonlinear_arith)
        requires
            active == scratch * greatest(threads, 1),
            scratch >= 0,
            greatest(threads, 1) >= 1,
    ;
    assert(locked_reservoir_bytes(1, l_max) == each);
    lemma_whole_shards(free, each, shard);
    let fitting = free / each;
    let resident = resident_prefix(points, threads, scratch, sketch_bytes, shard, budget, l_max);
    assert(capped(active) == active);
    assert(resident <= fitting);
    assert(resident * each <= fitting * each) by (nonlinear_arith)
        requires
            resident <= fitting,
            each >= 1,
    ;
    if resident > 0 {
        assert(resident * each >= 1) by (nonlinear_arith)
            requires
                resident >= 1,
                each >= 1,
        ;
    }
    if resident < points {
        let shards = fitting / shard;
        assert(resident == shards * shard);
        assert((resident + shard) * each > free);
    }
}

/// More threads, more scratch for each or more sketches never keep more points resident.
pub proof fn law_other_work_never_adds_residents(
    points: int,
    threads: int,
    scratch: int,
    sketch_bytes: int,
    more_threads: int,
    more_scratch: int,
    more_sketch_bytes: int,
    shard: int,
    budget: int,
    l_max: int,
)
    requires
        0 <= points,
        0 <= scratch <= more_scratch,
        0 <= sketch_bytes <= more_sketch_bytes,
        threads <= more_threads,
        1 <= shard,
        0 <= budget,
        0 <= l_max,
    ensures
        resident_prefix(
            points,
            more_threads,
            more_scratch,
            more_sketch_bytes,
            shard,
            budget,
            l_max,
        ) <= resident_prefix(points, threads, scratch, sketch_bytes, shard, budget, l_max),
{
    let each = greatest(locked_reservoir_bytes(1, l_max), 1);
    let least_free = greatest(budget / 10, MIN_RESERVOIR_HEADROOM_BYTES as int);
    let many = greatest(more_threads, 1);
    let few = greatest(threads, 1);
    assert(0 <= scratch * few <= more_scratch * many) by (nonlinear_arith)
        requires
            0 <= scratch <= more_scratch,
            1 <= few <= many,
    ;
    let low = floored(
        floored(floored(budget - capped(more_scratch * many)) - more_sketch_bytes) - least_free,
    );
    let high = floored(floored(floored(budget - capped(scratch * few)) - sketch_bytes) - least_free);
    assert(low <= high);
    lemma_whole_shards(low, each, shard);
    lemma_whole_shards(high, each, shard);
    lemma_div_is_ordered(low, high, each);
    lemma_div_is_ordered(low / each, high / each, shard);
    let a = low / each / shard;
    let b = high / each / shard;
    assert(a * shard <= b * shard) by (nonlinear_arith)
        requires
            a <= b,
            shard >= 1,
    ;
}

/// As many points as have their reservoirs, with their locks, within a cap.
pub open spec fn fills_cap(points: int, cap: int, l_max: int, resident: int) -> bool {
    &&& 0 <= resident <= points
    &&& resident * point_bytes(l_max) <= cap
    &&& resident < points ==> (resident + 1) * point_bytes(l_max) > cap
}

/// What lies within a cap is as much as lies within it at all.
pub proof fn law_capped_residents_fill_the_cap(points: int, cap: int, l_max: int)
    requires
        0 <= points,
        0 <= cap,
        0 <= l_max,
        1 <= point_bytes(l_max) <= usize::MAX,
    ensures
        fills_cap(
            points,
            cap,
            l_max,
            least(cap / greatest(locked_reservoir_bytes(1, l_max), 1), points),
        ),
{
    let each = point_bytes(l_max);
    lemma_whole_shards(cap, each, 1);
    let fitting = cap / each;
    let resident = least(fitting, points);
    assert(resident * each <= fitting * each) by (nonlinear_arith)
        requires
            resident <= fitting,
            each >= 1,
    ;
}

/// As many points as have their reservoirs in a spill cache: one point at least, and one
/// more would not fit.
pub open spec fn fills_spill_cache(points: int, cache: int, l_max: int, shard: int) -> bool {
    &&& 1 <= shard
    &&& shard <= points || shard == 1
    &&& shard > 1 ==> shard * bare_point_bytes(l_max) <= cache
    &&& shard < points ==> (shard + 1) * bare_point_bytes(l_max) > cache
}

/// A shard has as many points as have their reservoirs in its cache.
pub proof fn law_shard_fills_its_cache(points: int, cache: int, l_max: int)
    requires
        0 <= points,
        0 <= cache,
        0 <= l_max,
        1 <= bare_point_bytes(l_max) <= usize::MAX,
    ensures
        fills_spill_cache(points, cache, l_max, shard_points(points, cache, l_max)),
{
    let each = bare_point_bytes(l_max);
    lemma_whole_shards(cache, each, 1);
    let fitting = cache / each;
    let shard = shard_points(points, cache, l_max);
    if shard > 1 {
        assert(shard * each <= fitting * each) by (nonlinear_arith)
            requires
                shard <= fitting,
                each >= 1,
        ;
    }
    if shard < points {
        assert((shard + 1) * each >= (fitting + 1) * each) by (nonlinear_arith)
            requires
                shard >= fitting,
                each >= 1,
        ;
    }
}

/// As many workers as asked for, or as have their scratch and a reserve of 32 mebibytes
/// each within a third of the budget; one at least.
pub open spec fn fills_worker_budget(
    requested: int,
    budget: int,
    scratch: int,
    workers: int,
) -> bool {
    let each = scratch + 0x200_0000;
    &&& 1 <= workers
    &&& workers <= requested || workers == 1
    &&& workers > 1 ==> 3 * (workers * each) <= budget + 2
    &&& workers < requested ==> 3 * ((workers + 1) * each) > budget
}

/// The workers together stay within their third of the budget, and where there are fewer
/// than asked for, one more would not.
pub proof fn law_workers_fill_their_budget(requested: int, budget: int, scratch: int)
    requires
        0 <= budget,
        2 * budget <= usize::MAX,
        0 <= scratch,
        scratch + 0x200_0000 <= usize::MAX,
    ensures
        fills_worker_budget(requested, budget, scratch, budgeted_workers(requested, budget, scratch)),
{
    let each = scratch + 0x200_0000;
    let third = budget - (2 * budget) / 3;
    let for_workers = greatest(third, each);
    lemma_whole_shards(for_workers, each, 1);
    let fitting = for_workers / each;
    let workers = budgeted_workers(requested, budget, scratch);
    assert(fitting >= 1) by (nonlinear_arith)
        requires
            for_workers >= each,
            each >= 1,
            for_workers < (fitting + 1) * each,
    ;
    if workers > 1 {
        assert(workers * each <= fitting * each) by (nonlinear_arith)
            requires
                workers <= fitting,
                each >= 1,
        ;
        assert(workers * each >= 2 * each) by (nonlinear_arith)
            requires
                workers >= 2,
                each >= 1,
        ;
    }
    if workers < requested {
        assert(workers == fitting);
    }
}

/// The shares of a budget to within a byte: forty-five hundredths for reservoirs, fifteen
/// for leaf scratch, and what is left for input and output.
pub open spec fn shared_out(total: int, plan: OomMemoryPlan) -> bool {
    &&& plan.total_budget_bytes == total
    &&& 100 * plan.reservoir_budget_bytes <= 45 * total < 100 * (plan.reservoir_budget_bytes + 1)
    &&& 100 * plan.scratch_budget_bytes <= 15 * total < 100 * (plan.scratch_budget_bytes + 1)
    &&& 40 * total <= 100 * plan.io_headroom_bytes < 40 * total + 200
}

/// A budget is shared out in hundredths.
pub proof fn law_budget_is_shared_in_hundredths(total: int)
    requires
        0 <= total,
        45 * total <= usize::MAX,
    ensures
        shared_out(total, OomMemoryPlan::shares(total)),
{
}

/// The bytes that one worker needs for a leaf: a distance for each pair of points, a
/// candidate for each point, the points themselves, and for each point its edges in both
/// directions.
pub open spec fn leaf_bytes(leaf: int, dim: int, knn: int) -> int {
    4 * (leaf * leaf) + core::mem::size_of::<(usize, F32)>() * leaf + 4 * (leaf * dim) + (
    core::mem::size_of::<usize>() + 10) * (2 * (leaf * knn))
}

/// The scratch of a leaf is the sum of its parts, or the largest number of bytes where that
/// is larger; an empty leaf counts as one point, and no neighbour as one.
pub proof fn law_leaf_scratch_is_the_sum_of_its_parts(max_leaf_size: int, dim: int, leaf_knn: int)
    requires
        1 <= max_leaf_size <= usize::MAX,
        0 <= dim <= usize::MAX,
        1 <= leaf_knn <= usize::MAX,
    ensures
        leaf_scratch_bytes(max_leaf_size, dim, leaf_knn) == if leaf_bytes(
            max_leaf_size,
            dim,
            leaf_knn,
        ) <= usize::MAX {
            leaf_bytes(max_leaf_size, dim, leaf_knn)
        } else {
            usize::MAX as int
        },
        leaf_scratch_bytes(0, dim, leaf_knn) == leaf_scratch_bytes(1, dim, leaf_knn),
        leaf_scratch_bytes(max_leaf_size, dim, 0) == leaf_scratch_bytes(max_leaf_size, dim, 1),
{
    let leaf = max_leaf_size;
    let pair = core::mem::size_of::<(usize, F32)>() as int;
    let word = core::mem::size_of::<usize>() as int;
    let edge = word + 10;
    assert(leaf * leaf >= 0) by (nonlinear_arith)
        requires
            leaf >= 1,
    ;
    assert(leaf * dim >= 0) by (nonlinear_arith)
        requires
            leaf >= 1,
            dim >= 0,
    ;
    assert(leaf * pair == pair * leaf && leaf * pair >= 0) by (nonlinear_arith)
        requires
            leaf >= 1,
            pair >= 0,
    ;
    assert(leaf * (leaf_knn * 2) == 2 * (leaf * leaf_knn)) by (nonlinear_arith);
    let links = leaf * (leaf_knn * 2);
    assert(links * edge == edge * links) by (nonlinear_arith);
    assert(links >= leaf_knn * 2) by (nonlinear_arith)
        requires
            links == leaf * (leaf_knn * 2),
            leaf >= 1,
            leaf_knn >= 1,
    ;
    assert(links * edge >= links) by (nonlinear_arith)
        requires
            links >= 0,
            edge >= 1,
    ;
    let top = usize::MAX as int;
    assert(top * edge >= top) by (nonlinear_arith)
        requires
            top >= 0,
            edge >= 1,
    ;
    assert(leaf * top >= top) by (nonlinear_arith)
        requires
            top >= 0,
            leaf >= 1,
    ;
}

/// Where candidates are kept follows from how many points keep theirs: all of them, some or
/// none. A build for metadata keeps none, whatever the points.
pub proof fn law_mode_follows_from_the_residents(metadata: bool, resident: int, points: int)
    requires
        0 <= resident <= points,
    ensures
        build_mode(metadata, resident, points) == OomBuildMode::MetadataOnly <==> metadata,
        build_mode(metadata, resident, points) == OomBuildMode::Resident <==> !metadata && resident
            == points,
        build_mode(metadata, resident, points) == OomBuildMode::Hybrid <==> !metadata && 0 < resident
            < points,
        build_mode(metadata, resident, points) == OomBuildMode::External <==> !metadata && resident
            == 0 && points > 0,
{
}

/// The reservoirs of a shard fit into the spill cache that is set, or into an eighth of the
/// memory where none is; and a shard that does not have all points has as many as fit.
pub proof fn law_spilled_shards_fit_their_share(
    points: int,
    params: ForgeANNParams,
    memory: int,
)
    requires
        0 <= points,
        8 <= memory,
        1 <= bare_point_bytes(params.l_max as int) <= usize::MAX,
    ensures
        ({
            let shard = spill_shard_points(points, params, memory);
            let each = bare_point_bytes(params.l_max as int);
            &&& 1 <= shard
            &&& shard <= points || shard == 1
            &&& params.oom_spill_cache_bytes > 0 && shard > 1 ==> shard * each
                <= params.oom_spill_cache_bytes
            &&& params.oom_spill_cache_bytes > 0 && shard < points ==> (shard + 1) * each
                > params.oom_spill_cache_bytes
            &&& params.oom_spill_cache_bytes == 0 && shard > 1 ==> 8 * (shard * each) <= memory
            &&& params.oom_spill_cache_bytes == 0 && shard < points ==> 8 * ((shard + 1) * each)
                > memory - 8
        }),
{
    let cache = if params.oom_spill_cache_bytes == 0 {
        memory / 8
    } else {
        params.oom_spill_cache_bytes as int
    };
    law_shard_fills_its_cache(points, cache, params.l_max as int);
}

/// The points that keep their reservoirs in memory: as many as lie within the cap that is
/// set, and else as many as lie within the reservoirs' share of the memory beside the work.
pub proof fn law_planned_residents_stay_within_their_bytes(
    params: ForgeANNParams,
    points: int,
    leaf_threads: int,
    dim: int,
    sketch_bytes: int,
    shard: int,
)
    requires
        0 <= points,
        0 <= sketch_bytes,
        1 <= shard,
        0 <= dim <= usize::MAX,
        45 * params.memory_budget() <= usize::MAX,
        1 <= point_bytes(params.l_max as int) <= usize::MAX,
        leaf_threads * leaf_scratch_bytes(
            params.max_full_matrix_leaf_size as int,
            dim,
            params.leaf_knn as int,
        ) <= usize::MAX,
    ensures
        ({
            let resident = planned_residents(
                params,
                points,
                leaf_threads,
                dim,
                sketch_bytes,
                shard,
            );
            let each = point_bytes(params.l_max as int);
            &&& 0 <= resident <= points
            &&& params.oom_resident_reservoir_cap_bytes matches Some(cap) ==> resident * each <= cap
                && (resident < points ==> (resident + 1) * each > cap)
            &&& params.oom_resident_reservoir_cap_bytes is None && resident > 0 ==> 100 * (resident
                * each + sketch_bytes) <= 45 * params.memory_budget()
        }),
{
    let each = point_bytes(params.l_max as int);
    match params.oom_resident_reservoir_cap_bytes {
        Some(cap) => {
            law_capped_residents_fill_the_cap(points, cap as int, params.l_max as int);
        },
        None => {
            let total = params.memory_budget();
            let scratch = leaf_scratch_bytes(
                params.max_full_matrix_leaf_size as int,
                dim,
                params.leaf_knn as int,
            );
            law_budget_is_shared_in_hundredths(total);
            law_leaf_scratch_is_the_sum_of_its_parts(
                greatest(params.max_full_matrix_leaf_size as int, 1),
                dim,
                greatest(params.leaf_knn as int, 1),
            );
            assert(0 <= scratch <= usize::MAX) by {
                lemma_scratch_counted(
                    params.max_full_matrix_leaf_size as int,
                    dim,
                    params.leaf_knn as int,
                );
            }
            let budget = OomMemoryPlan::shares(total).reservoir_budget_bytes as int;
            law_resident_reservoirs_fill_the_budget(
                points,
                leaf_threads,
                scratch,
                sketch_bytes,
                shard,
                budget,
                params.l_max as int,
            );
            if leaf_threads > 1 {
                assert(leaf_threads * scratch >= 0) by (nonlinear_arith)
                    requires
                        leaf_threads > 1,
                        scratch >= 0,
                ;
            }
        },
    }
}

proof fn lemma_scratch_counted(max_leaf_size: int, dim: int, leaf_knn: int)
    requires
        0 <= dim,
    ensures
        0 <= leaf_scratch_bytes(max_leaf_size, dim, leaf_knn) <= usize::MAX,
{
    let leaf = greatest(max_leaf_size, 1);
    let knn = greatest(leaf_knn, 1);
    assert(leaf * leaf >= 0 && leaf * dim >= 0) by (nonlinear_arith)
        requires
            leaf >= 1,
            dim >= 0,
    ;
    assert(leaf * core::mem::size_of::<(usize, F32)>() >= 0) by (nonlinear_arith)
        requires
            leaf >= 1,
            core::mem::size_of::<(usize, F32)>() >= 0,
    ;
    let links = capped(knn * 2);
    assert(leaf * links >= 0) by (nonlinear_arith)
        requires
            leaf >= 1,
            links >= 0,
    ;
    let all = capped(leaf * links);
    let edge = capped(core::mem::size_of::<usize>() + 10);
    assert(all * edge >= 0) by (nonlinear_arith)
        requires
            all >= 0,
            edge >= 0,
    ;
}

/// A graph is left out only by an out-of-core build whose edges are recorded for a pruning
/// that is switched on.
pub proof fn law_only_recorded_builds_leave_the_graph_out(
    input: StoreInput,
    params: ForgeANNParams,
)
    ensures
        metadata_only(input, params) <==> params.oom_enable && input.recorder
            && params.view_lune_prune_enable,
        !params.oom_enable ==> !metadata_only(input, params),
{
}

} // verus!
