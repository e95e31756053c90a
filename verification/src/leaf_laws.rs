//! What working on a leaf comes to, said of rows, bytes, edges and witnesses.

use vstd::arithmetic::div_mod::{lemma_fundamental_div_mod, lemma_mod_bound};
use vstd::prelude::*;

use crate::float_value::{law_singles_compare_as_numbers, lies_below};
use crate::leaf_build::PendingEdge;
use crate::leaf_route::{
    block_scratch_bytes, leaf_neighbors, leaf_read_options, resident_part, sampled_leaf,
    spilled_part, wave_width, ParallelBlockResult,
};
use crate::lune::{
    block_keys, block_witnesses, edges_in_order, LuneMeasures, LuneRow, PendingLuneWitness,
};
use crate::metric::Metric;
use crate::order::{precedes, sorts};
use crate::params::ForgeANNParams;
use crate::scheduler::{stack_mb, SchedulerBudget};
use crate::topk::Neighbor;

verus! {

/// Each point of a leaf gets as many neighbours as are asked for, or all other points of the
/// leaf where there are fewer.
pub proof fn law_leaf_neighbors_are_the_others_at_most(leaf_knn: int, leaf_size: int)
    requires
        0 <= leaf_knn,
        0 <= leaf_size,
    ensures
        0 <= leaf_neighbors(leaf_knn, leaf_size) <= leaf_knn,
        leaf_size > 0 ==> leaf_neighbors(leaf_knn, leaf_size) < leaf_size,
        leaf_size > 0 && leaf_neighbors(leaf_knn, leaf_size) < leaf_knn ==> leaf_neighbors(
            leaf_knn,
            leaf_size,
        ) == leaf_size - 1,
        leaf_size == 0 ==> leaf_neighbors(leaf_knn, leaf_size) == 0,
{
}

/// A leaf is sampled exactly where it has 640 points or more, the metric is Euclidean and a
/// group has a dimension. A leaf of more points is sampled wherever one of fewer is.
pub proof fn law_large_euclidean_leaves_are_sampled(
    params: ForgeANNParams,
    metric: Metric,
    leaf_size: int,
    more: int,
)
    requires
        leaf_size <= more,
    ensures
        sampled_leaf(params, metric, leaf_size) <==> leaf_size >= 640 && metric == Metric::L2
            && params.adsampling_group_dims >= 1,
        sampled_leaf(params, metric, leaf_size) ==> sampled_leaf(params, metric, more),
{
}

/// A wave is as wide as there are blocks and threads for, and as 256 mebibytes hold; a
/// narrower one is as wide as they hold. One block is always worked on.
pub proof fn law_waves_fit_their_scratch(threads: int, scratch: int, total_blocks: int)
    requires
        0 <= threads,
        0 <= scratch,
        0 <= total_blocks,
    ensures
        ({
            let width = wave_width(threads, scratch, total_blocks);
            &&& 1 <= width
            &&& width == 1 || (width <= threads && width <= total_blocks)
            &&& width > 1 ==> width * scratch <= 0x1000_0000
            &&& width < threads && width < total_blocks ==> (width + 1) * scratch > 0x1000_0000
        }),
{
    let width = wave_width(threads, scratch, total_blocks);
    if scratch > 0 {
        let fitting = 0x1000_0000int / scratch;
        lemma_fundamental_div_mod(0x1000_0000, scratch);
        lemma_mod_bound(0x1000_0000, scratch);
        assert(scratch * fitting == fitting * scratch) by (nonlinear_arith);
        assert((fitting + 1) * scratch == fitting * scratch + scratch) by (nonlinear_arith);
        if width > 1 {
            assert(width * scratch <= fitting * scratch) by (nonlinear_arith)
                requires
                    width <= fitting,
                    scratch >= 1,
            ;
        }
        if width < threads && width < total_blocks {
            assert((width + 1) * scratch >= (fitting + 1) * scratch) by (nonlinear_arith)
                requires
                    width >= fitting,
                    scratch >= 1,
            ;
        }
    } else {
        assert(width * scratch == 0) by (nonlinear_arith)
            requires
                scratch == 0,
        ;
    }
}

/// The scratch of a block is four bytes for each distance and two edges for each neighbour
/// of each point, as far as that can be counted.
pub proof fn law_block_scratch_is_the_sum_of_its_parts(leaf_size: int, block_rows: int, knn: int)
    requires
        0 <= leaf_size,
        0 <= block_rows,
        1 <= knn,
        4 * (block_rows * leaf_size) + core::mem::size_of::<PendingEdge>() * (2 * (block_rows
            * knn)) <= usize::MAX,
        1 <= core::mem::size_of::<PendingEdge>(),
    ensures
        block_scratch_bytes(leaf_size, block_rows, knn) == 4 * (block_rows * leaf_size)
            + core::mem::size_of::<PendingEdge>() * (2 * (block_rows * knn)),
{
    let edge = core::mem::size_of::<PendingEdge>() as int;
    let links = 2 * (block_rows * knn);
    assert(block_rows * leaf_size >= 0) by (nonlinear_arith)
        requires
            block_rows >= 0,
            leaf_size >= 0,
    ;
    assert(block_rows * knn >= 0) by (nonlinear_arith)
        requires
            block_rows >= 0,
            knn >= 1,
    ;
    assert(edge * links >= links && edge * links == links * edge) by (nonlinear_arith)
        requires
            edge >= 1,
            links >= 0,
    ;
}

/// Points of a leaf are read in windows that hold all of its rows, within their bounds; rows
/// of up to a page are read along where one lies between two that are wanted.
pub proof fn law_leaf_windows_hold_the_rows(
    row_bytes: int,
    rows: int,
    least_window: int,
    most_window: int,
)
    requires
        0 <= row_bytes,
        1 <= rows,
        row_bytes * rows <= usize::MAX,
        0 <= least_window <= most_window <= usize::MAX,
    ensures
        ({
            let options = leaf_read_options(row_bytes, rows, least_window, most_window);
            &&& least_window <= options.max_window_bytes <= most_window
            &&& options.max_window_bytes < most_window ==> options.max_window_bytes >= row_bytes
                * rows
            &&& options.max_window_bytes > least_window ==> options.max_window_bytes <= row_bytes
                * rows
            &&& options.max_gap_rows <= 1
            &&& options.max_gap_rows == 1 <==> row_bytes <= 4096
            &&& options.sort_ids
        }),
{
    assert(row_bytes * rows >= 0) by (nonlinear_arith)
        requires
            row_bytes >= 0,
            rows >= 1,
    ;
}

/// Two thousand and forty-eight leaves may wait for each worker, and there is one worker at
/// least.
pub proof fn law_backlog_grows_with_the_workers(workers: int)
    requires
        1 <= workers,
        2048 * workers <= usize::MAX,
    ensures
        SchedulerBudget::worker_backlog(workers) == 2048 * workers,
        SchedulerBudget::worker_backlog(0) == 2048,
{
}

/// A stack that is set within 8 and 256 mebibytes is taken as it is; another one is moved to
/// the nearer bound, and 32 are taken where none is set.
pub proof fn law_stacks_stay_within_bounds(mb: int)
    ensures
        8 <= mb <= 256 ==> stack_mb(Some(mb)) == mb,
        mb < 8 ==> stack_mb(Some(mb)) == 8,
        mb > 256 ==> stack_mb(Some(mb)) == 256,
        stack_mb(None) == 32,
{
}

/// `part` holds the edges of the points from `first` to in front of `last`, those at
/// `places`: each of them, no other, and in their order.
pub open spec fn edges_between(
    edges: Seq<PendingEdge>,
    first: int,
    last: int,
    part: Seq<PendingEdge>,
    places: Seq<int>,
) -> bool {
    &&& places.len() == part.len()
    &&& forall|i: int|
        0 <= i < part.len() ==> 0 <= #[trigger] places[i] < edges.len() && part[i]
            == edges[places[i]] && first <= part[i].p < last
    &&& forall|i: int, j: int|
        0 <= i < j < part.len() ==> #[trigger] places[i] < #[trigger] places[j]
    &&& forall|e: int|
        0 <= e < edges.len() && first <= (#[trigger] edges[e]).p < last ==> places.contains(e)
}

/// One more edge at the end is in the part where its point is.
pub(crate) proof fn lemma_edges_between_step(
    edges: Seq<PendingEdge>,
    first: int,
    last: int,
    part: Seq<PendingEdge>,
    places: Seq<int>,
    edge: PendingEdge,
)
    requires
        edges_between(edges, first, last, part, places),
    ensures
        first <= edge.p < last ==> edges_between(
            edges.push(edge),
            first,
            last,
            part.push(edge),
            places.push(edges.len() as int),
        ),
        !(first <= edge.p < last) ==> edges_between(edges.push(edge), first, last, part, places),
{
    let all = edges.push(edge);
    let n = edges.len() as int;
    if first <= edge.p < last {
        let grown = places.push(n);
        assert forall|e: int| 0 <= e < all.len() && first <= (#[trigger] all[e]).p
            < last implies grown.contains(e) by {
            if e < n {
                assert(all[e] == edges[e]);
                let i = choose|i: int| 0 <= i < places.len() && places[i] == e;
                assert(grown[i] == e);
            } else {
                assert(grown[places.len() as int] == e);
            }
        }
    } else {
        assert forall|e: int| 0 <= e < all.len() && first <= (#[trigger] all[e]).p
            < last implies places.contains(e) by {
            assert(all[e] == edges[e]);
        }
    }
}

proof fn lemma_parts(edges: Seq<PendingEdge>, resident_points: int) -> (places: (
    Seq<int>,
    Seq<int>,
))
    ensures
        edges_between(edges, 0, resident_points, resident_part(edges, resident_points), places.0),
        edges_between(
            edges,
            resident_points,
            usize::MAX + 1,
            spilled_part(edges, resident_points),
            places.1,
        ),
    decreases edges.len(),
{
    if edges.len() == 0 {
        (Seq::empty(), Seq::empty())
    } else {
        let few = edges.drop_last();
        let edge = edges.last();
        let places = lemma_parts(few, resident_points);
        let n = few.len() as int;
        assert(few.push(edge) =~= edges);
        lemma_edges_between_step(
            few,
            0,
            resident_points,
            resident_part(few, resident_points),
            places.0,
            edge,
        );
        lemma_edges_between_step(
            few,
            resident_points,
            usize::MAX + 1,
            spilled_part(few, resident_points),
            places.1,
            edge,
        );
        if edge.p < resident_points {
            (places.0.push(n), places.1)
        } else {
            (places.0, places.1.push(n))
        }
    }
}

/// Edges are taken apart by their points alone, and both parts keep their order.
pub proof fn law_parts_are_the_edges_of_their_points(
    edges: Seq<PendingEdge>,
    resident_points: int,
)
    ensures
        exists|places: Seq<int>| #[trigger]
            edges_between(edges, 0, resident_points, resident_part(edges, resident_points), places),
        exists|places: Seq<int>| #[trigger]
            edges_between(
                edges,
                resident_points,
                usize::MAX + 1,
                spilled_part(edges, resident_points),
                places,
            ),
{
    let places = lemma_parts(edges, resident_points);
}

/// A witness of a pivot against a victim, by their ranks among the neighbours of a point.
pub open spec fn testifies(
    lune: LuneRow,
    pivot: int,
    victim: int,
    witness: PendingLuneWitness,
) -> bool {
    let entry = pivot * lune.row.len() + victim;
    &&& witness.src == lune.src
    &&& witness.pivot == lune.ids[lune.row[pivot].index as int]
    &&& witness.victim == lune.ids[lune.row[victim].index as int]
    &&& witness.margin_q16 == lune.margins[entry]
    &&& witness.pivot_rank == if pivot < 255 {
        pivot + 1
    } else {
        255
    }
    &&& witness.victim_rank == if victim < 255 {
        victim + 1
    } else {
        255
    }
}

/// A pivot that is nearer to the point than the victim, and nearer to the victim than its
/// threshold.
pub open spec fn shadows(lune: LuneRow, pivot: int, victim: int) -> bool {
    &&& 0 <= pivot < victim
    &&& lies_below(
        lune.between[pivot * lune.row.len() + victim],
        lune.thresholds[victim],
    )
}

/// The witness is that of a pivot among the first `m` against a victim among the neighbours
/// from `first` to in front of `n`.
pub open spec fn explained(
    lune: LuneRow,
    m: int,
    first: int,
    n: int,
    witness: PendingLuneWitness,
) -> bool {
    exists|pivot: int, victim: int| #[trigger]
        shadows(lune, pivot, victim) && pivot < m && first <= victim < n && testifies(
            lune,
            pivot,
            victim,
            witness,
        )
}

/// The witnesses against the first `n` neighbours: one for each pivot that shadows one, and
/// no other.
pub open spec fn names_all_shadows(
    lune: LuneRow,
    n: int,
    witnesses: Seq<PendingLuneWitness>,
) -> bool {
    &&& forall|pivot: int, victim: int| #[trigger]
        shadows(lune, pivot, victim) && victim < n ==> exists|k: int|
            0 <= k < witnesses.len() && testifies(lune, pivot, victim, #[trigger] witnesses[k])
    &&& forall|k: int|
        0 <= k < witnesses.len() ==> explained(lune, n, 0, n, #[trigger] witnesses[k])
}

proof fn lemma_against(lune: LuneRow, victim: int, n: int)
    requires
        0 <= n <= victim,
    ensures
        forall|pivot: int| #[trigger]
            shadows(lune, pivot, victim) && pivot < n ==> exists|k: int|
                0 <= k < lune.against(victim, n).len() && testifies(
                    lune,
                    pivot,
                    victim,
                    #[trigger] lune.against(victim, n)[k],
                ),
        forall|k: int|
            0 <= k < lune.against(victim, n).len() ==> explained(
                lune,
                n,
                victim,
                victim + 1,
                #[trigger] lune.against(victim, n)[k],
            ),
    decreases n,
{
    if n > 0 {
        lemma_against(lune, victim, n - 1);
        let before = lune.against(victim, n - 1);
        let all = lune.against(victim, n);
        let entry = (n - 1) * lune.row.len() + victim;
        law_singles_compare_as_numbers(lune.between[entry], lune.thresholds[victim]);
        assert(lune.entry(n - 1, victim) == entry);
        let last = lune.witness(n - 1, victim);
        assert(testifies(lune, n - 1, victim, last));
        assert forall|pivot: int| #[trigger] shadows(lune, pivot, victim) && pivot < n implies exists|
            k: int,
        |
            0 <= k < all.len() && testifies(lune, pivot, victim, #[trigger] all[k]) by {
            if pivot < n - 1 {
                let k = choose|k: int|
                    0 <= k < before.len() && testifies(lune, pivot, victim, #[trigger] before[k]);
                assert(all[k] == before[k]);
            } else {
                assert(all[before.len() as int] == last);
            }
        }
        assert forall|k: int| 0 <= k < all.len() implies explained(
            lune,
            n,
            victim,
            victim + 1,
            #[trigger] all[k],
        ) by {
            if k < before.len() {
                assert(all[k] == before[k]);
            } else {
                assert(all[k] == last);
                assert(shadows(lune, n - 1, victim));
            }
        }
    }
}

/// There is a witness for each neighbour that lies behind a nearer one, and for nothing
/// else.
pub proof fn law_witnesses_name_all_shadows(lune: LuneRow, n: int)
    requires
        0 <= n,
    ensures
        names_all_shadows(lune, n, lune.witnesses(n)),
    decreases n,
{
    if n > 0 {
        law_witnesses_name_all_shadows(lune, n - 1);
        lemma_against(lune, n - 1, n - 1);
        let before = lune.witnesses(n - 1);
        let own = lune.against(n - 1, n - 1);
        let all = lune.witnesses(n);
        assert forall|pivot: int, victim: int| #[trigger] shadows(lune, pivot, victim) && victim
            < n implies exists|k: int|
            0 <= k < all.len() && testifies(lune, pivot, victim, #[trigger] all[k]) by {
            if victim < n - 1 {
                let k = choose|k: int|
                    0 <= k < before.len() && testifies(lune, pivot, victim, #[trigger] before[k]);
                assert(all[k] == before[k]);
            } else {
                let k = choose|k: int|
                    0 <= k < own.len() && testifies(lune, pivot, victim, #[trigger] own[k]);
                assert(all[before.len() + k] == own[k]);
            }
        }
        assert forall|k: int| 0 <= k < all.len() implies explained(
            lune,
            n,
            0,
            n,
            #[trigger] all[k],
        ) by {
            if k < before.len() {
                assert(all[k] == before[k]);
            } else {
                assert(all[k] == own[k - before.len()]);
            }
        }
    }
}

/// The blocks of a wave are put together in the order of their first points, each once.
pub proof fn law_blocks_come_in_their_order(blocks: Seq<ParallelBlockResult>, order: Seq<usize>)
    requires
        sorts(block_keys(blocks), order),
    ensures
        order.len() == blocks.len(),
        order.no_duplicates(),
        forall|i: int| 0 <= i < order.len() ==> #[trigger] order[i] < blocks.len(),
        forall|i: int, j: int|
            0 <= i < j < order.len() ==> blocks[(#[trigger] order[i]) as int].block_start
                <= blocks[(#[trigger] order[j]) as int].block_start,
{
    let keys = block_keys(blocks);
    assert forall|i: int, j: int| 0 <= i < j < order.len() implies blocks[(
    #[trigger] order[i]) as int].block_start <= blocks[(
    #[trigger] order[j]) as int].block_start && order[i] != order[j] by {
        assert(precedes(keys, order[i] as int, order[j] as int));
    }
}

/// The witnesses of a block are those of its points, one point behind the other: somewhere
/// among them stand those of the `i`-th, with the point at its place in the leaf as their
/// source.
pub proof fn law_block_witnesses_are_those_of_its_points(
    leaf: Seq<u32>,
    rows: Seq<Seq<Neighbor>>,
    block_start: int,
    measures: Seq<LuneMeasures>,
    n: int,
    i: int,
) -> (from: int)
    requires
        0 <= i < n,
    ensures
        ({
            let own = LuneRow {
                src: leaf[block_start + i],
                ids: leaf,
                row: rows[i],
                thresholds: measures[i].thresholds@,
                between: measures[i].between@,
                margins: measures[i].margins@,
            };
            let found = own.witnesses(rows[i].len() as int);
            let all = block_witnesses(leaf, rows, block_start, measures, n);
            &&& 0 <= from
            &&& from + found.len() <= all.len()
            &&& all.subrange(from, from + found.len()) == found
        }),
    decreases n,
{
    let before = block_witnesses(leaf, rows, block_start, measures, n - 1);
    let all = block_witnesses(leaf, rows, block_start, measures, n);
    if i == n - 1 {
        let found = measures[i].row(leaf[block_start + i], leaf, rows[i]).witnesses(
            rows[i].len() as int,
        );
        assert(all.subrange(before.len() as int, (before.len() + found.len()) as int) =~= found);
        before.len() as int
    } else {
        let from = law_block_witnesses_are_those_of_its_points(
            leaf,
            rows,
            block_start,
            measures,
            n - 1,
            i,
        );
        let found = measures[i].row(leaf[block_start + i], leaf, rows[i]).witnesses(
            rows[i].len() as int,
        );
        assert(all.subrange(from, from + found.len()) =~= before.subrange(
            from,
            from + found.len(),
        ));
        from
    }
}

/// Of blocks that are put together none is lost: the edges of each stand among all, behind
/// those of the blocks in front of it.
pub proof fn law_merged_edges_hold_every_block(
    blocks: Seq<ParallelBlockResult>,
    order: Seq<usize>,
    n: int,
    i: int,
)
    requires
        0 <= i < n <= order.len(),
    ensures
        ({
            let from = edges_in_order(blocks, order, i).len() as int;
            let own = blocks[order[i] as int].edges@;
            let all = edges_in_order(blocks, order, n);
            &&& from + own.len() <= all.len()
            &&& all.subrange(from, from + own.len()) == own
            &&& edges_in_order(blocks, order, i + 1).len() == from + own.len()
        }),
    decreases n,
{
    let from = edges_in_order(blocks, order, i).len() as int;
    let own = blocks[order[i] as int].edges@;
    let all = edges_in_order(blocks, order, n);
    if i < n - 1 {
        law_merged_edges_hold_every_block(blocks, order, n - 1, i);
        let before = edges_in_order(blocks, order, n - 1);
        assert(all.subrange(from, from + own.len()) =~= before.subrange(from, from + own.len()));
    } else {
        assert(all.subrange(from, from + own.len()) =~= own);
    }
}

} // verus!
