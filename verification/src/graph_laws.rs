//! Which points a graph connects, said of its rows and of the nearest points in the leaves.

use vstd::prelude::*;

use crate::direction::{bit_set, does_not_fall, law_hash_bits_tell_the_direction};
use crate::float_bits::F32;
use crate::float_value::unordered;
use crate::graph_build::{
    all_fit, edges_of, empty_reservoir, graph_rows, neighbors_of, LeafInput, LeafNeighbors,
};
use crate::hash_prune::{
    law_offer_brings_its_candidate_alone, law_offer_keeps_order, ReservoirState, Slot,
};
use crate::leaf_build::{fed, nearest_row, LeafPoints, PendingEdge};
use crate::leaf_route::{leaf_neighbors, lemma_nearest_rows_known};
use crate::params::ForgeANNParams;
use crate::reservoir_laws::{
    competes, fresh_slot, law_offer_takes_the_nearer, nearer, put_in,
};
use crate::rows::{lemma_row_bounds, row_of};
use crate::selection_laws::{law_leaf_row_holds_the_nearest, nearest_in_leaf};
use crate::topk::Neighbor;

verus! {

/// Rank `r` of point `i` in a leaf connects `p` with `c`: one of them is the point, and the
/// other is its neighbour at that rank.
pub open spec fn connects(
    ids: Seq<u32>,
    rows: Seq<Seq<Neighbor>>,
    i: int,
    r: int,
    p: int,
    c: u32,
) -> bool {
    &&& 0 <= i < rows.len()
    &&& 0 <= r < rows[i].len()
    &&& {
        let j = rows[i][r].index as int;
        ids[i] == p && ids[j] == c || ids[j] == p && ids[i] == c
    }
}

/// In the leaf one of the two points is among the nearest of the other.
pub open spec fn linked_in(
    ids: Seq<u32>,
    rows: Seq<Seq<Neighbor>>,
    p: int,
    c: u32,
) -> bool {
    exists|i: int, r: int| #[trigger] connects(ids, rows, i, r, p, c)
}

/// In some leaf one of the two points is among the nearest of the other.
pub open spec fn linked(
    leaves: Seq<LeafInput>,
    params: ForgeANNParams,
    p: int,
    c: u32,
) -> bool {
    exists|l: int|
        0 <= l < leaves.len() && linked_in(
            (#[trigger] leaves[l]).ids@,
            leaves[l].neighbor_rows(params),
            p,
            c,
        )
}

/// The points that some leaf links with `p`.
pub open spec fn partners(leaves: Seq<LeafInput>, params: ForgeANNParams, p: int) -> Set<u32> {
    Set::new(|c: u32| linked(leaves, params, p, c))
}

/// A row with room for `limit` points holds the points: each once and no other, all of
/// them where there is room for all, and as many as there is room for where not.
pub open spec fn holds_as_many(row: Seq<u32>, points: Set<u32>, limit: int) -> bool {
    &&& points.finite()
    &&& row.no_duplicates()
    &&& forall|k: int| 0 <= k < row.len() ==> points.contains(#[trigger] row[k])
    &&& points.len() <= limit ==> row.len() == points.len()
    &&& points.len() > limit ==> row.len() == limit
    &&& points.len() <= limit ==> forall|c: u32| #[trigger]
        points.contains(c) ==> row.contains(c)
}

/// The candidates that edges bring to a point.
pub open spec fn candidates_for(edges: Seq<PendingEdge>, p: int) -> Set<u32> {
    Set::new(
        |c: u32|
            exists|e: int|
                0 <= e < edges.len() && (#[trigger] edges[e]).p == p && edges[e].c == c,
    )
}

/// The targets of slots.
pub open spec fn targets(slots: Seq<Slot>) -> Seq<u32> {
    slots.map_values(|slot: Slot| slot.target)
}

proof fn lemma_put_in_targets(rest: Seq<Slot>, fresh: Slot, after: Seq<Slot>)
    requires
        put_in(rest, fresh, after),
    ensures
        after.len() == rest.len() + 1,
        forall|t: u32|
            #![trigger targets(after).contains(t)]
            #![trigger targets(rest).contains(t)]
            targets(after).contains(t) <==> targets(rest).contains(t) || t == fresh.target,
{
    let p = choose|p: int| 0 <= p <= rest.len() && after == #[trigger] rest.insert(p, fresh);
    assert forall|t: u32|
        #![trigger targets(after).contains(t)]
        #![trigger targets(rest).contains(t)]
        targets(after).contains(t) <==> targets(rest).contains(t) || t == fresh.target by {
        if targets(after).contains(t) {
            let k = choose|k: int| 0 <= k < targets(after).len() && targets(after)[k] == t;
            if k < p {
                assert(targets(rest)[k] == t);
            } else if k > p {
                assert(targets(rest)[k - 1] == t);
            }
        }
        if targets(rest).contains(t) {
            let k = choose|k: int| 0 <= k < targets(rest).len() && targets(rest)[k] == t;
            assert(targets(after)[if k < p {
                k
            } else {
                k + 1
            }] == t);
        }
        assert(targets(after)[p] == fresh.target);
    }
}

proof fn lemma_rest_targets(slots: Seq<Slot>, i: int)
    requires
        0 <= i < slots.len(),
    ensures
        forall|t: u32| #[trigger]
            targets(slots.remove(i)).contains(t) ==> targets(slots).contains(t),
        forall|t: u32| #[trigger]
            targets(slots).contains(t) ==> targets(slots.remove(i)).contains(t) || t
                == slots[i].target,
{
    let rest = slots.remove(i);
    assert forall|t: u32| #[trigger] targets(rest).contains(t) implies targets(slots).contains(
        t,
    ) by {
        let k = choose|k: int| 0 <= k < targets(rest).len() && targets(rest)[k] == t;
        assert(targets(slots)[if k < i {
            k
        } else {
            k + 1
        }] == t);
    }
    assert forall|t: u32| #[trigger] targets(slots).contains(t) implies targets(rest).contains(t)
        || t == slots[i].target by {
        let k = choose|k: int| 0 <= k < targets(slots).len() && targets(slots)[k] == t;
        if k != i {
            assert(targets(rest)[if k < i {
                k
            } else {
                k - 1
            }] == t);
        }
    }
}

/// What an offer does to the targets of a reservoir.
proof fn lemma_offer_targets(state: ReservoirState, target: u32, hash: u16, dist: F32)
    requires
        state.wf(),
    ensures
        ({
            let after = state.offered(target, hash, dist);
            let held = targets(state.slots);
            let kept = targets(after.slots);
            &&& after.wf()
            &&& after.limit == state.limit
            &&& forall|t: u32| #[trigger] kept.contains(t) ==> held.contains(t) || t == target
            &&& held.contains(target) || held.len() < state.limit ==> kept.contains(target)
            &&& held.contains(target) || held.len() < state.limit ==> forall|t: u32| #[trigger]
                held.contains(t) ==> kept.contains(t)
            &&& kept.len() == held.len() + if held.contains(target) || held.len()
                == state.limit {
                0int
            } else {
                1
            }
        }),
{
    let slots = state.slots;
    let after = state.offered(target, hash, dist).slots;
    let fresh = fresh_slot(target, hash, dist);
    law_offer_keeps_order(state, target, hash, dist);
    law_offer_takes_the_nearer(state, target, hash, dist);
    if targets(slots).contains(target) {
        let k = choose|k: int| 0 <= k < targets(slots).len() && targets(slots)[k] == target;
        assert(slots[k].target == target);
        if nearer(dist, slots[k]) {
            lemma_put_in_targets(slots.remove(k), fresh, after);
            lemma_rest_targets(slots, k);
        }
    } else {
        assert forall|k: int| 0 <= k < slots.len() implies (#[trigger] slots[k]).target
            != target by {
            assert(targets(slots)[k] == slots[k].target);
        }
        if slots.len() < state.limit {
            lemma_put_in_targets(slots, fresh, after);
        } else if after != slots {
            let i = choose|i: int| #[trigger]
                competes(slots, hash, i) && nearer(dist, slots[i]) && put_in(
                    slots.remove(i),
                    fresh,
                    after,
                );
            lemma_put_in_targets(slots.remove(i), fresh, after);
            lemma_rest_targets(slots, i);
        }
    }
}

proof fn lemma_targets_distinct(state: ReservoirState)
    requires
        state.wf(),
    ensures
        targets(state.slots).no_duplicates(),
{
    let held = targets(state.slots);
    assert forall|i: int, j: int| 0 <= i < j < held.len() implies held[i] != held[j] by {
        assert(held[i] == state.slots[i].target && held[j] == state.slots[j].target);
    }
}

proof fn lemma_candidates_step(edges: Seq<PendingEdge>, p: int)
    requires
        edges.len() > 0,
    ensures
        candidates_for(edges, p) == if edges.last().p == p {
            candidates_for(edges.drop_last(), p).insert(edges.last().c)
        } else {
            candidates_for(edges.drop_last(), p)
        },
{
    let fewer = edges.drop_last();
    let n = fewer.len() as int;
    assert forall|c: u32| #[trigger] candidates_for(edges, p).contains(c) implies candidates_for(
        fewer,
        p,
    ).contains(c) || (edges.last().p == p && edges.last().c == c) by {
        let e = choose|e: int|
            0 <= e < edges.len() && (#[trigger] edges[e]).p == p && edges[e].c == c;
        if e < n {
            assert(fewer[e] == edges[e]);
        }
    }
    assert forall|c: u32| #[trigger] candidates_for(fewer, p).contains(c) implies candidates_for(
        edges,
        p,
    ).contains(c) by {
        let e = choose|e: int|
            0 <= e < fewer.len() && (#[trigger] fewer[e]).p == p && fewer[e].c == c;
        assert(edges[e] == fewer[e]);
    }
    assert(edges[n] == edges.last());
    assert(candidates_for(edges, p) =~= if edges.last().p == p {
        candidates_for(fewer, p).insert(edges.last().c)
    } else {
        candidates_for(fewer, p)
    });
}

/// A reservoir that edges are offered to holds its own targets and their candidates: all of
/// them where there is room for all, and as many as there is room for where not.
pub proof fn law_reservoir_holds_what_it_was_offered(
    state: ReservoirState,
    edges: Seq<PendingEdge>,
    p: int,
)
    requires
        state.wf(),
    ensures
        fed(state, edges, p).wf(),
        fed(state, edges, p).limit == state.limit,
        holds_as_many(
            targets(fed(state, edges, p).slots),
            targets(state.slots).to_set().union(candidates_for(edges, p)),
            state.limit as int,
        ),
    decreases edges.len(),
{
    let own = targets(state.slots).to_set();
    let all = own.union(candidates_for(edges, p));
    vstd::seq_lib::seq_to_set_is_finite(targets(state.slots));
    if edges.len() == 0 {
        lemma_targets_distinct(state);
        assert(all =~= own);
        targets(state.slots).unique_seq_to_set();
        assert forall|c: u32| #[trigger] all.contains(c) implies targets(state.slots).contains(
            c,
        ) by {}
    } else {
        let fewer = edges.drop_last();
        let edge = edges.last();
        let before = fed(state, fewer, p);
        let some = own.union(candidates_for(fewer, p));
        law_reservoir_holds_what_it_was_offered(state, fewer, p);
        lemma_candidates_step(edges, p);
        if edge.p == p {
            assert(all =~= some.insert(edge.c));
            let after = before.offered(edge.c, edge.hash, edge.dist);
            let held = targets(before.slots);
            let kept = targets(after.slots);
            lemma_offer_targets(before, edge.c, edge.hash, edge.dist);
            lemma_targets_distinct(before);
            lemma_targets_distinct(after);
            assert forall|k: int| 0 <= k < kept.len() implies all.contains(#[trigger] kept[k]) by {
                assert(kept.contains(kept[k]));
                if kept[k] != edge.c {
                    let h = choose|h: int| 0 <= h < held.len() && held[h] == kept[k];
                    assert(some.contains(held[h]));
                }
            }
            if some.len() <= state.limit {
                if some.contains(edge.c) {
                    assert(some.insert(edge.c) =~= some);
                    assert(held.contains(edge.c));
                } else {
                    assert(!held.contains(edge.c)) by {
                        if held.contains(edge.c) {
                            let h = choose|h: int| 0 <= h < held.len() && held[h] == edge.c;
                            assert(some.contains(held[h]));
                        }
                    }
                }
                if all.len() <= state.limit {
                    assert forall|c: u32| #[trigger] all.contains(c) implies kept.contains(c) by {
                        if c != edge.c {
                            assert(some.contains(c));
                            assert(held.contains(c));
                        }
                    }
                }
            }
        } else {
            assert(all =~= some);
        }
    }
}

/// The edges of a row are those of its ranks, both ways.
proof fn lemma_row_pairs(points: LeafPoints, i: int, row: Seq<Neighbor>, n: int)
    requires
        0 <= n <= row.len(),
    ensures
        points.row_edges(i, row, n).len() == 2 * n,
        forall|r: int|
            #![trigger row[r]]
            0 <= r < n ==> points.row_edges(i, row, n)[2 * r] == points.edge_pair(i, r, row[r])[0]
                && points.row_edges(i, row, n)[2 * r + 1] == points.edge_pair(i, r, row[r])[1],
    decreases n,
{
    if n > 0 {
        lemma_row_pairs(points, i, row, n - 1);
        let before = points.row_edges(i, row, n - 1);
        let all = points.row_edges(i, row, n);
        assert forall|r: int|
            #![trigger row[r]]
            0 <= r < n implies all[2 * r] == points.edge_pair(i, r, row[r])[0] && all[2 * r + 1]
            == points.edge_pair(i, r, row[r])[1] by {
            if r < n - 1 {
                assert(all[2 * r] == before[2 * r]);
                assert(all[2 * r + 1] == before[2 * r + 1]);
            }
        }
    }
}

/// `edges` bring `c` to `p` exactly where one of the first `n` rows of the leaf connects
/// the two.
proof fn lemma_leaf_candidates(points: LeafPoints, rows: Seq<Seq<Neighbor>>, n: int, p: int)
    requires
        0 <= n <= rows.len(),
        points.knows(rows),
        rows.len() <= points.ids.len(),
    ensures
        forall|c: u32| #[trigger]
            candidates_for(points.edges(rows, 0, n), p).contains(c) <==> linked_in(
                points.ids,
                rows.take(n),
                p,
                c,
            ),
    decreases n,
{
    let few = rows.take(n);
    let all = points.edges(rows, 0, n);
    if n > 0 {
        lemma_leaf_candidates(points, rows, n - 1, p);
        let fewer = rows.take(n - 1);
        let before = points.edges(rows, 0, n - 1);
        let row = rows[n - 1];
        let own = points.row_edges(n - 1, row, row.len() as int);
        lemma_row_pairs(points, n - 1, row, row.len() as int);
        assert(all == before + own);
        assert forall|c: u32| #[trigger] candidates_for(all, p).contains(c) implies linked_in(
            points.ids,
            few,
            p,
            c,
        ) by {
            let e = choose|e: int| 0 <= e < all.len() && (#[trigger] all[e]).p == p && all[e].c == c;
            if e < before.len() {
                assert(before[e] == all[e]);
                assert(candidates_for(before, p).contains(c));
                let (i, r) = choose|i: int, r: int| #[trigger]
                    connects(points.ids, fewer, i, r, p, c);
                assert(few[i] == fewer[i]);
                assert(connects(points.ids, few, i, r, p, c));
            } else {
                let k = e - before.len();
                assert(own[k] == all[e]);
                let r = k / 2;
                assert(0 <= r < row.len());
                let neighbor = row[r];
                assert(k == 2 * r || k == 2 * r + 1);
                assert(rows[n - 1][r].index < points.ids.len());
                assert(few[n - 1] == row);
                assert(connects(points.ids, few, n - 1, r, p, c));
            }
        }
        assert forall|c: u32| linked_in(points.ids, few, p, c) implies #[trigger] candidates_for(
            all,
            p,
        ).contains(c) by {
            let (i, r) = choose|i: int, r: int| #[trigger] connects(points.ids, few, i, r, p, c);
            if i < n - 1 {
                assert(few[i] == fewer[i]);
                assert(connects(points.ids, fewer, i, r, p, c));
                assert(candidates_for(before, p).contains(c));
                let e = choose|e: int|
                    0 <= e < before.len() && (#[trigger] before[e]).p == p && before[e].c == c;
                assert(all[e] == before[e]);
            } else {
                assert(few[n - 1] == row);
                let neighbor = row[r];
                assert(rows[n - 1][r].index < points.ids.len());
                let j = neighbor.index as int;
                assert(all[before.len() + 2 * r] == own[2 * r]);
                assert(all[before.len() + 2 * r + 1] == own[2 * r + 1]);
                if points.ids[i] == p && points.ids[j] == c {
                    let e = before.len() + 2 * r;
                    assert(all[e].p == p && all[e].c == c);
                } else {
                    let e = before.len() + 2 * r + 1;
                    assert(all[e].p == p && all[e].c == c);
                }
            }
        }
    } else {
        assert forall|c: u32| linked_in(points.ids, few, p, c) implies false by {
            let (i, r) = choose|i: int, r: int| #[trigger] connects(points.ids, few, i, r, p, c);
        }
    }
}

/// The rows of a leaf that fits: one for each point, and every neighbour is one of them.
proof fn lemma_leaf_known(leaf: &LeafInput, params: ForgeANNParams, points: int)
    requires
        leaf.fits(params, points),
    ensures
        leaf.neighbor_rows(params).len() == leaf.ids@.len(),
        leaf.points(params).knows(leaf.neighbor_rows(params)),
{
    match leaf.found {
        LeafNeighbors::Matrix(dists) => {
            let n = leaf.ids@.len() as int;
            assert(leaf.ids.len() == leaf.ids@.len());
            let k = leaf_neighbors(params.leaf_knn as int, n);
            lemma_nearest_rows_known(dists@, n, 0, n, k);
            let rows = leaf.neighbor_rows(params);
            assert forall|i: int, r: int|
                0 <= i < rows.len() && 0 <= r < rows[i].len() implies (
            #[trigger] rows[i][r]).index < leaf.ids@.len() by {}
        },
        LeafNeighbors::Rows(rows) => {},
    }
}

proof fn lemma_candidates_add(a: Seq<PendingEdge>, b: Seq<PendingEdge>, p: int)
    ensures
        candidates_for(a + b, p) == candidates_for(a, p).union(candidates_for(b, p)),
    decreases b.len(),
{
    if b.len() == 0 {
        assert(a + b =~= a);
        assert(candidates_for(a + b, p) =~= candidates_for(a, p).union(candidates_for(b, p)));
    } else {
        lemma_candidates_add(a, b.drop_last(), p);
        assert((a + b).drop_last() =~= a + b.drop_last());
        lemma_candidates_step(a + b, p);
        lemma_candidates_step(b, p);
        assert(candidates_for(a + b, p) =~= candidates_for(a, p).union(candidates_for(b, p)));
    }
}

/// The edges of the leaves bring to a point the points that some leaf links with it.
proof fn lemma_all_candidates(
    leaves: Seq<LeafInput>,
    params: ForgeANNParams,
    points: int,
    n: int,
    p: int,
)
    requires
        all_fit(leaves, params, points),
        0 <= n <= leaves.len(),
    ensures
        forall|c: u32| #[trigger]
            candidates_for(edges_of(leaves, params, n), p).contains(c) <==> linked(
                leaves.take(n),
                params,
                p,
                c,
            ),
    decreases n,
{
    let few = leaves.take(n);
    if n > 0 {
        lemma_all_candidates(leaves, params, points, n - 1, p);
        let fewer = leaves.take(n - 1);
        let leaf = leaves[n - 1];
        assert(leaf.fits(params, points));
        let rows = leaf.neighbor_rows(params);
        lemma_leaf_known(&leaf, params, points);
        lemma_leaf_candidates(leaf.points(params), rows, leaf.ids@.len() as int, p);
        assert(rows.take(leaf.ids@.len() as int) =~= rows);
        lemma_candidates_add(edges_of(leaves, params, n - 1), leaf.edges(params), p);
        assert forall|c: u32| #[trigger]
            candidates_for(edges_of(leaves, params, n), p).contains(c) <==> linked(
                few,
                params,
                p,
                c,
            ) by {
            if candidates_for(edges_of(leaves, params, n), p).contains(c) {
                if candidates_for(edges_of(leaves, params, n - 1), p).contains(c) {
                    let l = choose|l: int|
                        0 <= l < fewer.len() && linked_in(
                            (#[trigger] fewer[l]).ids@,
                            fewer[l].neighbor_rows(params),
                            p,
                            c,
                        );
                    assert(few[l] == fewer[l]);
                } else {
                    assert(candidates_for(leaf.edges(params), p).contains(c));
                    assert(few[n - 1] == leaf);
                }
            }
            if linked(few, params, p, c) {
                let l = choose|l: int|
                    0 <= l < few.len() && linked_in(
                        (#[trigger] few[l]).ids@,
                        few[l].neighbor_rows(params),
                        p,
                        c,
                    );
                if l < n - 1 {
                    assert(few[l] == fewer[l]);
                    assert(linked(fewer, params, p, c));
                    assert(candidates_for(edges_of(leaves, params, n - 1), p).contains(c));
                } else {
                    assert(few[n - 1] == leaf);
                    assert(candidates_for(leaf.edges(params), p).contains(c));
                }
            }
        }
    } else {
        assert forall|c: u32| #[trigger]
            candidates_for(edges_of(leaves, params, n), p).contains(c) <==> linked(
                few,
                params,
                p,
                c,
            ) by {}
    }
}

/// A row that edges come to holds their candidates for its point.
pub proof fn law_rows_hold_their_candidates(edges: Seq<PendingEdge>, l_max: int, p: int)
    requires
        l_max > 0,
    ensures
        holds_as_many(neighbors_of(edges, l_max, p), candidates_for(edges, p), l_max),
{
    let empty = empty_reservoir(l_max);
    law_reservoir_holds_what_it_was_offered(empty, edges, p);
    assert(targets(empty.slots) =~= Seq::<u32>::empty());
    assert(targets(empty.slots).to_set().union(candidates_for(edges, p)) =~= candidates_for(
        edges,
        p,
    ));
    assert(neighbors_of(edges, l_max, p) =~= targets(fed(empty, edges, p).slots));
}

/// A row of the graph holds the points that some leaf links with its point, in either
/// direction: no other point and none twice, all of them where there are no more than the
/// reservoir has slots, and as many as it has slots where there are more.
pub proof fn law_rows_hold_the_linked_points(
    leaves: Seq<LeafInput>,
    params: ForgeANNParams,
    graph: Seq<Vec<u32>>,
    p: int,
)
    requires
        params.l_max > 0,
        all_fit(leaves, params, graph.len() as int),
        graph_rows(
            graph,
            edges_of(leaves, params, leaves.len() as int),
            params.l_max as int,
            0,
        ),
        0 <= p < graph.len(),
    ensures
        holds_as_many(graph[p]@, partners(leaves, params, p), params.l_max as int),
{
    let edges = edges_of(leaves, params, leaves.len() as int);
    law_rows_hold_their_candidates(edges, params.l_max as int, p);
    lemma_all_candidates(leaves, params, graph.len() as int, leaves.len() as int, p);
    assert(leaves.take(leaves.len() as int) =~= leaves);
    assert(candidates_for(edges, p) =~= partners(leaves, params, p));
    assert(graph[p]@ == neighbors_of(edges, params.l_max as int, 0 + p));
}

/// Every row of the graph holds the points that some leaf links with its point.
pub open spec fn rows_hold_links(
    graph: Seq<Vec<u32>>,
    leaves: Seq<LeafInput>,
    params: ForgeANNParams,
) -> bool {
    forall|p: int|
        0 <= p < graph.len() ==> holds_as_many(
            (#[trigger] graph[p])@,
            partners(leaves, params, p),
            params.l_max as int,
        )
}

/// Row `i` holds the candidates that the edges bring to point `first + i`.
pub open spec fn rows_hold_candidates(
    graph: Seq<Vec<u32>>,
    edges: Seq<PendingEdge>,
    l_max: int,
    first: int,
) -> bool {
    forall|i: int|
        0 <= i < graph.len() ==> holds_as_many(
            (#[trigger] graph[i])@,
            candidates_for(edges, first + i),
            l_max,
        )
}

pub(crate) proof fn lemma_rows_hold_candidates(
    graph: Seq<Vec<u32>>,
    edges: Seq<PendingEdge>,
    l_max: int,
    first: int,
)
    requires
        l_max > 0,
        graph_rows(graph, edges, l_max, first),
    ensures
        rows_hold_candidates(graph, edges, l_max, first),
{
    assert forall|i: int| 0 <= i < graph.len() implies holds_as_many(
        (#[trigger] graph[i])@,
        candidates_for(edges, first + i),
        l_max,
    ) by {
        law_rows_hold_their_candidates(edges, l_max, first + i);
    }
}

pub(crate) proof fn lemma_rows_hold_links(
    graph: Seq<Vec<u32>>,
    leaves: Seq<LeafInput>,
    params: ForgeANNParams,
)
    requires
        params.l_max > 0,
        all_fit(leaves, params, graph.len() as int),
        graph_rows(
            graph,
            edges_of(leaves, params, leaves.len() as int),
            params.l_max as int,
            0,
        ),
    ensures
        rows_hold_links(graph, leaves, params),
{
    assert forall|p: int| 0 <= p < graph.len() implies holds_as_many(
        (#[trigger] graph[p])@,
        partners(leaves, params, p),
        params.l_max as int,
    ) by {
        law_rows_hold_the_linked_points(leaves, params, graph, p);
    }
}

/// Where `j` is among the nearest points of `i` in some leaf, the edge goes both ways: the
/// row of each of the two holds the other, where no more points are linked with it than the
/// reservoir has slots.
pub proof fn law_neighbors_are_mutual(
    leaves: Seq<LeafInput>,
    params: ForgeANNParams,
    graph: Seq<Vec<u32>>,
    l: int,
    i: int,
    r: int,
)
    requires
        params.l_max > 0,
        all_fit(leaves, params, graph.len() as int),
        graph_rows(
            graph,
            edges_of(leaves, params, leaves.len() as int),
            params.l_max as int,
            0,
        ),
        0 <= l < leaves.len(),
        0 <= i < leaves[l].neighbor_rows(params).len(),
        0 <= r < leaves[l].neighbor_rows(params)[i].len(),
    ensures
        ({
            let from = leaves[l].ids@[i];
            let to = leaves[l].ids@[leaves[l].neighbor_rows(params)[i][r].index as int];
            &&& from < graph.len() && to < graph.len()
            &&& partners(leaves, params, from as int).len() <= params.l_max
                ==> graph[from as int]@.contains(to)
            &&& partners(leaves, params, to as int).len() <= params.l_max
                ==> graph[to as int]@.contains(from)
        }),
{
    let leaf = leaves[l];
    let rows = leaf.neighbor_rows(params);
    assert(leaf.fits(params, graph.len() as int));
    lemma_leaf_known(&leaf, params, graph.len() as int);
    let j = rows[i][r].index as int;
    let from = leaf.ids@[i];
    let to = leaf.ids@[j];
    assert(connects(leaf.ids@, rows, i, r, from as int, to));
    assert(connects(leaf.ids@, rows, i, r, to as int, from));
    assert(linked(leaves, params, from as int, to));
    assert(linked(leaves, params, to as int, from));
    law_rows_hold_the_linked_points(leaves, params, graph, from as int);
    law_rows_hold_the_linked_points(leaves, params, graph, to as int);
    assert(partners(leaves, params, from as int).contains(to));
    assert(partners(leaves, params, to as int).contains(from));
}

/// An edge of a leaf, with the hash of its direction: bit by bit, where the sketch of the
/// point that it goes to does not fall below that of the point that it comes from.
pub open spec fn goes(
    edge: PendingEdge,
    points: LeafPoints,
    from: int,
    to: int,
    dist: F32,
) -> bool {
    &&& edge.p == points.ids[from]
    &&& edge.c == points.ids[to]
    &&& edge.dist == dist
    &&& !edge.mandatory
    &&& forall|b: int|
        0 <= b < points.bits ==> #[trigger] bit_set(edge.hash as int, b) == does_not_fall(
            row_of(points.sketches, points.width, from)[b],
            row_of(points.sketches, points.width, to)[b],
        )
}

/// Every rank of a point brings two edges, one after the other: to the neighbour and back,
/// with one distance, each hashed in its own direction. They carry the rank, from one on,
/// and are told apart by their flags.
pub proof fn law_ranks_bring_edges_both_ways(
    points: LeafPoints,
    i: int,
    row: Seq<Neighbor>,
    r: int,
)
    requires
        0 <= r < row.len(),
        0 <= points.bits <= 16,
    ensures
        points.row_edges(i, row, row.len() as int).len() == 2 * row.len(),
        goes(
            points.row_edges(i, row, row.len() as int)[2 * r],
            points,
            i,
            row[r].index as int,
            row[r].dist,
        ),
        goes(
            points.row_edges(i, row, row.len() as int)[2 * r + 1],
            points,
            row[r].index as int,
            i,
            row[r].dist,
        ),
        points.row_edges(i, row, row.len() as int)[2 * r].flags == 1,
        points.row_edges(i, row, row.len() as int)[2 * r + 1].flags == 2,
        r < 255 ==> points.row_edges(i, row, row.len() as int)[2 * r].local_rank == r + 1
            && points.row_edges(i, row, row.len() as int)[2 * r + 1].local_rank == r + 1,
{
    lemma_row_pairs(points, i, row, row.len() as int);
    let j = row[r].index as int;
    let a = row_of(points.sketches, points.width, i);
    let b = row_of(points.sketches, points.width, j);
    law_hash_bits_tell_the_direction(a, b, points.bits);
    law_hash_bits_tell_the_direction(b, a, points.bits);
    vstd::arithmetic::power2::lemma2_to64();
    if points.bits < 16 {
        vstd::arithmetic::power2::lemma_pow2_strictly_increases(points.bits as nat, 16);
    }
}

/// In a leaf with a matrix of distances each point's neighbours are the nearest of the other
/// points by its row of the matrix: as many as are asked for, or all of them.
pub proof fn law_matrix_leaves_link_the_nearest(
    leaf: LeafInput,
    params: ForgeANNParams,
    points: int,
    dists: Seq<F32>,
    i: int,
)
    requires
        leaf.fits(params, points),
        leaf.found matches LeafNeighbors::Matrix(matrix) && matrix@ == dists,
        0 <= i < leaf.ids@.len(),
        params.leaf_knn > 0,
        forall|j: int|
            0 <= j < leaf.ids@.len() && j != i ==> !unordered(
                #[trigger] row_of(dists, leaf.ids@.len() as int, i)[j],
            ),
    ensures
        leaf.ids@.len() > 1 ==> nearest_in_leaf(
            row_of(dists, leaf.ids@.len() as int, i),
            i,
            params.leaf_knn as int,
            leaf.neighbor_rows(params)[i],
        ),
        leaf.ids@.len() == 1 ==> leaf.neighbor_rows(params)[i].len() == 0,
{
    let n = leaf.ids@.len() as int;
    let row = row_of(dists, n, i);
    assert(leaf.ids.len() == leaf.ids@.len());
    lemma_row_bounds(i, n, n);
    assert(row.len() == n);
    if n > 1 {
        let k = leaf_neighbors(params.leaf_knn as int, n);
        law_leaf_row_holds_the_nearest(row, i, k);
        assert(leaf.neighbor_rows(params)[i] == nearest_row(row, i, k));
    } else {
        assert(leaf.neighbor_rows(params)[i] == nearest_row(row, i, 0));
    }
}

/// A slot is that of an edge to the point: its candidate, its hash and the upper half of its
/// distance.
pub open spec fn comes_from(slot: Slot, edges: Seq<PendingEdge>, p: int) -> bool {
    exists|e: int|
        0 <= e < edges.len() && (#[trigger] edges[e]).p == p && slot == fresh_slot(
            edges[e].c,
            edges[e].hash,
            edges[e].dist,
        )
}

proof fn lemma_slots_come_from_edges(edges: Seq<PendingEdge>, l_max: int, p: int)
    requires
        l_max > 0,
    ensures
        ({
            let state = fed(empty_reservoir(l_max), edges, p);
            &&& state.wf()
            &&& forall|i: int|
                0 <= i < state.slots.len() ==> comes_from(#[trigger] state.slots[i], edges, p)
        }),
    decreases edges.len(),
{
    if edges.len() > 0 {
        let fewer = edges.drop_last();
        let edge = edges.last();
        lemma_slots_come_from_edges(fewer, l_max, p);
        let before = fed(empty_reservoir(l_max), fewer, p);
        let after = fed(empty_reservoir(l_max), edges, p);
        let n = fewer.len() as int;
        assert(edges[n] == edge);
        if edge.p == p {
            law_offer_keeps_order(before, edge.c, edge.hash, edge.dist);
            law_offer_brings_its_candidate_alone(before, edge.c, edge.hash, edge.dist);
        }
        assert forall|i: int| 0 <= i < after.slots.len() implies comes_from(
            #[trigger] after.slots[i],
            edges,
            p,
        ) by {
            let slot = after.slots[i];
            if edge.p == p && slot == fresh_slot(edge.c, edge.hash, edge.dist) {
                assert(edges[n].p == p);
            } else {
                let k = if edge.p == p {
                    choose|k: int| 0 <= k < before.slots.len() && before.slots[k] == slot
                } else {
                    i
                };
                assert(comes_from(before.slots[k], fewer, p));
                let e = choose|e: int|
                    0 <= e < fewer.len() && (#[trigger] fewer[e]).p == p && slot == fresh_slot(
                        fewer[e].c,
                        fewer[e].hash,
                        fewer[e].dist,
                    );
                assert(edges[e] == fewer[e]);
            }
        }
    }
}

/// The points of a row stand in the order of the hashes under which they are kept, and each
/// is kept as one of the edges to the row's point has brought it.
pub proof fn law_rows_stand_in_the_order_of_their_hashes(
    edges: Seq<PendingEdge>,
    l_max: int,
    p: int,
)
    requires
        l_max > 0,
    ensures
        ({
            let row = neighbors_of(edges, l_max, p);
            exists|slots: Seq<Slot>|
                {
                    &&& #[trigger] slots.len() == row.len()
                    &&& forall|i: int|
                        0 <= i < row.len() ==> #[trigger] row[i] == slots[i].target && comes_from(
                            slots[i],
                            edges,
                            p,
                        )
                    &&& forall|i: int, j: int|
                        0 <= i < j < slots.len() ==> (#[trigger] slots[i]).hash <= (
                        #[trigger] slots[j]).hash
                }
        }),
{
    lemma_slots_come_from_edges(edges, l_max, p);
    let slots = fed(empty_reservoir(l_max), edges, p).slots;
    let row = neighbors_of(edges, l_max, p);
    assert(slots.len() == row.len());
    assert forall|i: int| 0 <= i < row.len() implies #[trigger] row[i] == slots[i].target
        && comes_from(slots[i], edges, p) by {}
}

} // verus!
