//! Edges of a leaf: every point is connected with its nearest points of the leaf.

use vstd::prelude::*;

use crate::arith::{greatest, least};
use crate::float_bits::F32;
use crate::float_value::unordered;
use crate::graph_laws::{
    candidates_for, holds_as_many, law_reservoir_holds_what_it_was_offered, targets,
};
use crate::hash_prune::{HashPruneReservoir, ReservoirState};
use crate::rows::{lemma_row_bounds, row_of};
use crate::selection_laws::{law_leaf_row_holds_the_nearest, nearest_in_leaf};
use crate::sketch::{compute_hash, direction_hash};
use crate::topk::{scanned, Neighbor, RowTopK, MAX_ROW_TOPK};

verus! {

/// The edge goes from a point to one of its nearest points.
pub const PENDING_EDGE_DIRECT: u8 = 1;

/// The edge goes back from one of the nearest points.
pub const PENDING_EDGE_MIRROR: u8 = 2;

/// Rows of a leaf whose distances are computed together.
pub const BLOCK_SIZE: usize = 1024;

/// The least leaf that is worked on by adaptive sampling.
pub const LEAF_ADSAMPLING_MIN_SIZE: usize = 640;

/// An edge on its way to the reservoir of its point.
#[derive(Clone, Copy, Debug, PartialEq, Eq, Structural)]
pub struct PendingEdge {
    pub p: usize,
    pub c: u32,
    pub hash: u16,
    pub dist: F32,
    pub mandatory: bool,
    pub local_rank: u8,
    pub flags: u8,
}

/// The rank that an edge carries, from 1 on.
pub open spec fn rank_mark(rank: int) -> u8 {
    least(rank + 1, 255) as u8
}

pub(crate) fn rank_byte(rank: usize) -> (mark: u8)
    ensures
        mark == rank_mark(rank as int),
{
    if rank < 254 {
        (rank + 1) as u8
    } else {
        255
    }
}

/// The points of a leaf with their sketches.
pub struct LeafPoints {
    /// The ids.
    pub ids: Seq<u32>,
    /// One sketch row per id.
    pub sketches: Seq<F32>,
    pub width: int,
    /// Bits of a hash.
    pub bits: int,
}

impl LeafPoints {
    pub open spec fn hash(self, from: int, to: int) -> u16 {
        direction_hash(
            row_of(self.sketches, self.width, from),
            row_of(self.sketches, self.width, to),
            self.bits,
        ) as u16
    }

    /// The edge from point `i` to its neighbour, and the one back.
    pub open spec fn edge_pair(self, i: int, rank: int, neighbor: Neighbor) -> Seq<PendingEdge> {
        let j = neighbor.index as int;
        seq![
            PendingEdge {
                p: self.ids[i] as usize,
                c: self.ids[j],
                hash: self.hash(i, j),
                dist: neighbor.dist,
                mandatory: false,
                local_rank: rank_mark(rank),
                flags: PENDING_EDGE_DIRECT,
            },
            PendingEdge {
                p: self.ids[j] as usize,
                c: self.ids[i],
                hash: self.hash(j, i),
                dist: neighbor.dist,
                mandatory: false,
                local_rank: rank_mark(rank),
                flags: PENDING_EDGE_MIRROR,
            },
        ]
    }

    /// The edges of point `i` with its first `n` neighbours.
    pub open spec fn row_edges(self, i: int, row: Seq<Neighbor>, n: int) -> Seq<PendingEdge>
        decreases n,
    {
        if n <= 0 {
            Seq::<PendingEdge>::empty()
        } else {
            self.row_edges(i, row, n - 1) + self.edge_pair(i, n - 1, row[n - 1])
        }
    }

    /// The edges of the points from `first` on, of which there are `n`; `rows` holds
    /// their neighbours.
    pub open spec fn edges(self, rows: Seq<Seq<Neighbor>>, first: int, n: int) -> Seq<PendingEdge>
        decreases n,
    {
        if n <= 0 {
            Seq::<PendingEdge>::empty()
        } else {
            self.edges(rows, first, n - 1) + self.row_edges(
                first + n - 1,
                rows[n - 1],
                rows[n - 1].len() as int,
            )
        }
    }

    /// Every neighbour is a point of the leaf.
    pub open spec fn knows(self, rows: Seq<Seq<Neighbor>>) -> bool {
        forall|i: int, r: int|
            0 <= i < rows.len() && 0 <= r < rows[i].len() ==> (#[trigger] rows[i][r]).index
                < self.ids.len()
    }
}

/// What the rows hold.
pub open spec fn row_views(rows: Seq<RowTopK>) -> Seq<Seq<Neighbor>> {
    Seq::new(rows.len(), |i: int| rows[i]@)
}

/// The sketches of a leaf's points.
#[derive(Debug)]
pub struct LeafSketchCache {
    pub data: Vec<F32>,
    pub width: usize,
}

impl LeafSketchCache {
    pub open spec fn points(&self, leaf: Seq<u32>, bits: int) -> LeafPoints {
        LeafPoints { ids: leaf, sketches: self.data@, width: self.width as int, bits }
    }

    /// There is a row for each of `n` points, wide enough for the bits of a hash.
    pub open spec fn fits(&self, n: int, bits: int) -> bool {
        bits <= 16 && bits <= self.width && self.data@.len() == n * self.width
    }

    /// The sketch of the point at `local_idx`.
    pub fn row(&self, local_idx: usize) -> (row: &[F32])
        requires
            local_idx * self.width + self.width <= self.data@.len(),
        ensures
            row@ == row_of(self.data@, self.width as int, local_idx as int),
    {
        assert(self.data.len() == self.data@.len());
        proof {
            assert(0 <= local_idx * self.width) by (nonlinear_arith);
        }
        let start: usize = local_idx * self.width;
        vstd::slice::slice_subrange(self.data.as_slice(), start, start + self.width)
    }
}

/// The edges of the points from `first` on with the neighbours in `rows`.
pub fn emit_row_topk_edges(
    rows: &Vec<RowTopK>,
    first: usize,
    sketches: &LeafSketchCache,
    leaf: &[u32],
    m_hash_bits: usize,
) -> (edges: Vec<PendingEdge>)
    requires
        first + rows@.len() <= leaf@.len(),
        sketches.fits(leaf@.len() as int, m_hash_bits as int),
        sketches.points(leaf@, m_hash_bits as int).knows(row_views(rows@)),
    ensures
        edges@ == sketches.points(leaf@, m_hash_bits as int).edges(
            row_views(rows@),
            first as int,
            rows@.len() as int,
        ),
{
    let ghost points = sketches.points(leaf@, m_hash_bits as int);
    let mut edges: Vec<PendingEdge> = Vec::new();
    let total: usize = leaf.len();
    for i in 0..rows.len()
        invariant
            total == leaf@.len(),
            first + rows@.len() <= leaf@.len(),
            sketches.fits(leaf@.len() as int, m_hash_bits as int),
            points == sketches.points(leaf@, m_hash_bits as int),
            points.knows(row_views(rows@)),
            edges@ == points.edges(row_views(rows@), first as int, i as int),
    {
        let at: usize = first + i;
        let row: &[Neighbor] = rows[i].as_slice();
        let ghost before = edges@;
        proof {
            lemma_row_bounds(at as int, leaf@.len() as int, sketches.width as int);
        }
        for r in 0..row.len()
            invariant
                at == first + i,
                i < rows@.len(),
                total == leaf@.len(),
                first + rows@.len() <= leaf@.len(),
                row@ == rows@[i as int]@,
                sketches.fits(leaf@.len() as int, m_hash_bits as int),
                at * sketches.width + sketches.width <= sketches.data@.len(),
                points == sketches.points(leaf@, m_hash_bits as int),
                points.knows(row_views(rows@)),
                edges@ == before + points.row_edges(at as int, row@, r as int),
        {
            let neighbor: Neighbor = row[r];
            proof {
                assert(row_views(rows@)[i as int][r as int].index < leaf@.len());
                lemma_row_bounds(
                    neighbor.index as int,
                    leaf@.len() as int,
                    sketches.width as int,
                );
            }
            let sketch_i: &[F32] = sketches.row(at);
            let sketch_j: &[F32] = sketches.row(neighbor.index);
            let hash_ij: u16 = compute_hash(sketch_i, sketch_j, m_hash_bits);
            let hash_ji: u16 = compute_hash(sketch_j, sketch_i, m_hash_bits);
            let local_rank: u8 = rank_byte(r);
            edges.push(
                PendingEdge {
                    p: leaf[at] as usize,
                    c: leaf[neighbor.index],
                    hash: hash_ij,
                    dist: neighbor.dist,
                    mandatory: false,
                    local_rank,
                    flags: PENDING_EDGE_DIRECT,
                },
            );
            edges.push(
                PendingEdge {
                    p: leaf[neighbor.index] as usize,
                    c: leaf[at],
                    hash: hash_ji,
                    dist: neighbor.dist,
                    mandatory: false,
                    local_rank,
                    flags: PENDING_EDGE_MIRROR,
                },
            );
            proof {
                assert(edges@ =~= before + points.row_edges(at as int, row@, r as int + 1));
            }
        }
    }
    edges
}

/// What a reservoir holds after the edges of its point were offered in order.
pub open spec fn fed(state: ReservoirState, edges: Seq<PendingEdge>, p: int) -> ReservoirState
    decreases edges.len(),
{
    if edges.len() == 0 {
        state
    } else {
        let before = fed(state, edges.drop_last(), p);
        let edge = edges.last();
        if edge.p == p {
            before.offered(edge.c, edge.hash, edge.dist)
        } else {
            before
        }
    }
}

/// Edges may be handed on in batches of any size: what the reservoirs hold in the
/// end is the same.
pub proof fn law_batches_do_not_matter(
    state: ReservoirState,
    first: Seq<PendingEdge>,
    second: Seq<PendingEdge>,
    p: int,
)
    ensures
        fed(fed(state, first, p), second, p) == fed(state, first + second, p),
    decreases second.len(),
{
    if second.len() == 0 {
        assert(first + second =~= first);
    } else {
        law_batches_do_not_matter(state, first, second.drop_last(), p);
        assert((first + second).drop_last() =~= first + second.drop_last());
    }
}

/// All reservoirs are in order.
pub open spec fn all_wf(reservoirs: Seq<HashPruneReservoir>) -> bool {
    forall|p: int| 0 <= p < reservoirs.len() ==> (#[trigger] reservoirs[p]).wf()
}

/// Offers every edge to the reservoir of its point, in order.
pub fn flush_pending_edges_to_reservoirs(
    edges: &mut Vec<PendingEdge>,
    reservoirs: &mut Vec<HashPruneReservoir>,
)
    requires
        all_wf(old(reservoirs)@),
        forall|i: int|
            0 <= i < old(edges)@.len() ==> (#[trigger] old(edges)@[i]).p < old(reservoirs)@.len(),
    ensures
        final(edges)@.len() == 0,
        final(reservoirs)@.len() == old(reservoirs)@.len(),
        all_wf(final(reservoirs)@),
        forall|p: int|
            0 <= p < old(reservoirs)@.len() ==> (#[trigger] final(reservoirs)@[p])@ == fed(
                old(reservoirs)@[p]@,
                old(edges)@,
                p,
            ),
        forall|p: int|
            0 <= p < old(reservoirs)@.len() ==> holds_as_many(
                targets((#[trigger] final(reservoirs)@[p])@.slots),
                targets(old(reservoirs)@[p]@.slots).to_set().union(
                    candidates_for(old(edges)@, p),
                ),
                old(reservoirs)@[p]@.limit as int,
            ),
{
    let ghost start = reservoirs@;
    for i in 0..edges.len()
        invariant
            edges@ == old(edges)@,
            start == old(reservoirs)@,
            reservoirs@.len() == start.len(),
            all_wf(reservoirs@),
            forall|k: int| 0 <= k < edges@.len() ==> (#[trigger] edges@[k]).p < start.len(),
            forall|p: int|
                0 <= p < start.len() ==> (#[trigger] reservoirs@[p])@ == fed(
                    start[p]@,
                    edges@.take(i as int),
                    p,
                ),
    {
        let edge: PendingEdge = edges[i];
        let ghost before = reservoirs@;
        proof {
            assert(edges@[i as int].p < start.len());
            assert(edges@.take(i as int + 1).drop_last() =~= edges@.take(i as int));
        }
        reservoirs[edge.p].insert(edge.c, edge.hash, edge.dist);
        proof {
            assert forall|p: int| 0 <= p < start.len() implies (#[trigger] reservoirs@[p])@ == fed(
                start[p]@,
                edges@.take(i as int + 1),
                p,
            ) by {
                if p != edge.p {
                    assert(reservoirs@[p] == before[p]);
                }
            }
        }
    }
    proof {
        assert(edges@.take(edges@.len() as int) =~= edges@);
        assert forall|p: int| 0 <= p < start.len() implies holds_as_many(
            targets((#[trigger] reservoirs@[p])@.slots),
            targets(start[p]@.slots).to_set().union(candidates_for(edges@, p)),
            start[p]@.limit as int,
        ) by {
            assert(start[p].wf());
            law_reservoir_holds_what_it_was_offered(start[p]@, edges@, p);
        }
    }
    edges.clear();
}

/// The points of a leaf as candidates of point `own`, by their distances to it.
pub open spec fn row_candidates(dists: Seq<F32>, own: int) -> Seq<Neighbor> {
    Seq::new(
        (dists.len() - 1) as nat,
        |j: int|
            {
                let at = if j < own {
                    j
                } else {
                    j + 1
                };
                Neighbor { index: at as usize, dist: dists[at] }
            },
    )
}

/// The `k` nearest points of the leaf for point `own`.
pub open spec fn nearest_row(dists: Seq<F32>, own: int, k: int) -> Seq<Neighbor> {
    scanned(row_candidates(dists, own), k, dists.len() - 1)
}

/// The neighbours of the `n` points from `first` on, from their rows of distances to
/// the `leaf_size` points of the leaf.
pub open spec fn nearest_rows(
    dists: Seq<F32>,
    leaf_size: int,
    first: int,
    n: int,
    k: int,
) -> Seq<Seq<Neighbor>> {
    Seq::new(n as nat, |i: int| nearest_row(row_of(dists, leaf_size, i), first + i, k))
}

proof fn lemma_scanned_indices(candidates: Seq<Neighbor>, k: int, n: int, limit: int)
    requires
        0 <= n <= candidates.len(),
        forall|i: int| 0 <= i < candidates.len() ==> (#[trigger] candidates[i]).index < limit,
    ensures
        forall|i: int|
            0 <= i < scanned(candidates, k, n).len() ==> (#[trigger] scanned(
                candidates,
                k,
                n,
            )[i]).index < limit,
        scanned(candidates, k, n).len() <= greatest(k, 0),
    decreases n,
{
    if n > 0 {
        lemma_scanned_indices(candidates, k, n - 1, limit);
        let before = scanned(candidates, k, n - 1);
        let candidate = candidates[n - 1];
        let kept = scanned(candidates, k, n);
        assert forall|i: int| 0 <= i < kept.len() implies (#[trigger] kept[i]).index < limit by {
            if k > 0 && before.len() < k {
                crate::topk::lemma_insertion_point(
                    before,
                    candidate.dist,
                    before.len() as int,
                );
                let at = crate::topk::insertion_point(
                    before,
                    candidate.dist,
                    before.len() as int,
                );
                assert(kept[i] == if i < at {
                    before[i]
                } else if i == at {
                    candidate
                } else {
                    before[i - 1]
                });
            } else if k > 0 && !before[k - 1].dist.at_most(candidate.dist) {
                crate::topk::lemma_insertion_point(before, candidate.dist, k - 1);
                let at = crate::topk::insertion_point(before, candidate.dist, k - 1);
                assert(kept[i] == if i < at {
                    before[i]
                } else if i == at {
                    candidate
                } else {
                    before[i - 1]
                });
            }
        }
        if k > 0 && before.len() < k {
            crate::topk::lemma_insertion_point(before, candidate.dist, before.len() as int);
        } else if k > 0 {
            crate::topk::lemma_insertion_point(before, candidate.dist, k - 1);
        }
    }
}

/// Neighbours are points of the leaf, and there are at most `k` of them.
pub proof fn lemma_nearest_row_indices(dists: Seq<F32>, own: int, k: int)
    requires
        0 <= own < dists.len() <= usize::MAX,
    ensures
        forall|i: int|
            0 <= i < nearest_row(dists, own, k).len() ==> (#[trigger] nearest_row(
                dists,
                own,
                k,
            )[i]).index < dists.len(),
        nearest_row(dists, own, k).len() <= greatest(k, 0),
{
    lemma_scanned_indices(
        row_candidates(dists, own),
        k,
        dists.len() - 1,
        dists.len() as int,
    );
}

/// The neighbours of the points from `first` on, from their rows of distances.
pub fn block_topk(
    dists: &[F32],
    first: usize,
    rows: usize,
    leaf_size: usize,
    k: usize,
) -> (result: Vec<RowTopK>)
    requires
        k <= MAX_ROW_TOPK,
        first + rows <= leaf_size,
        dists@.len() == rows * leaf_size,
    ensures
        row_views(result@) == nearest_rows(
            dists@,
            leaf_size as int,
            first as int,
            rows as int,
            k as int,
        ),
        result@.len() == rows,
        forall|i: int|
            0 <= i < rows && k > 0 && (forall|j: int|
                0 <= j < leaf_size && j != first + i ==> !unordered(
                    #[trigger] row_of(dists@, leaf_size as int, i)[j],
                )) ==> nearest_in_leaf(
                row_of(dists@, leaf_size as int, i),
                first + i,
                k as int,
                (#[trigger] result@[i])@,
            ),
{
    let mut result: Vec<RowTopK> = Vec::with_capacity(rows);
    let total: usize = dists.len();
    for i in 0..rows
        invariant
            k <= MAX_ROW_TOPK,
            first + rows <= leaf_size,
            total == dists@.len(),
            dists@.len() == rows * leaf_size,
            result@.len() == i,
            row_views(result@) == nearest_rows(
                dists@,
                leaf_size as int,
                first as int,
                i as int,
                k as int,
            ),
    {
        proof {
            lemma_row_bounds(i as int, rows as int, leaf_size as int);
        }
        let own: usize = first + i;
        let base: usize = i * leaf_size;
        let ghost dist_row = row_of(dists@, leaf_size as int, i as int);
        let ghost candidates = row_candidates(dist_row, own as int);
        let mut row: RowTopK = RowTopK::default();
        for j in 0..leaf_size
            invariant
                k <= MAX_ROW_TOPK,
                own < leaf_size,
                base == i * leaf_size,
                base + leaf_size <= dists@.len(),
                total == dists@.len(),
                dist_row == row_of(dists@, leaf_size as int, i as int),
                candidates == row_candidates(dist_row, own as int),
                row@ == scanned(
                    candidates,
                    k as int,
                    if j <= own {
                        j as int
                    } else {
                        j - 1
                    },
                ),
                row@.len() <= k,
        {
            if j != own {
                row.push(k, j, dists[base + j]);
                proof {
                    assert(dist_row[j as int] == dists@[base + j]);
                }
            }
        }
        let ghost before = result@;
        result.push(row);
        proof {
            assert(row_views(result@) =~= nearest_rows(
                dists@,
                leaf_size as int,
                first as int,
                i + 1,
                k as int,
            )) by {
                assert forall|m: int| 0 <= m < i + 1 implies row_views(result@)[m]
                    == nearest_rows(
                    dists@,
                    leaf_size as int,
                    first as int,
                    i + 1,
                    k as int,
                )[m] by {
                    if m < i {
                        assert(row_views(before)[m] == nearest_rows(
                            dists@,
                            leaf_size as int,
                            first as int,
                            i as int,
                            k as int,
                        )[m]);
                        assert(result@[m] == before[m]);
                    }
                }
            }
        }
    }
    proof {
        assert forall|i: int|
            0 <= i < rows && k > 0 && (forall|j: int|
                0 <= j < leaf_size && j != first + i ==> !unordered(
                    #[trigger] row_of(dists@, leaf_size as int, i)[j],
                )) implies nearest_in_leaf(
            row_of(dists@, leaf_size as int, i),
            first + i,
            k as int,
            (#[trigger] result@[i])@,
        ) by {
            lemma_row_bounds(i, rows as int, leaf_size as int);
            assert(row_views(result@)[i] == result@[i]@);
            law_leaf_row_holds_the_nearest(
                row_of(dists@, leaf_size as int, i),
                first + i,
                k as int,
            );
        }
    }
    result
}

/// The neighbours that a leaf's points get from the matrix of all distances.
pub open spec fn leaf_rows(dists: Seq<F32>, leaf_size: int, k: int) -> Seq<Seq<Neighbor>> {
    nearest_rows(dists, leaf_size, 0, leaf_size, k)
}

/// A block of the distances gives its points the neighbours that the matrix of all
/// distances gives them.
pub proof fn law_blocks_agree_with_full_matrix(
    dists: Seq<F32>,
    leaf_size: int,
    first: int,
    n: int,
    k: int,
    i: int,
)
    requires
        0 <= first,
        0 <= i < n,
        first + n <= leaf_size,
        dists.len() == leaf_size * leaf_size,
    ensures
        nearest_rows(
            dists.subrange(first * leaf_size, (first + n) * leaf_size),
            leaf_size,
            first,
            n,
            k,
        )[i] == leaf_rows(dists, leaf_size, k)[first + i],
{
    lemma_row_bounds(first + i, leaf_size, leaf_size);
    lemma_row_bounds(i, n, leaf_size);
    assert((first + n) * leaf_size == first * leaf_size + n * leaf_size) by (nonlinear_arith);
    assert((first + i) * leaf_size == first * leaf_size + i * leaf_size) by (nonlinear_arith);
    assert(0 <= first * leaf_size) by (nonlinear_arith)
        requires
            0 <= first,
            0 <= leaf_size,
    ;
    assert((first + n) * leaf_size <= leaf_size * leaf_size) by (nonlinear_arith)
        requires
            first + n <= leaf_size,
            0 <= leaf_size,
    ;
    let part = dists.subrange(first * leaf_size, (first + n) * leaf_size);
    assert(row_of(part, leaf_size, i) =~= row_of(dists, leaf_size, first + i));
}

} // verus!
