//! Building a graph leaf by leaf, with the candidates of some points handed out.

use vstd::prelude::*;

use crate::graph_build::{
    drain_reservoirs, empty_reservoir, graph_rows, leaf_pending_edges, lemma_parts_add,
    lemma_resident_within, neighbors_of, new_reservoirs, reduce_spilled_edges, LeafInput,
};
use crate::graph_laws::{lemma_rows_hold_candidates, rows_hold_candidates};
use crate::hash_prune::HashPruneReservoir;
use crate::leaf_build::{
    all_wf, fed, flush_pending_edges_to_reservoirs, law_batches_do_not_matter, PendingEdge,
};
use crate::leaf_route::{law_split_feeds_every_point, resident_part, spilled_part, split_edges};
use crate::params::ForgeANNParams;
use crate::spill::{law_shard_feeds_its_points, shard_part};

verus! {

/// A graph in the making. The reservoirs of the first points are in memory; what the leaves
/// offer to the others is handed out.
pub struct GraphStream {
    reservoirs: Vec<HashPruneReservoir>,
    num_points: usize,
    l_max: usize,
    offered: Ghost<Seq<PendingEdge>>,
}

impl GraphStream {
    /// The points whose reservoirs are in memory.
    pub closed spec fn resident(&self) -> int {
        self.reservoirs@.len() as int
    }

    pub closed spec fn points(&self) -> int {
        self.num_points as int
    }

    pub closed spec fn limit(&self) -> int {
        self.l_max as int
    }

    /// All edges of the leaves so far.
    pub closed spec fn edges(&self) -> Seq<PendingEdge> {
        self.offered@
    }

    /// The reservoirs hold what they keep of the edges of their points.
    pub closed spec fn wf(&self) -> bool {
        &&& self.reservoirs@.len() <= self.num_points
        &&& self.l_max > 0
        &&& all_wf(self.reservoirs@)
        &&& forall|p: int|
            0 <= p < self.reservoirs@.len() ==> (#[trigger] self.reservoirs@[p])@ == fed(
                empty_reservoir(self.l_max as int),
                resident_part(self.offered@, self.reservoirs@.len() as int),
                p,
            )
    }

    pub fn new(num_points: usize, resident_points: usize, l_max: usize) -> (stream: Self)
        requires
            resident_points <= num_points,
            l_max > 0,
        ensures
            stream.wf(),
            stream.resident() == resident_points,
            stream.points() == num_points,
            stream.limit() == l_max,
            stream.edges() == Seq::<PendingEdge>::empty(),
    {
        let reservoirs: Vec<HashPruneReservoir> = new_reservoirs(resident_points, l_max);
        GraphStream { reservoirs, num_points, l_max, offered: Ghost(Seq::empty()) }
    }

    /// Offers the edges of a leaf to the points in memory, and hands out those of the
    /// others.
    pub fn add_leaf(&mut self, leaf: &LeafInput, params: &ForgeANNParams) -> (spilled: Vec<
        PendingEdge,
    >)
        requires
            old(self).wf(),
            leaf.fits(*params, old(self).points()),
        ensures
            final(self).wf(),
            final(self).resident() == old(self).resident(),
            final(self).points() == old(self).points(),
            final(self).limit() == old(self).limit(),
            final(self).edges() == old(self).edges() + leaf.edges(*params),
            spilled@ == spilled_part(leaf.edges(*params), old(self).resident()),
    {
        let resident: usize = self.reservoirs.len();
        let ghost earlier = self.offered@;
        let ghost before = self.reservoirs@;
        let mut edges: Vec<PendingEdge> = leaf_pending_edges(leaf, self.num_points, params);
        let ghost added = edges@;
        let (mut kept, out): (Vec<PendingEdge>, Vec<PendingEdge>) = split_edges(
            &mut edges,
            resident,
        );
        proof {
            lemma_resident_within(added, resident as int);
            lemma_parts_add(earlier, added, resident as int);
        }
        let ghost kept_edges = kept@;
        flush_pending_edges_to_reservoirs(&mut kept, &mut self.reservoirs);
        self.offered = Ghost(earlier + added);
        proof {
            let empty = empty_reservoir(self.l_max as int);
            let before_edges = resident_part(earlier, resident as int);
            assert forall|p: int| 0 <= p < self.reservoirs@.len() implies (
            #[trigger] self.reservoirs@[p])@ == fed(
                empty,
                resident_part(self.offered@, resident as int),
                p,
            ) by {
                assert(before[p]@ == fed(empty, before_edges, p));
                law_batches_do_not_matter(empty, before_edges, kept_edges, p);
            }
        }
        out
    }

    /// The neighbours of the points in memory.
    pub fn finish(self) -> (graph: Vec<Vec<u32>>)
        requires
            self.wf(),
        ensures
            graph@.len() == self.resident(),
            graph_rows(graph@, self.edges(), self.limit(), 0),
            rows_hold_candidates(graph@, self.edges(), self.limit(), 0),
    {
        let mut reservoirs: Vec<HashPruneReservoir> = self.reservoirs;
        let ghost held = reservoirs@;
        let graph: Vec<Vec<u32>> = drain_reservoirs(&mut reservoirs);
        proof {
            let empty = empty_reservoir(self.limit());
            assert forall|p: int| 0 <= p < graph@.len() implies (#[trigger] graph@[p])@
                == neighbors_of(self.edges(), self.limit(), p) by {
                law_split_feeds_every_point(empty, self.edges(), self.resident(), p);
                assert(held[p]@ == fed(
                    empty,
                    resident_part(self.edges(), self.resident()),
                    p,
                ));
            }
            lemma_rows_hold_candidates(graph@, self.edges(), self.limit(), 0);
        }
        graph
    }
}

/// The neighbours of the points of a shard, from the candidates that were handed out for
/// them.
pub fn finish_shard(
    shard: &Vec<PendingEdge>,
    first: usize,
    last: usize,
    l_max: usize,
) -> (graph: Vec<Vec<u32>>)
    requires
        l_max > 0,
        first < last,
    ensures
        graph@.len() == last - first,
        graph_rows(graph@, shard@, l_max as int, first as int),
        rows_hold_candidates(graph@, shard@, l_max as int, first as int),
{
    reduce_spilled_edges(shard, first, last, l_max, last - first)
}

/// A graph that is built leaf by leaf, with candidates handed out and reduced shard by
/// shard, is the graph of all edges: what is handed out for the points of a shard decides
/// on their neighbours.
pub proof fn law_shards_complete_the_graph(
    edges: Seq<PendingEdge>,
    resident: int,
    first: int,
    last: int,
    l_max: int,
    p: int,
)
    requires
        resident <= first <= p < last,
    ensures
        neighbors_of(shard_part(spilled_part(edges, resident), first, last), l_max, p)
            == neighbors_of(edges, l_max, p),
{
    let empty = empty_reservoir(l_max);
    law_shard_feeds_its_points(empty, spilled_part(edges, resident), first, last, p);
    law_split_feeds_every_point(empty, edges, resident, p);
}

} // verus!
