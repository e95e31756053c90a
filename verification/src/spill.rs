//! Candidates that do not stay in memory: their shards, and their bytes in a file.

use vstd::prelude::*;

use crate::float_bits::F32;
use crate::le_bytes::{
    bytes_u32, bytes_u64, int_u32, int_u64, law_u32_bytes_round_trip, law_u64_bytes_round_trip,
    push_u32, push_u64, read_u32, read_u64,
};
use crate::leaf_build::{fed, PendingEdge};

verus! {

/// The shard that the candidates of point `p` go to, where the first `resident_points`
/// points keep theirs.
pub fn spill_shard(p: usize, resident_points: usize, shard_points: usize) -> (shard: usize)
    requires
        resident_points <= p,
        shard_points > 0,
    ensures
        shard == (p - resident_points) / shard_points as int,
{
    (p - resident_points) / shard_points
}

/// The edges of the points from `first` to in front of `last`.
pub open spec fn shard_part(edges: Seq<PendingEdge>, first: int, last: int) -> Seq<PendingEdge>
    decreases edges.len(),
{
    if edges.len() == 0 {
        Seq::<PendingEdge>::empty()
    } else {
        let before = shard_part(edges.drop_last(), first, last);
        if first <= edges.last().p < last {
            before.push(edges.last())
        } else {
            before
        }
    }
}

/// The edges of a shard are all that the points of the shard are offered.
pub proof fn law_shard_feeds_its_points(
    state: crate::hash_prune::ReservoirState,
    edges: Seq<PendingEdge>,
    first: int,
    last: int,
    p: int,
)
    requires
        first <= p < last,
    ensures
        fed(state, shard_part(edges, first, last), p) == fed(state, edges, p),
    decreases edges.len(),
{
    if edges.len() > 0 {
        law_shard_feeds_its_points(state, edges.drop_last(), first, last, p);
        if first <= edges.last().p < last {
            assert(shard_part(edges, first, last).drop_last() =~= shard_part(
                edges.drop_last(),
                first,
                last,
            ));
        }
    }
}

/// The bytes of one candidate.
pub const SPILL_RECORD_BYTES: usize = 24;

/// The rank, the flags and whether the edge has to be kept, in one number.
pub open spec fn marks_of(edge: PendingEdge) -> u32 {
    (edge.local_rank + 0x100 * edge.flags + if edge.mandatory {
        0x1_0000int
    } else {
        0
    }) as u32
}

/// A candidate as bytes.
pub open spec fn record_of(edge: PendingEdge) -> Seq<u8> {
    bytes_u64(edge.p as u64) + bytes_u32(edge.c) + bytes_u32(edge.dist.bits) + bytes_u32(
        edge.hash as u32,
    ) + bytes_u32(marks_of(edge))
}

/// The candidate that the bytes stand for.
pub open spec fn edge_of(record: Seq<u8>) -> PendingEdge {
    let marks = int_u32(record.subrange(20, 24));
    PendingEdge {
        p: int_u64(record.subrange(0, 8)) as usize,
        c: int_u32(record.subrange(8, 12)) as u32,
        hash: (int_u32(record.subrange(16, 20)) % 0x1_0000) as u16,
        dist: F32 { bits: int_u32(record.subrange(12, 16)) as u32 },
        mandatory: marks / 0x1_0000 % 2 == 1,
        local_rank: (marks % 0x100) as u8,
        flags: (marks / 0x100 % 0x100) as u8,
    }
}

/// Candidates as bytes, one behind the other.
pub open spec fn records_of(edges: Seq<PendingEdge>) -> Seq<u8>
    decreases edges.len(),
{
    if edges.len() == 0 {
        Seq::<u8>::empty()
    } else {
        records_of(edges.drop_last()) + record_of(edges.last())
    }
}

/// Reading the bytes of a candidate gives the candidate back.
pub proof fn law_record_round_trip(edge: PendingEdge)
    ensures
        record_of(edge).len() == SPILL_RECORD_BYTES,
        edge_of(record_of(edge)) == edge,
{
    let record = record_of(edge);
    law_u64_bytes_round_trip(edge.p as u64);
    law_u32_bytes_round_trip(edge.c);
    law_u32_bytes_round_trip(edge.dist.bits);
    law_u32_bytes_round_trip(edge.hash as u32);
    law_u32_bytes_round_trip(marks_of(edge));
    assert(record.subrange(0, 8) =~= bytes_u64(edge.p as u64));
    assert(record.subrange(8, 12) =~= bytes_u32(edge.c));
    assert(record.subrange(12, 16) =~= bytes_u32(edge.dist.bits));
    assert(record.subrange(16, 20) =~= bytes_u32(edge.hash as u32));
    assert(record.subrange(20, 24) =~= bytes_u32(marks_of(edge)));
}

/// Candidates that were written are read back, as many and in the same order.
pub proof fn law_records_round_trip(edges: Seq<PendingEdge>, i: int)
    requires
        0 <= i < edges.len(),
    ensures
        records_of(edges).len() == edges.len() * SPILL_RECORD_BYTES,
        edge_of(
            records_of(edges).subrange(
                i * SPILL_RECORD_BYTES,
                i * SPILL_RECORD_BYTES + SPILL_RECORD_BYTES,
            ),
        ) == edges[i],
    decreases edges.len(),
{
    let all = records_of(edges);
    let head = records_of(edges.drop_last());
    law_record_round_trip(edges.last());
    lemma_records_len(edges.drop_last());
    let from = i * SPILL_RECORD_BYTES;
    if i < edges.len() - 1 {
        law_records_round_trip(edges.drop_last(), i);
        assert(all.subrange(from, from + SPILL_RECORD_BYTES) =~= head.subrange(
            from,
            from + SPILL_RECORD_BYTES,
        ));
    } else {
        assert(all.subrange(from, from + SPILL_RECORD_BYTES) =~= record_of(edges.last()));
    }
}

proof fn lemma_records_len(edges: Seq<PendingEdge>)
    ensures
        records_of(edges).len() == edges.len() * SPILL_RECORD_BYTES,
    decreases edges.len(),
{
    if edges.len() > 0 {
        lemma_records_len(edges.drop_last());
        law_record_round_trip(edges.last());
    }
}

/// Appends the bytes of candidates.
pub fn push_records(out: &mut Vec<u8>, edges: &[PendingEdge])
    ensures
        final(out)@ == old(out)@ + records_of(edges@),
{
    for i in 0..edges.len()
        invariant
            out@ == old(out)@ + records_of(edges@.take(i as int)),
    {
        let edge: PendingEdge = edges[i];
        let ghost before = out@;
        let kept: u32 = if edge.mandatory {
            0x1_0000
        } else {
            0
        };
        push_u64(out, edge.p as u64);
        push_u32(out, edge.c);
        push_u32(out, edge.dist.bits);
        push_u32(out, edge.hash as u32);
        push_u32(out, edge.local_rank as u32 + 0x100 * edge.flags as u32 + kept);
        proof {
            assert(edges@.take(i + 1).drop_last() =~= edges@.take(i as int));
            assert(out@ =~= before + record_of(edge));
            assert(out@ =~= old(out)@ + records_of(edges@.take(i + 1)));
        }
    }
    proof {
        assert(edges@.take(edges@.len() as int) =~= edges@);
    }
}

/// The candidates that whole records stand for.
pub fn read_records(bytes: &[u8]) -> (edges: Vec<PendingEdge>)
    requires
        bytes@.len() % SPILL_RECORD_BYTES as nat == 0,
    ensures
        edges@ == Seq::new(
            bytes@.len() / SPILL_RECORD_BYTES as nat,
            |i: int|
                edge_of(
                    bytes@.subrange(
                        i * SPILL_RECORD_BYTES,
                        i * SPILL_RECORD_BYTES + SPILL_RECORD_BYTES,
                    ),
                ),
        ),
{
    let count: usize = bytes.len() / SPILL_RECORD_BYTES;
    let mut edges: Vec<PendingEdge> = Vec::with_capacity(count);
    for i in 0..count
        invariant
            count == bytes@.len() / SPILL_RECORD_BYTES as nat,
            edges@ == Seq::new(
                i as nat,
                |k: int|
                    edge_of(
                        bytes@.subrange(
                            k * SPILL_RECORD_BYTES,
                            k * SPILL_RECORD_BYTES + SPILL_RECORD_BYTES,
                        ),
                    ),
            ),
    {
        assert(bytes.len() == bytes@.len());
        assert(i * SPILL_RECORD_BYTES + SPILL_RECORD_BYTES <= bytes@.len());
        let at: usize = i * SPILL_RECORD_BYTES;
        let edge: PendingEdge = read_record(bytes, at);
        edges.push(edge);
        proof {
            assert(edges@ =~= Seq::new(
                (i + 1) as nat,
                |k: int|
                    edge_of(
                        bytes@.subrange(
                            k * SPILL_RECORD_BYTES,
                            k * SPILL_RECORD_BYTES + SPILL_RECORD_BYTES,
                        ),
                    ),
            ));
        }
    }
    edges
}

fn read_record(bytes: &[u8], at: usize) -> (edge: PendingEdge)
    requires
        at + SPILL_RECORD_BYTES <= bytes@.len(),
    ensures
        edge == edge_of(bytes@.subrange(at as int, at + SPILL_RECORD_BYTES)),
{
    assert(bytes.len() == bytes@.len());
    let p: u64 = read_u64(bytes, at);
    let c: u32 = read_u32(bytes, at + 8);
    let dist: u32 = read_u32(bytes, at + 12);
    let hash: u32 = read_u32(bytes, at + 16);
    let marks: u32 = read_u32(bytes, at + 20);
    proof {
        let record = bytes@.subrange(at as int, at + SPILL_RECORD_BYTES);
        assert(record.subrange(0, 8) =~= bytes@.subrange(at as int, at + 8));
        assert(record.subrange(8, 12) =~= bytes@.subrange(at + 8, at + 12));
        assert(record.subrange(12, 16) =~= bytes@.subrange(at + 12, at + 16));
        assert(record.subrange(16, 20) =~= bytes@.subrange(at + 16, at + 20));
        assert(record.subrange(20, 24) =~= bytes@.subrange(at + 20, at + 24));
    }
    PendingEdge {
        p: #[verifier::truncate]
        (p as usize),
        c,
        hash: (hash % 0x1_0000) as u16,
        dist: F32 { bits: dist },
        mandatory: marks / 0x1_0000 % 2 == 1,
        local_rank: (marks % 0x100) as u8,
        flags: (marks / 0x100 % 0x100) as u8,
    }
}

} // verus!
