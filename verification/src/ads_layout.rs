//! Leaders in blocks whose values of one dimension lie side by side.

use vstd::prelude::*;

use crate::arith::least;
use crate::float_bits::F32;
use crate::lane_mask::ADS_LEADER_BLOCK;
use crate::rows::{lemma_row_bounds, row_of, zeros};
use crate::sketch_build::{chunks_of, sketch_chunks};

verus! {

/// Up to 64 leaders, dimension by dimension.
#[derive(Debug)]
pub struct AdSamplingLeaderBlock {
    data: Vec<F32>,
    start: usize,
    len: usize,
}

/// Values `0..len` of each dimension are those of the leaders from `start` on, and the
/// lanes behind them are zero.
pub open spec fn transposed(
    row_major: Seq<F32>,
    dim: int,
    start: int,
    len: int,
    data: Seq<F32>,
) -> bool {
    &&& data.len() == ADS_LEADER_BLOCK * dim
    &&& forall|d: int, l: int|
        0 <= d < dim && 0 <= l < ADS_LEADER_BLOCK ==> #[trigger] data[d * ADS_LEADER_BLOCK + l]
            == block_value(row_major, dim, start, len, d, l)
}

/// The value that dimension `d` of lane `l` has.
pub open spec fn block_value(
    row_major: Seq<F32>,
    dim: int,
    start: int,
    len: int,
    d: int,
    l: int,
) -> F32 {
    if l < len {
        row_major[(start + l) * dim + d]
    } else {
        F32 { bits: 0 }
    }
}

proof fn lemma_cell(d: int, l: int, dim: int)
    requires
        0 <= d < dim,
        0 <= l < ADS_LEADER_BLOCK,
    ensures
        0 <= d * ADS_LEADER_BLOCK + l < ADS_LEADER_BLOCK * dim,
{
    assert(0 <= d * 64 + l < 64 * dim) by (nonlinear_arith)
        requires
            0 <= d < dim,
            0 <= l < 64,
    ;
}

proof fn lemma_cells_apart(d: int, l: int, e: int, m: int)
    requires
        0 <= l < ADS_LEADER_BLOCK,
        0 <= m < ADS_LEADER_BLOCK,
        d * ADS_LEADER_BLOCK + l == e * ADS_LEADER_BLOCK + m,
    ensures
        d == e,
        l == m,
{
    assert(d == e && l == m) by (nonlinear_arith)
        requires
            0 <= l < 64,
            0 <= m < 64,
            d * 64 + l == e * 64 + m,
    ;
}

impl AdSamplingLeaderBlock {
    pub closed spec fn values(&self) -> Seq<F32> {
        self.data@
    }

    pub closed spec fn first(&self) -> int {
        self.start as int
    }

    pub closed spec fn lanes(&self) -> int {
        self.len as int
    }

    pub fn start(&self) -> (start: usize)
        ensures
            start == self.first(),
    {
        self.start
    }

    pub fn len(&self) -> (len: usize)
        ensures
            len == self.lanes(),
    {
        self.len
    }

    pub fn data(&self) -> (data: &[F32])
        ensures
            data@ == self.values(),
    {
        self.data.as_slice()
    }

    /// The leaders `start..start + len` of a row-major matrix.
    pub fn build(row_major: &[F32], dim: usize, start: usize, len: usize) -> (block: Self)
        requires
            len <= ADS_LEADER_BLOCK,
            (start + len) * dim <= row_major@.len(),
            ADS_LEADER_BLOCK * dim <= usize::MAX,
        ensures
            block.first() == start,
            block.lanes() == len,
            transposed(row_major@, dim as int, start as int, len as int, block.values()),
    {
        let total: usize = row_major.len();
        let mut data: Vec<F32> = zeros(ADS_LEADER_BLOCK * dim);
        for local in 0..len
            invariant
                total == row_major@.len(),
                len <= ADS_LEADER_BLOCK,
                (start + len) * dim <= total,
                ADS_LEADER_BLOCK * dim <= usize::MAX,
                data@.len() == ADS_LEADER_BLOCK * dim,
                forall|d: int, l: int|
                    0 <= d < dim && 0 <= l < ADS_LEADER_BLOCK ==> #[trigger] data@[d
                        * ADS_LEADER_BLOCK + l] == block_value(
                        row_major@,
                        dim as int,
                        start as int,
                        local as int,
                        d,
                        l,
                    ),
        {
            proof {
                lemma_row_bounds(start + local, start + len, dim as int);
                if dim > 0 {
                    assert(start + local <= (start + local) * dim) by (nonlinear_arith)
                        requires
                            dim > 0,
                            start + local >= 0,
                    ;
                }
            }
            for dim_idx in 0..dim
                invariant
                    total == row_major@.len(),
                    local < len <= ADS_LEADER_BLOCK,
                    dim > 0 ==> start + local <= usize::MAX,
                    0 <= (start + local) * dim,
                    (start + local) * dim + dim <= total,
                    ADS_LEADER_BLOCK * dim <= usize::MAX,
                    data@.len() == ADS_LEADER_BLOCK * dim,
                    forall|d: int, l: int|
                        0 <= d < dim && 0 <= l < ADS_LEADER_BLOCK ==> #[trigger] data@[d
                            * ADS_LEADER_BLOCK + l] == block_value(
                            row_major@,
                            dim as int,
                            start as int,
                            if d < dim_idx {
                                local + 1
                            } else {
                                local as int
                            },
                            d,
                            l,
                        ),
            {
                let at: usize = (start + local) * dim + dim_idx;
                proof {
                    lemma_cell(dim_idx as int, local as int, dim as int);
                    assert forall|d: int, l: int|
                        0 <= d < dim && 0 <= l < ADS_LEADER_BLOCK implies 0 <= #[trigger] (d
                        * ADS_LEADER_BLOCK + l) < data@.len() && (d * ADS_LEADER_BLOCK + l
                        == dim_idx * ADS_LEADER_BLOCK + local ==> d == dim_idx && l == local) by {
                        lemma_cell(d, l, dim as int);
                        if d * ADS_LEADER_BLOCK + l == dim_idx * ADS_LEADER_BLOCK + local {
                            lemma_cells_apart(d, l, dim_idx as int, local as int);
                        }
                    }
                }
                let ghost before = data@;
                data.set(dim_idx * ADS_LEADER_BLOCK + local, row_major[at]);
                proof {
                    assert forall|d: int, l: int|
                        0 <= d < dim && 0 <= l < ADS_LEADER_BLOCK implies #[trigger] data@[d
                        * ADS_LEADER_BLOCK + l] == block_value(
                        row_major@,
                        dim as int,
                        start as int,
                        if d < dim_idx + 1 {
                            local + 1
                        } else {
                            local as int
                        },
                        d,
                        l,
                    ) by {
                        let cell = d * ADS_LEADER_BLOCK + l;
                        assert(before[d * ADS_LEADER_BLOCK + l] == block_value(
                            row_major@,
                            dim as int,
                            start as int,
                            if d < dim_idx {
                                local + 1
                            } else {
                                local as int
                            },
                            d,
                            l,
                        ));
                        if cell == dim_idx * ADS_LEADER_BLOCK + local {
                            lemma_cells_apart(d, l, dim_idx as int, local as int);
                        } else if d == dim_idx && l == local {
                            assert(false);
                        }
                    }
                }
            }
        }
        AdSamplingLeaderBlock { data, start, len }
    }
}

/// The leaders of one level or the rows of one leaf, row by row and block by block.
#[derive(Debug)]
pub struct AdSamplingLeaderLayout {
    row_major: Vec<F32>,
    blocks: Vec<AdSamplingLeaderBlock>,
    dim: usize,
    leaders: usize,
}

impl AdSamplingLeaderLayout {
    pub closed spec fn values(&self) -> Seq<F32> {
        self.row_major@
    }

    pub closed spec fn dims(&self) -> int {
        self.dim as int
    }

    pub closed spec fn count(&self) -> int {
        self.leaders as int
    }

    pub closed spec fn block_seq(&self) -> Seq<AdSamplingLeaderBlock> {
        self.blocks@
    }

    /// The blocks cover the leaders in order, and each holds its leaders' values.
    pub open spec fn wf(&self) -> bool {
        &&& self.values().len() == self.count() * self.dims()
        &&& self.block_seq().len() * ADS_LEADER_BLOCK >= self.count()
        &&& forall|b: int|
            0 <= b < self.block_seq().len() ==> {
                &&& (#[trigger] self.block_seq()[b]).first() == b * ADS_LEADER_BLOCK
                &&& self.block_seq()[b].lanes() == least(
                    ADS_LEADER_BLOCK as int,
                    self.count() - b * ADS_LEADER_BLOCK,
                )
                &&& self.block_seq()[b].lanes() > 0
                &&& transposed(
                    self.values(),
                    self.dims(),
                    self.block_seq()[b].first(),
                    self.block_seq()[b].lanes(),
                    self.block_seq()[b].values(),
                )
            }
    }

    pub fn from_row_major(row_major: Vec<F32>, leaders: usize, dim: usize) -> (layout: Self)
        requires
            row_major@.len() == leaders * dim,
            ADS_LEADER_BLOCK * dim <= usize::MAX,
        ensures
            layout.wf(),
            layout.values() == row_major@,
            layout.dims() == dim,
            layout.count() == leaders,
    {
        let chunks: Vec<(usize, usize)> = sketch_chunks(leaders, ADS_LEADER_BLOCK);
        let mut blocks: Vec<AdSamplingLeaderBlock> = Vec::with_capacity(chunks.len());
        for b in 0..chunks.len()
            invariant
                row_major@.len() == leaders * dim,
                ADS_LEADER_BLOCK * dim <= usize::MAX,
                chunks_of(leaders as int, ADS_LEADER_BLOCK as int, chunks@),
                blocks@.len() == b,
                forall|c: int|
                    0 <= c < b ==> {
                        &&& (#[trigger] blocks@[c]).first() == c * ADS_LEADER_BLOCK
                        &&& blocks@[c].lanes() == least(
                            ADS_LEADER_BLOCK as int,
                            leaders - c * ADS_LEADER_BLOCK,
                        )
                        &&& blocks@[c].lanes() > 0
                        &&& transposed(
                            row_major@,
                            dim as int,
                            blocks@[c].first(),
                            blocks@[c].lanes(),
                            blocks@[c].values(),
                        )
                    },
        {
            let (start, len) = chunks[b];
            proof {
                assert(chunks@[b as int].0 == b * ADS_LEADER_BLOCK);
                assert((start + len) * dim <= leaders * dim) by (nonlinear_arith)
                    requires
                        start + len <= leaders,
                ;
            }
            blocks.push(AdSamplingLeaderBlock::build(row_major.as_slice(), dim, start, len));
        }
        AdSamplingLeaderLayout { row_major, blocks, dim, leaders }
    }

    pub fn leader(&self, leader_idx: usize) -> (leader: &[F32])
        requires
            self.wf(),
            leader_idx < self.count(),
        ensures
            leader@ == row_of(self.values(), self.dims(), leader_idx as int),
    {
        assert(self.row_major.len() == self.row_major@.len());
        proof {
            lemma_row_bounds(leader_idx as int, self.leaders as int, self.dim as int);
        }
        let start: usize = leader_idx * self.dim;
        vstd::slice::slice_subrange(self.row_major.as_slice(), start, start + self.dim)
    }

    pub fn leaders(&self) -> (leaders: usize)
        ensures
            leaders == self.count(),
    {
        self.leaders
    }

    pub fn dim(&self) -> (dim: usize)
        ensures
            dim == self.dims(),
    {
        self.dim
    }

    pub fn block_count(&self) -> (blocks: usize)
        ensures
            blocks == self.block_seq().len(),
    {
        self.blocks.len()
    }

    pub fn block(&self, b: usize) -> (block: &AdSamplingLeaderBlock)
        requires
            b < self.block_seq().len(),
        ensures
            *block == self.block_seq()[b as int],
    {
        &self.blocks[b]
    }
}

/// The value that a block holds for a leader is the leader's own.
pub proof fn law_blocks_hold_leader_values(layout: &AdSamplingLeaderLayout, leader: int, d: int)
    requires
        layout.wf(),
        0 <= leader < layout.count(),
        0 <= d < layout.dims(),
    ensures
        0 <= leader / 64 < layout.block_seq().len(),
        layout.block_seq()[leader / 64].values()[d * ADS_LEADER_BLOCK + leader % 64] == row_of(
            layout.values(),
            layout.dims(),
            leader,
        )[d],
{
    let b = leader / 64;
    let l = leader % 64;
    assert(0 <= b < layout.block_seq().len());
    let block = layout.block_seq()[b];
    assert(block.first() == b * ADS_LEADER_BLOCK);
    assert(l < block.lanes());
    assert(block.values()[d * ADS_LEADER_BLOCK + l] == block_value(
        layout.values(),
        layout.dims(),
        block.first(),
        block.lanes(),
        d,
        l,
    ));
    lemma_row_bounds(leader, layout.count(), layout.dims());
}

} // verus!
