//! Assigning points to leaders in tiles and chunks, and putting the chunks in order.

use vstd::prelude::*;
use vstd::string::*;

use crate::ads_config::{
    assignment_chunk_rows, choose_adsampling_assignment_chunk_rows_for_threads, AdSamplingConfig,
    AdsOverrides, ADS_QUERY_TILE,
};
use crate::ads_scan::{seed_count, AdsCounters};
use crate::ads_topk::{overlap, same_leaders, topk_overlap_count};
use crate::ann_result::{index_error, AnnError, AnnResult};
use crate::arith::{
    blocks_for, capped, div_ceil, greatest, least, max_usize, min_usize, product_is, sat_mul,
};
use crate::float_bits::F32;
use crate::params::ForgeANNParams;
use crate::pool::{current_num_threads, current_thread_index};
use crate::rows::{lemma_row_bounds, row_of};
use crate::sketch_build::{chunks_of, sketch_chunks};
use crate::text::{decimal, with_numbers};

verus! {

/// What the assignment of some points has cost and how its checks came out.
#[derive(Clone, Copy, Debug, PartialEq, Eq, Structural)]
pub struct AdsTotals {
    pub seed_ns: u64,
    pub scan_ns: u64,
    pub full_evals: u64,
    pub pruned_evals: u64,
    pub group_evals: u64,
    pub simd_group_calls: u64,
    pub simd_active_lane_evals: u64,
    pub scalar_group_evals: u64,
    /// Points that were checked against an exact scan.
    pub validation_sources: u64,
    /// Those of them whose leaders were not the same.
    pub validation_mismatches: u64,
    /// Leaders that both scans found, and leaders that the exact ones found.
    pub validation_recall_hits: u64,
    pub validation_recall_total: u64,
}

impl AdsTotals {
    pub open spec fn zero() -> AdsTotals {
        AdsTotals {
            seed_ns: 0,
            scan_ns: 0,
            full_evals: 0,
            pruned_evals: 0,
            group_evals: 0,
            simd_group_calls: 0,
            simd_active_lane_evals: 0,
            scalar_group_evals: 0,
            validation_sources: 0,
            validation_mismatches: 0,
            validation_recall_hits: 0,
            validation_recall_total: 0,
        }
    }

    pub fn new() -> (totals: AdsTotals)
        ensures
            totals == AdsTotals::zero(),
    {
        AdsTotals {
            seed_ns: 0,
            scan_ns: 0,
            full_evals: 0,
            pruned_evals: 0,
            group_evals: 0,
            simd_group_calls: 0,
            simd_active_lane_evals: 0,
            scalar_group_evals: 0,
            validation_sources: 0,
            validation_mismatches: 0,
            validation_recall_hits: 0,
            validation_recall_total: 0,
        }
    }

    /// Both together fit their counters.
    pub open spec fn mergeable(self, other: AdsTotals) -> bool {
        &&& self.seed_ns + other.seed_ns <= u64::MAX
        &&& self.scan_ns + other.scan_ns <= u64::MAX
        &&& self.full_evals + other.full_evals <= u64::MAX
        &&& self.pruned_evals + other.pruned_evals <= u64::MAX
        &&& self.group_evals + other.group_evals <= u64::MAX
        &&& self.simd_group_calls + other.simd_group_calls <= u64::MAX
        &&& self.simd_active_lane_evals + other.simd_active_lane_evals <= u64::MAX
        &&& self.scalar_group_evals + other.scalar_group_evals <= u64::MAX
        &&& self.validation_sources + other.validation_sources <= u64::MAX
        &&& self.validation_mismatches + other.validation_mismatches <= u64::MAX
        &&& self.validation_recall_hits + other.validation_recall_hits <= u64::MAX
        &&& self.validation_recall_total + other.validation_recall_total <= u64::MAX
    }

    /// Each counter is the sum of both.
    pub open spec fn merged(self, other: AdsTotals) -> AdsTotals {
        AdsTotals {
            seed_ns: (self.seed_ns + other.seed_ns) as u64,
            scan_ns: (self.scan_ns + other.scan_ns) as u64,
            full_evals: (self.full_evals + other.full_evals) as u64,
            pruned_evals: (self.pruned_evals + other.pruned_evals) as u64,
            group_evals: (self.group_evals + other.group_evals) as u64,
            simd_group_calls: (self.simd_group_calls + other.simd_group_calls) as u64,
            simd_active_lane_evals: (self.simd_active_lane_evals
                + other.simd_active_lane_evals) as u64,
            scalar_group_evals: (self.scalar_group_evals + other.scalar_group_evals) as u64,
            validation_sources: (self.validation_sources + other.validation_sources) as u64,
            validation_mismatches: (self.validation_mismatches
                + other.validation_mismatches) as u64,
            validation_recall_hits: (self.validation_recall_hits
                + other.validation_recall_hits) as u64,
            validation_recall_total: (self.validation_recall_total
                + other.validation_recall_total) as u64,
        }
    }

    pub fn merge(&mut self, other: &AdsTotals)
        requires
            old(self).mergeable(*other),
        ensures
            *final(self) == old(self).merged(*other),
    {
        self.seed_ns = self.seed_ns + other.seed_ns;
        self.scan_ns = self.scan_ns + other.scan_ns;
        self.full_evals = self.full_evals + other.full_evals;
        self.pruned_evals = self.pruned_evals + other.pruned_evals;
        self.group_evals = self.group_evals + other.group_evals;
        self.simd_group_calls = self.simd_group_calls + other.simd_group_calls;
        self.simd_active_lane_evals = self.simd_active_lane_evals + other.simd_active_lane_evals;
        self.scalar_group_evals = self.scalar_group_evals + other.scalar_group_evals;
        self.validation_sources = self.validation_sources + other.validation_sources;
        self.validation_mismatches = self.validation_mismatches + other.validation_mismatches;
        self.validation_recall_hits = self.validation_recall_hits + other.validation_recall_hits;
        self.validation_recall_total = self.validation_recall_total
            + other.validation_recall_total;
    }

    /// Takes over what a scan has counted. Seeds were measured in full too.
    pub fn take_counters(&mut self, counters: &AdsCounters)
        requires
            counters.seed_evals + counters.full_evals <= u64::MAX,
        ensures
            *final(self) == (AdsTotals {
                full_evals: (counters.seed_evals + counters.full_evals) as u64,
                pruned_evals: counters.pruned_evals,
                group_evals: counters.group_evals,
                simd_group_calls: counters.simd_group_calls,
                simd_active_lane_evals: counters.simd_active_lane_evals,
                scalar_group_evals: counters.scalar_group_evals,
                ..*old(self)
            }),
    {
        self.full_evals = counters.seed_evals + counters.full_evals;
        self.pruned_evals = counters.pruned_evals;
        self.group_evals = counters.group_evals;
        self.simd_group_calls = counters.simd_group_calls;
        self.simd_active_lane_evals = counters.simd_active_lane_evals;
        self.scalar_group_evals = counters.scalar_group_evals;
    }

    /// Counts the check of one point.
    pub fn record_validation(&mut self, leaders: &[usize], exact: &[usize])
        requires
            old(self).validation_sources < u64::MAX,
            old(self).validation_mismatches < u64::MAX,
            old(self).validation_recall_hits + leaders@.len() <= u64::MAX,
            old(self).validation_recall_total + exact@.len() <= u64::MAX,
        ensures
            *final(self) == (AdsTotals {
                validation_sources: (old(self).validation_sources + 1) as u64,
                validation_mismatches: (old(self).validation_mismatches + if leaders@ == exact@ {
                    0int
                } else {
                    1
                }) as u64,
                validation_recall_hits: (old(self).validation_recall_hits + overlap(
                    leaders@,
                    exact@,
                    leaders@.len() as int,
                )) as u64,
                validation_recall_total: (old(self).validation_recall_total
                    + exact@.len()) as u64,
                ..*old(self)
            }),
    {
        self.validation_sources = self.validation_sources + 1;
        let hits: usize = topk_overlap_count(leaders, exact);
        self.validation_recall_hits = self.validation_recall_hits + hits as u64;
        self.validation_recall_total = self.validation_recall_total + exact.len() as u64;
        if !same_leaders(leaders, exact) {
            self.validation_mismatches = self.validation_mismatches + 1;
        }
    }
}

/// Totals can be merged in either order.
pub proof fn law_totals_merge_commutes(a: AdsTotals, b: AdsTotals)
    ensures
        a.merged(b) == b.merged(a),
        a.mergeable(b) == b.mergeable(a),
{
}

/// Points of one chunk: where they start among all, the leaders of each, and what it cost.
#[derive(Debug)]
pub struct AdSamplingChunkResult {
    pub source_start: usize,
    pub leaders_by_point: Vec<Vec<usize>>,
    pub totals: AdsTotals,
}

impl AdSamplingChunkResult {
    /// A chunk before any of its points was assigned.
    pub fn new(source_start: usize) -> (chunk: Self)
        ensures
            chunk.source_start == source_start,
            chunk.leaders_by_point@ == Seq::<Vec<usize>>::empty(),
            chunk.totals == AdsTotals::zero(),
    {
        AdSamplingChunkResult {
            source_start,
            leaders_by_point: Vec::new(),
            totals: AdsTotals::new(),
        }
    }

    /// Appends the points of the next tile.
    pub fn add_tile(&mut self, leaders_by_point: &mut Vec<Vec<usize>>, totals: &AdsTotals)
        requires
            old(self).totals.mergeable(*totals),
        ensures
            final(self).source_start == old(self).source_start,
            final(self).leaders_by_point@ == old(self).leaders_by_point@ + old(leaders_by_point)@,
            final(leaders_by_point)@ == Seq::<Vec<usize>>::empty(),
            final(self).totals == old(self).totals.merged(*totals),
    {
        self.leaders_by_point.append(leaders_by_point);
        self.totals.merge(totals);
    }
}

/// How many queries a tile of values has.
pub fn tile_query_count(tile_len: usize, dim: usize) -> (result: AnnResult<usize>)
    requires
        dim > 0,
    ensures
        match result {
            Ok(count) => tile_len == count * dim,
            Err(error) => tile_len as int % dim as int != 0 && error.is_index(
                "Invalid ADSampling tile dimensions: tile_len="@ + decimal(tile_len as nat)
                    + " dim="@ + decimal(dim as nat) + ""@,
            ),
        },
{
    proof {
        vstd::arithmetic::div_mod::lemma_fundamental_div_mod(tile_len as int, dim as int);
        assert((tile_len as int / dim as int) * dim == dim * (tile_len as int / dim as int))
            by (nonlinear_arith);
    }
    if tile_len % dim != 0 {
        return Err(
            index_error(
                with_numbers(
                    "Invalid ADSampling tile dimensions: tile_len=",
                    tile_len as u64,
                    " dim=",
                    dim as u64,
                    "",
                ),
            ),
        );
    }
    Ok(tile_len / dim)
}

/// Whether a chunk has the values of its points.
pub fn check_loaded_chunk(values: usize, points: usize, dim: usize) -> (result: AnnResult<()>)
    ensures
        match result {
            Ok(_) => values == points * dim,
            Err(error) => values != points * dim && error.is_index(
                "ADSampling loaded chunk size mismatch: got "@ + decimal(values as nat)
                    + " expected "@ + decimal(capped(points * dim) as nat) + ""@,
            ),
        },
{
    if !product_is(points, dim, values) {
        return Err(
            index_error(
                with_numbers(
                    "ADSampling loaded chunk size mismatch: got ",
                    values as u64,
                    " expected ",
                    sat_mul(points, dim) as u64,
                    "",
                ),
            ),
        );
    }
    Ok(())
}

/// How many rows the source of an indexed chunk has, where each point names one.
pub fn indexed_source_rows(
    points: usize,
    offsets: usize,
    source_len: usize,
    dim: usize,
) -> (result: AnnResult<usize>)
    ensures
        match result {
            Ok(rows) => points == offsets && dim > 0 && source_len == rows * dim,
            Err(error) => if points != offsets {
                error.is_index(
                    "ADSampling indexed chunk size mismatch: point_ids="@ + decimal(points as nat)
                        + " source_offsets="@ + decimal(offsets as nat) + ""@,
                )
            } else {
                (dim == 0 || source_len as int % dim as int != 0) && error.is_index(
                    "ADSampling indexed source dimensions mismatch: source_len="@ + decimal(
                        source_len as nat,
                    ) + " dim="@ + decimal(dim as nat) + ""@,
                )
            },
        },
{
    if points != offsets {
        return Err(
            index_error(
                with_numbers(
                    "ADSampling indexed chunk size mismatch: point_ids=",
                    points as u64,
                    " source_offsets=",
                    offsets as u64,
                    "",
                ),
            ),
        );
    }
    if dim == 0 || source_len % dim != 0 {
        return Err(
            index_error(
                with_numbers(
                    "ADSampling indexed source dimensions mismatch: source_len=",
                    source_len as u64,
                    " dim=",
                    dim as u64,
                    "",
                ),
            ),
        );
    }
    proof {
        vstd::arithmetic::div_mod::lemma_fundamental_div_mod(source_len as int, dim as int);
        assert((source_len as int / dim as int) * dim == dim * (source_len as int / dim as int))
            by (nonlinear_arith);
    }
    Ok(source_len / dim)
}

/// The rows of `source` under `offsets`, one behind the other.
pub open spec fn rows_gathered(
    source: Seq<F32>,
    offsets: Seq<usize>,
    dim: int,
    out: Seq<F32>,
) -> bool {
    &&& out.len() == offsets.len() * dim
    &&& forall|i: int|
        0 <= i < offsets.len() ==> row_of(out, dim, i) == row_of(
            source,
            dim,
            #[trigger] offsets[i] as int,
        )
}

/// Gathers the rows of a tile. Fails at the first offset past the source's rows.
pub fn gather_tile(
    source: &[F32],
    source_rows: usize,
    offsets: &[usize],
    dim: usize,
) -> (result: AnnResult<Vec<F32>>)
    requires
        source@.len() == source_rows * dim,
        dim > 0,
        offsets@.len() <= ADS_QUERY_TILE,
    ensures
        match result {
            Ok(out) => rows_gathered(source@, offsets@, dim as int, out@) && forall|i: int|
                0 <= i < offsets@.len() ==> #[trigger] offsets@[i] < source_rows,
            Err(error) => exists|k: int|
                0 <= k < offsets@.len() && (#[trigger] offsets@[k]) >= source_rows
                    && (forall|i: int|
                    0 <= i < k ==> #[trigger] offsets@[i] < source_rows) && error.is_index(
                    "ADSampling indexed source offset "@ + decimal(offsets@[k] as nat)
                        + " exceeds source rows "@ + decimal(source_rows as nat) + ""@,
                ),
        },
{
    let total: usize = source.len();
    let mut out: Vec<F32> = Vec::new();
    proof {
        assert(0 * dim == 0) by (nonlinear_arith);
    }
    for i in 0..offsets.len()
        invariant
            total == source@.len(),
            source@.len() == source_rows * dim,
            dim > 0,
            out@.len() == i * dim,
            forall|k: int| 0 <= k < i ==> #[trigger] offsets@[k] < source_rows,
            forall|k: int|
                0 <= k < i ==> row_of(out@, dim as int, k) == row_of(
                    source@,
                    dim as int,
                    #[trigger] offsets@[k] as int,
                ),
    {
        let offset: usize = offsets[i];
        if offset >= source_rows {
            return Err(
                index_error(
                    with_numbers(
                        "ADSampling indexed source offset ",
                        offset as u64,
                        " exceeds source rows ",
                        source_rows as u64,
                        "",
                    ),
                ),
            );
        }
        proof {
            lemma_row_bounds(offset as int, source_rows as int, dim as int);
        }
        let from: usize = offset * dim;
        let ghost before = out@;
        for d in 0..dim
            invariant
                total == source@.len(),
                from == offset * dim,
                from + dim <= total,
                out@ == before + source@.subrange(from as int, from + d),
        {
            out.push(source[from + d]);
            proof {
                assert(out@ =~= before + source@.subrange(from as int, from + d + 1));
            }
        }
        proof {
            assert((i + 1) * dim == i * dim + dim) by (nonlinear_arith);
            assert forall|k: int| 0 <= k < i + 1 implies row_of(out@, dim as int, k) == row_of(
                source@,
                dim as int,
                #[trigger] offsets@[k] as int,
            ) by {
                if k < i {
                    lemma_row_bounds(k, i as int, dim as int);
                    assert(row_of(out@, dim as int, k) =~= row_of(before, dim as int, k));
                } else {
                    assert(row_of(out@, dim as int, k) =~= source@.subrange(
                        from as int,
                        from + dim,
                    ));
                }
            }
        }
    }
    Ok(out)
}

/// A gathered tile holds what a tile of a source that lists the same rows in order holds.
pub proof fn law_indexed_tile_is_contiguous_tile(
    source: Seq<F32>,
    offsets: Seq<usize>,
    dim: int,
    contiguous: Seq<F32>,
    out: Seq<F32>,
)
    requires
        dim > 0,
        rows_gathered(source, offsets, dim, contiguous),
        rows_gathered(source, offsets, dim, out),
    ensures
        out == contiguous,
{
    assert forall|j: int| 0 <= j < out.len() implies out[j] == contiguous[j] by {
        let i = j / dim;
        vstd::arithmetic::div_mod::lemma_fundamental_div_mod(j, dim);
        vstd::arithmetic::div_mod::lemma_mod_bound(j, dim);
        assert(i * dim == dim * i) by (nonlinear_arith);
        assert(0 <= i < offsets.len()) by (nonlinear_arith)
            requires
                0 <= j < offsets.len() * dim,
                dim > 0,
                i * dim <= j < i * dim + dim,
        ;
        lemma_row_bounds(i, offsets.len() as int, dim);
        let offset = offsets[i];
        assert(row_of(out, dim, i) == row_of(source, dim, offset as int));
        assert(row_of(contiguous, dim, i) == row_of(source, dim, offset as int));
        assert(row_of(out, dim, i)[j - i * dim] == out[j]);
        assert(row_of(contiguous, dim, i)[j - i * dim] == contiguous[j]);
    }
    assert(out =~= contiguous);
}

/// How a level's points are assigned.
#[derive(Clone, Copy, Debug, PartialEq, Eq, Structural)]
pub struct AssignmentPlan {
    /// Leaders that each point takes.
    pub fanout: usize,
    pub config: AdSamplingConfig,
    /// Leaders that are measured in full.
    pub seeds: usize,
    pub chunk_rows: usize,
    pub chunks: usize,
    /// Chunks that may wait to be taken up.
    pub queue_len: usize,
    pub inside_pool: bool,
}

/// Leaders that each point takes: at least one, at most 32, and no more than there are.
pub open spec fn local_fanout(requested: int, leaders: int) -> int {
    least(greatest(least(requested, leaders), 1), 32)
}

impl AssignmentPlan {
    /// The plan for `points` points and `leaders` leaders with `threads` threads.
    pub open spec fn planned(
        params: ForgeANNParams,
        points: int,
        leaders: int,
        requested_fanout: int,
        depth: int,
        level: AdsOverrides,
        general: AdsOverrides,
        threads: int,
        inside_pool: bool,
    ) -> AssignmentPlan {
        let fanout = local_fanout(requested_fanout, leaders);
        let config = if depth == 0 {
            AdSamplingConfig::for_root(params, fanout, level, general)
        } else {
            AdSamplingConfig::for_depth(params, fanout, level, general)
        };
        let chunk_rows = assignment_chunk_rows(points, threads);
        AssignmentPlan {
            fanout: fanout as usize,
            config,
            seeds: seed_count(leaders, config.seed_exact as int, fanout) as usize,
            chunk_rows: chunk_rows as usize,
            chunks: blocks_for(points, chunk_rows) as usize,
            queue_len: (2 * greatest(threads, 1)) as usize,
            inside_pool,
        }
    }
}

/// The chunks of points that are assigned on their own: where each starts and how many
/// points it has.
pub fn assignment_chunks(points: usize, chunk_rows: usize) -> (chunks: Vec<(usize, usize)>)
    requires
        chunk_rows > 0,
    ensures
        chunks_of(points as int, chunk_rows as int, chunks@),
        chunks@.len() == blocks_for(points as int, chunk_rows as int),
{
    let chunks: Vec<(usize, usize)> = sketch_chunks(points, chunk_rows);
    proof {
        lemma_chunk_count(points as int, chunk_rows as int, chunks@);
    }
    chunks
}

/// As many chunks as blocks of points.
proof fn lemma_chunk_count(points: int, chunk_rows: int, chunks: Seq<(usize, usize)>)
    requires
        points >= 0,
        chunk_rows > 0,
        chunks_of(points, chunk_rows, chunks),
    ensures
        chunks.len() == blocks_for(points, chunk_rows),
{
    let count = chunks.len() as int;
    let blocks = blocks_for(points, chunk_rows);
    crate::arith::lemma_blocks_for(points, chunk_rows);
    if count > 0 {
        assert(chunks[count - 1].1 > 0);
    }
    assert(count == blocks) by (nonlinear_arith)
        requires
            count >= 0,
            chunk_rows > 0,
            points >= 0,
            points <= count * chunk_rows,
            count > 0 ==> (count - 1) * chunk_rows < points,
            points <= blocks * chunk_rows,
            blocks * chunk_rows < points + chunk_rows,
    ;
}

/// Plans the assignment of `points` points with `threads` threads.
pub fn plan_assignment_for_threads(
    params: &ForgeANNParams,
    points: usize,
    leaders: usize,
    requested_fanout: usize,
    depth: usize,
    level: &AdsOverrides,
    general: &AdsOverrides,
    threads: usize,
    inside_pool: bool,
) -> (result: AnnResult<AssignmentPlan>)
    requires
        2 * threads <= usize::MAX,
    ensures
        match result {
            Ok(plan) => leaders > 0 && plan == AssignmentPlan::planned(
                *params,
                points as int,
                leaders as int,
                requested_fanout as int,
                depth as int,
                *level,
                *general,
                threads as int,
                inside_pool,
            ),
            Err(error) => leaders == 0 && error.is_index(
                "ADSampling assignment requires at least one leader"@,
            ),
        },
{
    if leaders == 0 {
        return Err(
            index_error("ADSampling assignment requires at least one leader".to_owned()),
        );
    }
    let least_one: usize = max_usize(min_usize(requested_fanout, leaders), 1);
    let fanout: usize = min_usize(least_one, 32);
    let config: AdSamplingConfig = if depth == 0 {
        AdSamplingConfig::root_from_params(params, fanout, level, general)
    } else {
        AdSamplingConfig::depth_from_params(params, fanout, level, general)
    };
    let chunk_rows: usize = choose_adsampling_assignment_chunk_rows_for_threads(points, threads);
    Ok(
        AssignmentPlan {
            fanout,
            config,
            seeds: min_usize(leaders, max_usize(max_usize(config.seed_exact, fanout), 1)),
            chunk_rows,
            chunks: div_ceil(points, chunk_rows),
            queue_len: 2 * max_usize(threads, 1),
            inside_pool,
        },
    )
}

/// Plans for the caller's pool. No pool has so many threads that twice their number
/// cannot be told; where one had, half that number is planned for.
pub fn plan_assignment(
    params: &ForgeANNParams,
    points: usize,
    leaders: usize,
    requested_fanout: usize,
    depth: usize,
    level: &AdsOverrides,
    general: &AdsOverrides,
) -> (result: AnnResult<AssignmentPlan>)
    ensures
        match result {
            Ok(plan) => leaders > 0 && exists|threads: usize, inside_pool: bool|
                threads >= 1 && plan == #[trigger] AssignmentPlan::planned(
                    *params,
                    points as int,
                    leaders as int,
                    requested_fanout as int,
                    depth as int,
                    *level,
                    *general,
                    threads as int,
                    inside_pool,
                ),
            Err(error) => leaders == 0 && error.is_index(
                "ADSampling assignment requires at least one leader"@,
            ),
        },
{
    let threads: usize = min_usize(current_num_threads(), usize::MAX / 2);
    let inside_pool: bool = current_thread_index().is_some();
    plan_assignment_for_threads(
        params,
        points,
        leaders,
        requested_fanout,
        depth,
        level,
        general,
        threads,
        inside_pool,
    )
}

/// Chunks that come in any order and are handed on in order, up to the first failure.
#[derive(Debug)]
pub struct ChunkAssembler {
    waiting: Vec<Option<AnnResult<AdSamplingChunkResult>>>,
    next: usize,
    arrived: usize,
    pending_max: usize,
    failure: Option<AnnError>,
    totals: AdsTotals,
}

impl ChunkAssembler {
    /// What has come of each chunk and was not taken yet.
    pub closed spec fn slots(&self) -> Seq<Option<AnnResult<AdSamplingChunkResult>>> {
        self.waiting@
    }

    /// The chunk whose turn it is.
    pub closed spec fn turn(&self) -> int {
        self.next as int
    }

    pub closed spec fn error(&self) -> Option<AnnError> {
        self.failure
    }

    pub closed spec fn sums(&self) -> AdsTotals {
        self.totals
    }

    /// The most chunks that had come and were not taken.
    pub closed spec fn most_pending(&self) -> int {
        self.pending_max as int
    }

    pub closed spec fn pending(&self) -> int {
        self.arrived as int
    }

    pub open spec fn wf(&self) -> bool {
        &&& self.turn() <= self.slots().len()
        &&& self.pending() == filled(self.slots(), self.slots().len() as int)
        &&& forall|i: int| 0 <= i < self.turn() ==> (#[trigger] self.slots()[i]) is None
    }

    pub fn new(chunks: usize) -> (assembler: Self)
        ensures
            assembler.wf(),
            assembler.turn() == 0,
            assembler.pending() == 0,
            assembler.most_pending() == 0,
            assembler.error() is None,
            assembler.sums() == AdsTotals::zero(),
            assembler.slots().len() == chunks,
            forall|i: int| 0 <= i < chunks ==> (#[trigger] assembler.slots()[i]) is None,
    {
        let mut waiting: Vec<Option<AnnResult<AdSamplingChunkResult>>> = Vec::with_capacity(chunks);
        for i in 0..chunks
            invariant
                waiting@.len() == i,
                forall|j: int| 0 <= j < i ==> (#[trigger] waiting@[j]) is None,
        {
            waiting.push(None);
        }
        proof {
            lemma_none_filled(waiting@, chunks as int);
        }
        ChunkAssembler {
            waiting,
            next: 0,
            arrived: 0,
            pending_max: 0,
            failure: None,
            totals: AdsTotals::new(),
        }
    }

    /// A chunk has come.
    pub fn receive(&mut self, chunk: usize, result: AnnResult<AdSamplingChunkResult>)
        requires
            old(self).wf(),
            old(self).turn() <= chunk < old(self).slots().len(),
            old(self).slots()[chunk as int] is None,
        ensures
            final(self).wf(),
            final(self).slots() == old(self).slots().update(chunk as int, Some(result)),
            final(self).turn() == old(self).turn(),
            final(self).error() == old(self).error(),
            final(self).sums() == old(self).sums(),
            final(self).pending() == old(self).pending() + 1,
            final(self).most_pending() == greatest(
                old(self).most_pending(),
                old(self).pending() + 1,
            ),
    {
        let ghost before = self.waiting@;
        let total: usize = self.waiting.len();
        proof {
            lemma_filled_update(before, chunk as int, Some(result), total as int);
            lemma_filled_bound(before, chunk as int, total as int);
        }
        self.waiting.set(chunk, Some(result));
        self.arrived = self.arrived + 1;
        self.pending_max = max_usize(self.pending_max, self.arrived);
    }

    /// What came of the chunk whose turn it is.
    fn take_next(&mut self) -> (result: Option<AnnResult<AdSamplingChunkResult>>)
        requires
            old(self).wf(),
        ensures
            final(self).wf(),
            final(self).error() == old(self).error(),
            final(self).sums() == old(self).sums(),
            final(self).most_pending() == old(self).most_pending(),
            final(self).slots().len() == old(self).slots().len(),
            if old(self).turn() < old(self).slots().len()
                && old(self).slots()[old(self).turn()] is Some {
                &&& result == old(self).slots()[old(self).turn()]
                &&& final(self).turn() == old(self).turn() + 1
                &&& final(self).slots() == old(self).slots().update(old(self).turn(), None)
                &&& final(self).pending() == old(self).pending() - 1
            } else {
                &&& result is None
                &&& *final(self) == *old(self)
            },
    {
        if self.next >= self.waiting.len() {
            return None;
        }
        let ghost before = self.waiting@;
        let total: usize = self.waiting.len();
        let turn: usize = self.next;
        if self.waiting[turn].is_none() {
            return None;
        }
        let mut taken: Option<AnnResult<AdSamplingChunkResult>> = None;
        core::mem::swap(&mut taken, &mut self.waiting[turn]);
        proof {
            assert(self.waiting@ =~= before.update(turn as int, None));
            lemma_filled_update(before, turn as int, None, total as int);
            lemma_filled_some(before, turn as int, total as int);
        }
        self.next = self.next + 1;
        self.arrived = self.arrived - 1;
        taken
    }

    /// The chunk to hand on next, if it has come and nothing has failed. A chunk that
    /// came as a failure is the end: what comes behind it is dropped.
    pub fn next_ready(&mut self) -> (chunk: Option<AdSamplingChunkResult>)
        requires
            old(self).wf(),
            forall|i: int|
                0 <= i < old(self).slots().len() ==> (#[trigger] old(self).slots()[i] matches Some(
                    Ok(ready),
                ) ==> old(self).sums().mergeable(ready.totals)),
        ensures
            final(self).wf(),
            final(self).slots().len() == old(self).slots().len(),
            final(self).most_pending() == old(self).most_pending(),
            match chunk {
                Some(ready) => {
                    &&& old(self).error() is None
                    &&& old(self).turn() < old(self).slots().len()
                    &&& old(self).slots()[old(self).turn()] == Some(
                        Ok::<AdSamplingChunkResult, AnnError>(ready),
                    )
                    &&& final(self).turn() == old(self).turn() + 1
                    &&& final(self).slots() == old(self).slots().update(old(self).turn(), None)
                    &&& final(self).error() is None
                    &&& final(self).sums() == old(self).sums().merged(ready.totals)
                },
                None => {
                    &&& final(self).sums() == old(self).sums()
                    &&& final(self).turn() >= old(self).turn()
                    &&& old(self).error() is Some ==> final(self).error() == old(self).error()
                    &&& old(self).error() is None && (old(self).turn() >= old(self).slots().len()
                        || old(self).slots()[old(self).turn()] is None) ==> *final(self)
                            == *old(self)
                    &&& old(self).error() is None && old(self).turn() < old(self).slots().len()
                        && old(self).slots()[old(self).turn()] is Some
                            ==> (old(self).slots()[old(self).turn()] matches Some(Err(error))
                            && final(self).error() == Some(
                        error,
                    ))
                    &&& old(self).error() is Some ==> final(self).turn()
                        >= final(self).slots().len()
                        || final(self).slots()[final(self).turn()] is None
                },
            },
    {
        if self.failure.is_none() {
            match self.take_next() {
                None => return None,
                Some(Ok(ready)) => {
                    self.totals.merge(&ready.totals);
                    return Some(ready);
                },
                Some(Err(error)) => {
                    self.failure = Some(error);
                },
            }
        }
        let ghost kept = self.failure;
        let mut more: bool = true;
        while more
            invariant
                self.wf(),
                self.slots().len() == old(self).slots().len(),
                self.most_pending() == old(self).most_pending(),
                self.sums() == old(self).sums(),
                self.turn() >= old(self).turn(),
                self.error() == kept,
                kept is Some,
                !more ==> self.turn() >= self.slots().len() || self.slots()[self.turn()] is None,
            decreases self.slots().len() - self.turn(), (if more {
                1int
            } else {
                0int
            }),
        {
            more = self.take_next().is_some();
        }
        None
    }

    /// Handing on the last chunk has failed.
    pub fn fail(&mut self, error: AnnError)
        requires
            old(self).wf(),
        ensures
            final(self).wf(),
            final(self).slots() == old(self).slots(),
            final(self).turn() == old(self).turn(),
            final(self).sums() == old(self).sums(),
            final(self).most_pending() == old(self).most_pending(),
            final(self).error() == match old(self).error() {
                Some(first) => Some(first),
                None => Some(error),
            },
    {
        if self.failure.is_none() {
            self.failure = Some(error);
        }
    }

    /// The first failure, or the sums of all chunks and the most that had to wait.
    pub fn finish(self) -> (result: AnnResult<(AdsTotals, usize)>)
        ensures
            match result {
                Ok((totals, pending)) => self.error() is None && totals == self.sums() && pending
                    == self.most_pending(),
                Err(error) => self.error() == Some(error),
            },
    {
        match self.failure {
            Some(error) => Err(error),
            None => Ok((self.totals, self.pending_max)),
        }
    }
}

/// How many of the first `n` slots hold something.
pub open spec fn filled(slots: Seq<Option<AnnResult<AdSamplingChunkResult>>>, n: int) -> int
    decreases n,
{
    if n <= 0 {
        0
    } else {
        filled(slots, n - 1) + if slots[n - 1] is Some {
            1int
        } else {
            0
        }
    }
}

proof fn lemma_none_filled(slots: Seq<Option<AnnResult<AdSamplingChunkResult>>>, n: int)
    requires
        0 <= n <= slots.len(),
        forall|i: int| 0 <= i < slots.len() ==> (#[trigger] slots[i]) is None,
    ensures
        filled(slots, n) == 0,
    decreases n,
{
    if n > 0 {
        lemma_none_filled(slots, n - 1);
        assert(slots[n - 1] is None);
    }
}

proof fn lemma_filled_update(
    slots: Seq<Option<AnnResult<AdSamplingChunkResult>>>,
    at: int,
    value: Option<AnnResult<AdSamplingChunkResult>>,
    n: int,
)
    requires
        0 <= at < slots.len(),
        0 <= n <= slots.len(),
    ensures
        filled(slots.update(at, value), n) == filled(slots, n) + if at < n {
            (if value is Some {
                1int
            } else {
                0
            }) - (if slots[at] is Some {
                1int
            } else {
                0
            })
        } else {
            0
        },
    decreases n,
{
    if n > 0 {
        lemma_filled_update(slots, at, value, n - 1);
    }
}

/// An empty slot leaves room.
proof fn lemma_filled_bound(slots: Seq<Option<AnnResult<AdSamplingChunkResult>>>, at: int, n: int)
    requires
        0 <= at < slots.len(),
        0 <= n <= slots.len(),
        slots[at] is None,
    ensures
        0 <= filled(slots, n) <= n - if at < n {
            1int
        } else {
            0
        },
    decreases n,
{
    if n > 0 {
        lemma_filled_bound(slots, at, n - 1);
    }
}

proof fn lemma_filled_some(slots: Seq<Option<AnnResult<AdSamplingChunkResult>>>, at: int, n: int)
    requires
        0 <= at < slots.len(),
        0 <= n <= slots.len(),
        slots[at] is Some,
    ensures
        filled(slots, n) >= if at < n {
            1int
        } else {
            0
        },
    decreases n,
{
    if n > 0 {
        lemma_filled_some(slots, at, n - 1);
    }
}

} // verus!
