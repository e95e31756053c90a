//! Building a sketch file chunk by chunk, and the start point that falls out of it.

use vstd::prelude::*;
use vstd::string::*;

use crate::ann_result::{AnnError, AnnResult};
use crate::arith::{blocks_for, capped, div_ceil, greatest, least, max_usize, min_usize, sat_mul};
use crate::direct_io::file_written;
use crate::float_bits::{F32, F64};
use crate::le_bytes::{bytes_u64, lemma_value_bytes_part, value_bytes};
use crate::params::ForgeANNParams;
use crate::sketch_file::{sketch_file_bytes, SketchFile, HEADER_BYTES};
use crate::text::{decimal, number_text, with_numbers};

verus! {

/// Bytes of a chunk per thread where no cache size is set.
pub const DEFAULT_SKETCH_BUILD_CHUNK_BYTES: usize = 0x400_0000;

/// The least rows of a chunk.
pub const MIN_SKETCH_BUILD_CHUNK_ROWS: usize = 1024;

/// Points that a start point is chosen from.
pub const SKETCH_START_SAMPLE_POINTS: usize = 8192;

/// What a sketch worker takes beside its hyperplanes and its point.
pub const SKETCH_WORKER_RESERVE_BYTES: usize = 0x40_0000;

/// The bytes of a point and its sketch.
pub open spec fn row_bytes(width: int, dim: int) -> int {
    greatest(capped(capped(width * 4) + capped(dim * 4)), 1)
}

pub fn sketch_build_bytes_per_row(width: usize, dim: usize) -> (bytes: usize)
    ensures
        bytes == row_bytes(width as int, dim as int),
        bytes >= 1,
{
    max_usize(sat_mul(width, 4).saturating_add(sat_mul(dim, 4)), 1)
}

/// The threads that were asked for; 0 asks for as many as the machine offers.
pub fn requested_sketch_threads(requested_threads: u32, available: usize) -> (threads: usize)
    ensures
        threads == greatest(
            if requested_threads == 0 {
                available as int
            } else {
                requested_threads as int
            },
            1,
        ),
{
    let requested: usize = if requested_threads == 0 {
        available
    } else {
        requested_threads as usize
    };
    max_usize(requested, 1)
}

/// The sketch workers that fit a memory budget.
pub open spec fn memory_threads(budget: int, dim: int, width: int) -> int {
    let per_worker = capped(
        capped(capped(capped(dim * width) * 4) + capped(dim * 4)) + SKETCH_WORKER_RESERVE_BYTES,
    );
    greatest(budget / per_worker, 1)
}

pub fn sketch_build_memory_thread_limit(
    params: &ForgeANNParams,
    dim: usize,
    width: usize,
) -> (threads: usize)
    ensures
        threads == memory_threads(params.memory_budget(), dim as int, width as int),
        threads >= 1,
{
    let per_worker: usize = sat_mul(sat_mul(dim, width), 4).saturating_add(
        sat_mul(dim, 4),
    ).saturating_add(SKETCH_WORKER_RESERVE_BYTES);
    max_usize(params.effective_oom_memory_budget_bytes() / per_worker, 1)
}

/// How a sketch file is built.
#[derive(Clone, Copy, Debug, PartialEq, Eq, Structural)]
pub struct SketchBuildPlan {
    pub threads: usize,
    pub chunk_rows: usize,
    pub estimated_concurrent_bytes: usize,
    pub budget_bytes: usize,
    pub bytes_per_row: usize,
}

impl SketchBuildPlan {
    /// The threads share one budget: that of the sketch cache where one is set, and then
    /// no more threads than have a chunk of the least size each. A thread's chunk takes
    /// its share of the budget, but at least the least rows.
    pub open spec fn planned(
        cache: int,
        threads_allowed: int,
        width: int,
        dim: int,
    ) -> SketchBuildPlan {
        let per_row = row_bytes(width, dim);
        let budget = if cache == 0 {
            capped(DEFAULT_SKETCH_BUILD_CHUNK_BYTES * threads_allowed)
        } else {
            cache
        };
        let least_chunk = greatest(capped(MIN_SKETCH_BUILD_CHUNK_ROWS * per_row), 1);
        let threads = if cache == 0 {
            threads_allowed
        } else {
            least(threads_allowed, greatest(budget / least_chunk, 1))
        };
        let chunk_rows = greatest(
            greatest(budget / threads, per_row) / per_row,
            MIN_SKETCH_BUILD_CHUNK_ROWS as int,
        );
        SketchBuildPlan {
            threads: threads as usize,
            chunk_rows: chunk_rows as usize,
            estimated_concurrent_bytes: capped(capped(chunk_rows * per_row) * threads) as usize,
            budget_bytes: budget as usize,
            bytes_per_row: per_row as usize,
        }
    }

    pub fn for_params(
        params: &ForgeANNParams,
        width: usize,
        dim: usize,
        requested: usize,
    ) -> (plan: SketchBuildPlan)
        ensures
            plan == SketchBuildPlan::planned(
                params.oom_sketch_cache_bytes as int,
                least(
                    greatest(requested as int, 1),
                    memory_threads(params.memory_budget(), dim as int, width as int),
                ),
                width as int,
                dim as int,
            ),
            1 <= plan.threads <= greatest(requested as int, 1),
            plan.chunk_rows >= MIN_SKETCH_BUILD_CHUNK_ROWS,
    {
        let allowed: usize = min_usize(
            max_usize(requested, 1),
            sketch_build_memory_thread_limit(params, dim, width),
        );
        let bytes_per_row: usize = sketch_build_bytes_per_row(width, dim);
        let cache: usize = params.oom_sketch_cache_bytes;
        let budget_bytes: usize = if cache == 0 {
            sat_mul(DEFAULT_SKETCH_BUILD_CHUNK_BYTES, allowed)
        } else {
            cache
        };
        let threads: usize = if cache == 0 {
            allowed
        } else {
            let least_chunk: usize = max_usize(
                sat_mul(MIN_SKETCH_BUILD_CHUNK_ROWS, bytes_per_row),
                1,
            );
            min_usize(allowed, max_usize(budget_bytes / least_chunk, 1))
        };
        let share: usize = max_usize(budget_bytes / threads, bytes_per_row);
        let chunk_rows: usize = max_usize(share / bytes_per_row, MIN_SKETCH_BUILD_CHUNK_ROWS);
        SketchBuildPlan {
            threads,
            chunk_rows,
            estimated_concurrent_bytes: sat_mul(sat_mul(chunk_rows, bytes_per_row), threads),
            budget_bytes,
            bytes_per_row,
        }
    }
}

/// Every how many points one is a candidate for the start point.
pub open spec fn sample_stride(points: int) -> int {
    if points <= SKETCH_START_SAMPLE_POINTS {
        1
    } else {
        blocks_for(points, SKETCH_START_SAMPLE_POINTS as int)
    }
}

pub fn sketch_start_sample_stride(num_points: usize) -> (stride: usize)
    ensures
        stride == sample_stride(num_points as int),
        stride >= 1,
{
    if num_points <= SKETCH_START_SAMPLE_POINTS {
        1
    } else {
        let stride: usize = div_ceil(num_points, SKETCH_START_SAMPLE_POINTS);
        proof {
            assert(num_points as int / 8192 >= 1);
        }
        stride
    }
}

/// The chunks cover the points in order, each but the last is full, and none is empty.
pub open spec fn chunks_of(points: int, chunk_rows: int, chunks: Seq<(usize, usize)>) -> bool {
    &&& forall|c: int|
        0 <= c < chunks.len() ==> {
            &&& (#[trigger] chunks[c]).0 == c * chunk_rows
            &&& chunks[c].1 == least(chunk_rows, points - c * chunk_rows)
            &&& chunks[c].1 > 0
        }
    &&& points <= chunks.len() * chunk_rows
}

/// The chunks of a file's rows: where each starts and how many rows it has.
pub fn sketch_chunks(num_points: usize, chunk_rows: usize) -> (chunks: Vec<(usize, usize)>)
    requires
        chunk_rows > 0,
    ensures
        chunks_of(num_points as int, chunk_rows as int, chunks@),
{
    let mut chunks: Vec<(usize, usize)> = Vec::new();
    let mut start: usize = 0;
    proof {
        assert(chunks@.len() * chunk_rows == 0) by (nonlinear_arith)
            requires
                chunks@.len() == 0,
        ;
    }
    while start < num_points
        invariant
            chunk_rows > 0,
            start == least(chunks@.len() * chunk_rows, num_points as int),
            forall|c: int|
                0 <= c < chunks@.len() ==> {
                    &&& (#[trigger] chunks@[c]).0 == c * chunk_rows
                    &&& chunks@[c].1 == least(chunk_rows as int, num_points - c * chunk_rows)
                    &&& chunks@[c].1 > 0
                },
        decreases num_points - start,
    {
        let rows: usize = min_usize(num_points - start, chunk_rows);
        proof {
            assert((chunks@.len() + 1) * chunk_rows == chunks@.len() * chunk_rows + chunk_rows)
                by (nonlinear_arith);
        }
        chunks.push((start, rows));
        start = start + rows;
    }
    chunks
}

/// Every point is in one chunk and in no other.
pub proof fn law_chunks_cover_every_point(
    points: int,
    chunk_rows: int,
    chunks: Seq<(usize, usize)>,
    point: int,
    c: int,
)
    requires
        chunk_rows > 0,
        chunks_of(points, chunk_rows, chunks),
        0 <= point < points,
    ensures
        0 <= point / chunk_rows < chunks.len(),
        0 <= c < chunks.len() ==> (chunks[c].0 <= point < chunks[c].0 + chunks[c].1 <==> c == point
            / chunk_rows),
{
    let own = point / chunk_rows;
    vstd::arithmetic::div_mod::lemma_fundamental_div_mod(point, chunk_rows);
    vstd::arithmetic::div_mod::lemma_mod_bound(point, chunk_rows);
    assert(own * chunk_rows == chunk_rows * own) by (nonlinear_arith);
    assert(own >= 0) by (nonlinear_arith)
        requires
            own * chunk_rows <= point < own * chunk_rows + chunk_rows,
            point >= 0,
            chunk_rows > 0,
    ;
    assert(own < chunks.len()) by (nonlinear_arith)
        requires
            own * chunk_rows <= point,
            point < chunks.len() * chunk_rows,
            chunk_rows > 0,
    ;
    if 0 <= c < chunks.len() {
        let first = chunks[c].0;
        assert(first == c * chunk_rows);
        if c < own {
            assert(c * chunk_rows + chunk_rows <= own * chunk_rows) by (nonlinear_arith)
                requires
                    c < own,
                    chunk_rows > 0,
            ;
        }
        if own < c {
            assert(own * chunk_rows + chunk_rows <= c * chunk_rows) by (nonlinear_arith)
                requires
                    own < c,
                    chunk_rows > 0,
            ;
        }
    }
}

/// The bytes of a chunk of rows.
pub open spec fn chunk_bytes(width: int, values: Seq<F32>, chunk: (usize, usize)) -> Seq<u8> {
    value_bytes(values.subrange(chunk.0 * width, (chunk.0 + chunk.1) * width))
}

/// The file after the first `n` chunks of `order` were written, each where its rows are.
pub open spec fn chunks_written(
    file: Seq<u8>,
    shape: SketchFile,
    values: Seq<F32>,
    chunks: Seq<(usize, usize)>,
    order: Seq<int>,
    n: int,
) -> Seq<u8>
    decreases n,
{
    if n <= 0 {
        file
    } else {
        file_written(
            chunks_written(file, shape, values, chunks, order, n - 1),
            shape.row_start(chunks[order[n - 1]].0 as int),
            chunk_bytes(shape.width as int, values, chunks[order[n - 1]]),
        )
    }
}

/// Where a chunk's bytes are, and what they are.
proof fn lemma_chunk_place(
    shape: SketchFile,
    values: Seq<F32>,
    chunk_rows: int,
    chunks: Seq<(usize, usize)>,
    c: int,
)
    requires
        values.len() == shape.rows * shape.width,
        chunk_rows > 0,
        chunks_of(shape.rows as int, chunk_rows, chunks),
        0 <= c < chunks.len(),
    ensures
        ({
            let width = shape.width as int;
            let from = chunks[c].0 * width;
            let to = (chunks[c].0 + chunks[c].1) * width;
            &&& 0 <= from <= to <= values.len()
            &&& shape.row_start(chunks[c].0 as int) == HEADER_BYTES + 4 * from
            &&& chunk_bytes(width, values, chunks[c]) == value_bytes(values).subrange(
                4 * from,
                4 * to,
            )
            &&& chunk_bytes(width, values, chunks[c]).len() == 4 * to - 4 * from
        }),
{
    let width = shape.width as int;
    let start = chunks[c].0 as int;
    let end = chunks[c].0 + chunks[c].1;
    assert(chunks[c].0 == c * chunk_rows);
    assert(0 <= start * width <= end * width <= shape.rows * width) by (nonlinear_arith)
        requires
            0 <= start <= end <= shape.rows,
            0 <= width,
    ;
    assert(start * (width * 4) == 4 * (start * width)) by (nonlinear_arith);
    lemma_value_bytes_part(values, start * width, end * width);
}

/// A byte behind the header has been written once the chunk of its row has.
proof fn lemma_byte_written(
    file: Seq<u8>,
    shape: SketchFile,
    values: Seq<F32>,
    chunk_rows: int,
    chunks: Seq<(usize, usize)>,
    order: Seq<int>,
    n: int,
    p: int,
)
    requires
        values.len() == shape.rows * shape.width,
        chunk_rows > 0,
        chunks_of(shape.rows as int, chunk_rows, chunks),
        0 <= n <= order.len(),
        forall|k: int| 0 <= k < order.len() ==> 0 <= #[trigger] order[k] < chunks.len(),
        0 <= p < 4 * values.len(),
        shape.width > 0,
    ensures
        ({
            let own = p / 4 / shape.width as int / chunk_rows;
            let after = chunks_written(file, shape, values, chunks, order, n);
            order.take(n).contains(own) ==> HEADER_BYTES + p < after.len() && after[HEADER_BYTES
                + p] == value_bytes(values)[p]
        }),
    decreases n,
{
    let width = shape.width as int;
    let row = p / 4 / width;
    let own = row / chunk_rows;
    if n > 0 {
        lemma_byte_written(file, shape, values, chunk_rows, chunks, order, n - 1, p);
        let c = order[n - 1];
        lemma_chunk_place(shape, values, chunk_rows, chunks, c);
        vstd::arithmetic::div_mod::lemma_fundamental_div_mod(p / 4, width);
        vstd::arithmetic::div_mod::lemma_mod_bound(p / 4, width);
        assert(0 <= row < shape.rows) by (nonlinear_arith)
            requires
                p / 4 == width * row + (p / 4) % width,
                0 <= (p / 4) % width < width,
                0 <= p / 4 < shape.rows * width,
                width > 0,
        ;
        law_chunks_cover_every_point(shape.rows as int, chunk_rows, chunks, row, c);
        let start = chunks[c].0 as int;
        let end = chunks[c].0 + chunks[c].1;
        assert((start <= row < end) <==> (start * width <= p / 4 < end * width))
            by (nonlinear_arith)
            requires
                p / 4 == width * row + (p / 4) % width,
                0 <= (p / 4) % width < width,
                width > 0,
        ;
        assert(order.take(n) =~= order.take(n - 1).push(c));
        if order.take(n).contains(own) && own != c {
            let k = choose|k: int| 0 <= k < n && order.take(n)[k] == own;
            assert(order.take(n - 1)[k] == own);
        }
    } else {
        assert(order.take(0).len() == 0);
    }
}

/// Writing chunks leaves the header as it was, and goes no further than the rows.
proof fn lemma_chunks_keep_header(
    file: Seq<u8>,
    shape: SketchFile,
    values: Seq<F32>,
    chunk_rows: int,
    chunks: Seq<(usize, usize)>,
    order: Seq<int>,
    n: int,
)
    requires
        values.len() == shape.rows * shape.width,
        chunk_rows > 0,
        chunks_of(shape.rows as int, chunk_rows, chunks),
        0 <= n <= order.len(),
        forall|k: int| 0 <= k < order.len() ==> 0 <= #[trigger] order[k] < chunks.len(),
        HEADER_BYTES <= file.len() <= HEADER_BYTES + 4 * values.len(),
    ensures
        ({
            let after = chunks_written(file, shape, values, chunks, order, n);
            &&& HEADER_BYTES <= after.len() <= HEADER_BYTES + 4 * values.len()
            &&& after.take(HEADER_BYTES as int) == file.take(HEADER_BYTES as int)
        }),
    decreases n,
{
    if n > 0 {
        lemma_chunks_keep_header(file, shape, values, chunk_rows, chunks, order, n - 1);
        lemma_chunk_place(shape, values, chunk_rows, chunks, order[n - 1]);
        let before = chunks_written(file, shape, values, chunks, order, n - 1);
        let after = chunks_written(file, shape, values, chunks, order, n);
        assert forall|i: int| 0 <= i < HEADER_BYTES implies #[trigger] after.take(
            HEADER_BYTES as int,
        )[i] == file.take(HEADER_BYTES as int)[i] by {
            assert(before.take(HEADER_BYTES as int)[i] == before[i]);
        }
        assert(after.take(HEADER_BYTES as int) =~= file.take(HEADER_BYTES as int));
    }
}

/// A sequence is its head followed by its body.
proof fn lemma_header_and_body(whole: Seq<u8>, header: Seq<u8>, body: Seq<u8>)
    requires
        whole.len() == header.len() + body.len(),
        whole.take(header.len() as int) == header,
        forall|p: int| 0 <= p < body.len() ==> #[trigger] whole[header.len() + p] == body[p],
    ensures
        whole == header + body,
{
    assert forall|i: int| 0 <= i < whole.len() implies whole[i] == (header + body)[i] by {
        if i < header.len() {
            assert(whole.take(header.len() as int)[i] == whole[i]);
        } else {
            assert(whole[header.len() + (i - header.len())] == body[i - header.len()]);
        }
    }
    assert(whole =~= header + body);
}

/// Once all chunks have been written, every byte behind the header has.
proof fn lemma_every_byte_written(
    file: Seq<u8>,
    shape: SketchFile,
    values: Seq<F32>,
    chunk_rows: int,
    chunks: Seq<(usize, usize)>,
    order: Seq<int>,
    p: int,
)
    requires
        values.len() == shape.rows * shape.width,
        chunk_rows > 0,
        chunks_of(shape.rows as int, chunk_rows, chunks),
        forall|k: int| 0 <= k < order.len() ==> 0 <= #[trigger] order[k] < chunks.len(),
        forall|c: int| 0 <= c < chunks.len() ==> #[trigger] order.contains(c),
        0 <= p < 4 * values.len(),
    ensures
        ({
            let after = chunks_written(file, shape, values, chunks, order, order.len() as int);
            HEADER_BYTES + p < after.len() && after[HEADER_BYTES + p] == value_bytes(values)[p]
        }),
{
    let n = order.len() as int;
    let width = shape.width as int;
    if width == 0 {
        assert(values.len() == 0) by (nonlinear_arith)
            requires
                values.len() == shape.rows * width,
                width == 0,
        ;
    }
    vstd::arithmetic::div_mod::lemma_fundamental_div_mod(p / 4, width);
    vstd::arithmetic::div_mod::lemma_mod_bound(p / 4, width);
    let row = p / 4 / width;
    assert(0 <= row < shape.rows) by (nonlinear_arith)
        requires
            p / 4 == width * row + (p / 4) % width,
            0 <= (p / 4) % width < width,
            0 <= p / 4 < shape.rows * width,
            width > 0,
    ;
    law_chunks_cover_every_point(shape.rows as int, chunk_rows, chunks, row, 0);
    assert(order.contains(row / chunk_rows));
    assert(order.take(n) =~= order);
    lemma_byte_written(file, shape, values, chunk_rows, chunks, order, n, p);
}

/// A file whose chunks were written one by one, by whichever thread and in any order, is
/// the file of all rows written at once.
pub proof fn law_chunks_make_the_file(
    file: Seq<u8>,
    shape: SketchFile,
    values: Seq<F32>,
    chunk_rows: int,
    chunks: Seq<(usize, usize)>,
    order: Seq<int>,
)
    requires
        values.len() == shape.rows * shape.width,
        chunk_rows > 0,
        chunks_of(shape.rows as int, chunk_rows, chunks),
        forall|k: int| 0 <= k < order.len() ==> 0 <= #[trigger] order[k] < chunks.len(),
        forall|c: int| 0 <= c < chunks.len() ==> #[trigger] order.contains(c),
        HEADER_BYTES <= file.len() <= HEADER_BYTES + 4 * values.len(),
        file.take(HEADER_BYTES as int) == bytes_u64(shape.rows as u64) + bytes_u64(
            shape.width as u64,
        ),
    ensures
        chunks_written(file, shape, values, chunks, order, order.len() as int)
            == sketch_file_bytes(shape.rows, shape.width, values),
{
    let n = order.len() as int;
    let after = chunks_written(file, shape, values, chunks, order, n);
    let header = bytes_u64(shape.rows as u64) + bytes_u64(shape.width as u64);
    lemma_chunks_keep_header(file, shape, values, chunk_rows, chunks, order, n);
    assert(value_bytes(values).len() == 4 * values.len());
    assert forall|p: int| 0 <= p < value_bytes(values).len() implies HEADER_BYTES + p < after.len()
        && #[trigger] after[HEADER_BYTES + p] == value_bytes(values)[p] by {
        lemma_every_byte_written(file, shape, values, chunk_rows, chunks, order, p);
    }
    assert(header.len() == HEADER_BYTES) by {
        assert(file.take(HEADER_BYTES as int).len() == HEADER_BYTES);
    }
    if values.len() > 0 {
        lemma_every_byte_written(
            file,
            shape,
            values,
            chunk_rows,
            chunks,
            order,
            4 * values.len() - 1,
        );
    }
    lemma_header_and_body(after, header, value_bytes(values));
}

/// Whether a point is a candidate for the start point.
pub fn is_start_sample(pid: usize, stride: usize) -> (result: bool)
    ensures
        result == (pid as int % greatest(stride as int, 1) == 0),
{
    pid % max_usize(stride, 1) == 0
}

/// A candidate for the start point and its distance from the mean of all points.
#[derive(Clone, Copy, Debug, PartialEq, Eq, Structural)]
pub struct SketchStartSample {
    pub pid: u32,
    pub dist: F64,
}

/// `a` comes before `b`: nearer, or as near with a smaller id.
pub open spec fn sample_before(a: SketchStartSample, b: SketchStartSample) -> bool {
    a.dist.rank() < b.dist.rank() || (a.dist.rank() == b.dist.rank() && a.pid <= b.pid)
}

/// `start` is the candidate nearest to the mean, and among several the one with the
/// smallest id. Candidates at no finite distance do not count.
pub open spec fn is_medoid_start(
    rows: int,
    samples: Seq<SketchStartSample>,
    start: Option<u32>,
) -> bool {
    match start {
        Some(pid) => rows > 0 && exists|i: int|
            0 <= i < samples.len() && (#[trigger] samples[i]).pid == pid && samples[i].dist.finite()
                && forall|j: int|
                0 <= j < samples.len() && (#[trigger] samples[j]).dist.finite() ==> sample_before(
                    samples[i],
                    samples[j],
                ),
        None => rows == 0 || forall|i: int|
            0 <= i < samples.len() ==> !(#[trigger] samples[i]).dist.finite(),
    }
}

/// The point that a search may start from, by the sampled rows.
pub fn sampled_medoid_start(rows: usize, samples: &[SketchStartSample]) -> (start: Option<u32>)
    ensures
        is_medoid_start(rows as int, samples@, start),
{
    if rows == 0 {
        return None;
    }
    let mut best: Option<SketchStartSample> = None;
    for i in 0..samples.len()
        invariant
            match best {
                Some(sample) => {
                    &&& sample.dist.finite()
                    &&& exists|k: int| 0 <= k < i && #[trigger] samples@[k] == sample
                    &&& forall|j: int|
                        0 <= j < i && (#[trigger] samples@[j]).dist.finite() ==> sample_before(
                            sample,
                            samples@[j],
                        )
                },
                None => forall|j: int|
                    0 <= j < i ==> !(#[trigger] samples@[j]).dist.finite(),
            },
    {
        let sample: SketchStartSample = samples[i];
        if sample.dist.is_finite() {
            let replace: bool = match best {
                Some(held) => !(held.dist.lt(sample.dist) || (held.dist.le(sample.dist)
                    && sample.dist.le(held.dist) && sample.pid >= held.pid)),
                None => true,
            };
            if replace {
                best = Some(sample);
                proof {
                    assert(samples@[i as int] == sample);
                }
            }
        }
    }
    match best {
        Some(sample) => Some(sample.pid),
        None => None,
    }
}

/// Holds the hyperplanes against a sketch row that they fill: one coordinate each for
/// every coordinate of the point.
pub fn check_hyperplane_shape(hyperplanes: usize, out_row: usize, dim: usize) -> (result: AnnResult<
    (),
>)
    ensures
        match result {
            Ok(_) => hyperplanes == capped(out_row * dim),
            Err(error) => {
                &&& hyperplanes != capped(out_row * dim)
                &&& error matches AnnError::Index { err } && err@
                    == "Hyperplane shape mismatch: hyperplanes="@ + decimal(hyperplanes as nat)
                    + " out_row="@ + decimal(out_row as nat) + " dim="@ + decimal(dim as nat)
            },
        },
{
    if hyperplanes != sat_mul(out_row, dim) {
        let mut err: String = with_numbers(
            "Hyperplane shape mismatch: hyperplanes=",
            hyperplanes as u64,
            " out_row=",
            out_row as u64,
            " dim=",
        );
        let digits: String = number_text(dim as u64);
        err.append(digits.as_str());
        return Err(AnnError::log_index_error(err));
    }
    Ok(())
}

} // verus!
