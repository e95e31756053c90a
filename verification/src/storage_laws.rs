//! What files, bytes and chunks come to, said of numbers.

use vstd::arithmetic::div_mod::{lemma_fundamental_div_mod, lemma_mod_bound};
use vstd::arithmetic::power2::{lemma_pow2_pos, lemma_pow2_unfold, pow2};
use vstd::prelude::*;

use crate::arith::{floored, greatest, least};
use crate::direct_io::{doubled_to, power_of_two_from, DirectIoConfig};
use crate::float_value::{double_units, law_doubles_compare_as_numbers};
use crate::float_bits::F32;
use crate::io_plan_laws::lemma_blocks;
use crate::le_bytes::{bytes_u32, bytes_u64, value_bytes};
use crate::leaf_build::PendingEdge;
use crate::leaf_laws::{edges_between, lemma_edges_between_step};
use crate::oom_files::{candidate_file, digits_value, is_digit, partition_depth, TempFileReport};
use crate::oom_memory::{code_byte, known_kb, line_end, most_kb, word_number};
use crate::resident_prefix::positions_of;
use crate::rows::{row_of, with_row};
use crate::sketch_build::{
    is_medoid_start, memory_threads, row_bytes, sample_stride, SketchBuildPlan, SketchStartSample,
};
use crate::sketch_file::{sketch_file_bytes, SketchFile};
use crate::spill::shard_part;
use crate::text::{decimal, digit_char};

verus! {

/// Integers are written with their least significant byte first.
pub proof fn law_least_significant_byte_comes_first(x: u32)
    ensures
        bytes_u32(x).len() == 4,
        bytes_u32(x)[0] == x as int % 256,
        bytes_u32(x)[1] == x as int / 256 % 256,
        bytes_u32(x)[2] == x as int / 65536 % 256,
        bytes_u32(x)[3] == x as int / 16777216 % 256,
{
}

/// Of a long integer the low half comes first.
pub proof fn law_low_half_comes_first(x: u64)
    ensures
        bytes_u64(x).len() == 8,
        bytes_u64(x).subrange(0, 4) == bytes_u32((x as int % 4294967296) as u32),
        bytes_u64(x).subrange(4, 8) == bytes_u32((x as int / 4294967296) as u32),
{
    assert(bytes_u64(x).subrange(0, 4) =~= bytes_u32((x as int % 4294967296) as u32));
    assert(bytes_u64(x).subrange(4, 8) =~= bytes_u32((x as int / 4294967296) as u32));
}

proof fn lemma_doubled(n: int, k: nat)
    requires
        k > 0 ==> pow2((k - 1) as nat) < n,
    ensures
        exists|e: nat|
            doubled_to(n, pow2(k) as int) == #[trigger] pow2(e) && pow2(e) >= n && (e > 0 ==> pow2(
                (e - 1) as nat,
            ) < n),
    decreases floored(n - pow2(k)),
{
    lemma_pow2_pos(k);
    if pow2(k) >= n {
        assert(doubled_to(n, pow2(k) as int) == pow2(k));
    } else {
        lemma_pow2_unfold(k + 1);
        assert(pow2((k + 1) as nat) == 2 * pow2(k));
        lemma_doubled(n, k + 1);
    }
}

/// An alignment is rounded up to a power of two, and the next lower one would be too small.
pub proof fn law_alignments_are_powers_of_two(n: int)
    ensures
        exists|e: nat|
            power_of_two_from(n) == #[trigger] pow2(e) && pow2(e) >= n && (e > 0 ==> pow2(
                (e - 1) as nat,
            ) < n),
{
    vstd::arithmetic::power2::lemma2_to64();
    lemma_doubled(n, 0);
}

/// An alignment is a page at least, and not smaller than the one that is set.
pub proof fn law_alignments_are_a_page_at_least(alignment: int)
    ensures
        DirectIoConfig::alignment_from(alignment) >= 4096,
        DirectIoConfig::alignment_from(alignment) >= alignment,
        alignment > 4096 ==> DirectIoConfig::alignment_from(alignment) < 2 * alignment,
        alignment <= 4096 ==> DirectIoConfig::alignment_from(alignment) == 4096,
{
    let n = greatest(alignment, 4096);
    law_alignments_are_powers_of_two(n);
    let e = choose|e: nat|
        power_of_two_from(n) == #[trigger] pow2(e) && pow2(e) >= n && (e > 0 ==> pow2(
            (e - 1) as nat,
        ) < n);
    vstd::arithmetic::power2::lemma2_to64();
    if e > 0 {
        lemma_pow2_unfold(e);
    }
    if n == 4096 && e != 12 {
        if e < 12 {
            vstd::arithmetic::power2::lemma_pow2_strictly_increases(e, 12);
        } else {
            if e > 13 {
                vstd::arithmetic::power2::lemma_pow2_strictly_increases(12, (e - 1) as nat);
            }
        }
    }
}

/// The sketch workers of a budget: each takes its hyperplanes, its point and 4 mebibytes.
/// All fit, one more does not, and there is one in any case.
pub proof fn law_sketch_workers_fill_the_budget(budget: int, dim: int, width: int)
    requires
        0 <= budget,
        0 <= dim,
        0 <= width,
        4 * (dim * width) + 4 * dim + 0x40_0000 <= usize::MAX,
    ensures
        ({
            let each = 4 * (dim * width) + 4 * dim + 0x40_0000;
            let workers = memory_threads(budget, dim, width);
            &&& workers >= 1
            &&& workers > 1 ==> workers * each <= budget
            &&& (workers + 1) * each > budget
        }),
{
    let each = 4 * (dim * width) + 4 * dim + 0x40_0000;
    assert(dim * width >= 0) by (nonlinear_arith)
        requires
            dim >= 0,
            width >= 0,
    ;
    let fitting = budget / each;
    let workers = memory_threads(budget, dim, width);
    lemma_fundamental_div_mod(budget, each);
    lemma_mod_bound(budget, each);
    assert(each * fitting == fitting * each) by (nonlinear_arith);
    assert((fitting + 1) * each == fitting * each + each) by (nonlinear_arith);
    assert((workers + 1) * each >= (fitting + 1) * each) by (nonlinear_arith)
        requires
            workers >= fitting,
            each >= 1,
    ;
}

/// The threads of a sketch build share its budget. Without a cache it is 64 mebibytes for
/// each thread; with one there are no more threads than have room for 1024 rows each. The
/// chunk of a thread has as many rows as its share holds, and 1024 at least.
pub proof fn law_sketch_chunks_share_the_budget(cache: int, allowed: int, width: int, dim: int)
    requires
        0 <= cache <= usize::MAX,
        1 <= allowed,
        0x400_0000 * allowed <= usize::MAX,
        0 <= width,
        0 <= dim,
        1 <= width + dim,
        1024 * (4 * width + 4 * dim) <= usize::MAX,
    ensures
        ({
            let plan = SketchBuildPlan::planned(cache, allowed, width, dim);
            let row = 4 * width + 4 * dim;
            let budget = if cache == 0 {
                0x400_0000 * allowed
            } else {
                cache
            };
            &&& plan.bytes_per_row == row
            &&& plan.budget_bytes == budget
            &&& 1 <= plan.threads <= allowed
            &&& cache == 0 ==> plan.threads == allowed
            &&& cache > 0 && plan.threads > 1 ==> plan.threads * (1024 * row) <= cache
            &&& cache > 0 && plan.threads < allowed ==> (plan.threads + 1) * (1024 * row) > cache
            &&& plan.chunk_rows >= 1024
            &&& plan.chunk_rows > 1024 ==> (plan.chunk_rows * row) * plan.threads <= budget
            &&& ((plan.chunk_rows + 1) * row) * plan.threads > budget
            &&& (plan.chunk_rows * row) * plan.threads <= usize::MAX
                ==> plan.estimated_concurrent_bytes == (plan.chunk_rows * row) * plan.threads
        }),
{
    let row = 4 * width + 4 * dim;
    assert(row_bytes(width, dim) == row);
    let budget = if cache == 0 {
        0x400_0000 * allowed
    } else {
        cache
    };
    let chunk = 1024 * row;
    let fitting = budget / chunk;
    lemma_fundamental_div_mod(budget, chunk);
    lemma_mod_bound(budget, chunk);
    assert(chunk * fitting == fitting * chunk) by (nonlinear_arith);
    assert((fitting + 1) * chunk == fitting * chunk + chunk) by (nonlinear_arith);
    assert(fitting >= 0) by (nonlinear_arith)
        requires
            fitting == budget / chunk,
            budget >= 0,
            chunk >= 1,
    ;
    let threads = if cache == 0 {
        allowed
    } else {
        least(allowed, greatest(fitting, 1))
    };
    if cache > 0 && threads > 1 {
        assert(threads * chunk <= fitting * chunk) by (nonlinear_arith)
            requires
                threads <= fitting,
                chunk >= 1,
        ;
    }
    if cache > 0 && threads < allowed {
        assert((threads + 1) * chunk >= (fitting + 1) * chunk) by (nonlinear_arith)
            requires
                threads >= fitting,
                chunk >= 1,
        ;
    }
    let share = budget / threads;
    lemma_fundamental_div_mod(budget, threads);
    lemma_mod_bound(budget, threads);
    assert(0 <= share <= budget) by (nonlinear_arith)
        requires
            share == budget / threads,
            budget >= 0,
            threads >= 1,
    ;
    let held = greatest(share, row);
    let rows = held / row;
    lemma_fundamental_div_mod(held, row);
    lemma_mod_bound(held, row);
    assert(row * rows == rows * row) by (nonlinear_arith);
    assert((rows + 1) * row == rows * row + row) by (nonlinear_arith);
    assert(1 <= rows <= held) by (nonlinear_arith)
        requires
            rows == held / row,
            held >= row,
            row >= 1,
    ;
    let taken = greatest(rows, 1024);
    let plan = SketchBuildPlan::planned(cache, allowed, width, dim);
    assert(plan.threads == threads);
    assert(plan.chunk_rows == taken);
    assert(share * threads == threads * share) by (nonlinear_arith);
    if taken > 1024 {
        assert(held == share) by {
            if share < row {
                assert(rows == 1) by (nonlinear_arith)
                    requires
                        rows == row / row,
                        row >= 1,
                ;
            }
        }
        assert((taken * row) * threads <= share * threads) by (nonlinear_arith)
            requires
                taken * row <= share,
                threads >= 1,
        ;
    }
    assert((taken + 1) * row >= (rows + 1) * row) by (nonlinear_arith)
        requires
            taken >= rows,
            row >= 1,
    ;
    assert(((taken + 1) * row) * threads >= (share + 1) * threads) by (nonlinear_arith)
        requires
            (taken + 1) * row >= share + 1,
            threads >= 1,
    ;
    assert((share + 1) * threads == share * threads + threads) by (nonlinear_arith);
    assert(0 <= taken * row <= (taken * row) * threads) by (nonlinear_arith)
        requires
            taken >= 1024,
            row >= 1,
            threads >= 1,
    ;
}

/// No more than 8192 points are sampled, evenly, and a smaller stride would sample more.
pub proof fn law_stride_samples_no_more_points(points: int)
    requires
        0 <= points,
    ensures
        sample_stride(points) >= 1,
        sample_stride(points) * 8192 >= points,
        sample_stride(points) > 1 ==> (sample_stride(points) - 1) * 8192 < points,
{
    lemma_blocks(points, 8192);
}

/// The start point is a sample at a finite distance, and every other one is farther, or as
/// far with no smaller id. There is none only where no sample counts.
pub proof fn law_start_is_the_nearest_sample(
    rows: int,
    samples: Seq<SketchStartSample>,
    start: Option<u32>,
    j: int,
)
    requires
        is_medoid_start(rows, samples, start),
        rows > 0,
        0 <= j < samples.len(),
        samples[j].dist.finite(),
    ensures
        start matches Some(pid) && exists|i: int|
            0 <= i < samples.len() && (#[trigger] samples[i]).pid == pid && (double_units(
                samples[i].dist,
            ) < double_units(samples[j].dist) || (double_units(samples[i].dist) == double_units(
                samples[j].dist,
            ) && pid <= samples[j].pid)),
{
    let pid = start->0;
    let i = choose|i: int|
        0 <= i < samples.len() && (#[trigger] samples[i]).pid == pid && samples[i].dist.finite()
            && forall|k: int|
            0 <= k < samples.len() && (#[trigger] samples[k]).dist.finite()
                ==> crate::sketch_build::sample_before(samples[i], samples[k]);
    assert(crate::sketch_build::sample_before(samples[i], samples[j]));
    law_doubles_compare_as_numbers(samples[i].dist, samples[j].dist);
    law_doubles_compare_as_numbers(samples[j].dist, samples[i].dist);
}

proof fn lemma_shard(edges: Seq<PendingEdge>, first: int, last: int) -> (places: Seq<int>)
    ensures
        edges_between(edges, first, last, shard_part(edges, first, last), places),
    decreases edges.len(),
{
    if edges.len() == 0 {
        Seq::empty()
    } else {
        let few = edges.drop_last();
        let edge = edges.last();
        let places = lemma_shard(few, first, last);
        assert(few.push(edge) =~= edges);
        lemma_edges_between_step(few, first, last, shard_part(few, first, last), places, edge);
        if first <= edge.p < last {
            places.push(few.len() as int)
        } else {
            places
        }
    }
}

/// The edges of a shard are those of its points, in their order.
pub proof fn law_shard_holds_the_edges_of_its_points(
    edges: Seq<PendingEdge>,
    first: int,
    last: int,
)
    ensures
        exists|places: Seq<int>| #[trigger]
            edges_between(edges, first, last, shard_part(edges, first, last), places),
{
    let places = lemma_shard(edges, first, last);
}

/// A file counts once in all and once in its own kind, with all of its bytes: as a candidate
/// file, by its depth, or as another one.
pub proof fn law_file_counts_in_one_kind(report: TempFileReport, name: Seq<u8>, bytes: int)
    requires
        0 <= bytes,
        report.total.files < usize::MAX,
        report.total.bytes + bytes <= u64::MAX,
        report.wf(),
    ensures
        ({
            let after = report.with_file(name, bytes);
            let depth = partition_depth(name);
            let plain = !candidate_file(name);
            &&& after.total.files == report.total.files + 1
            &&& after.total.bytes == report.total.bytes + bytes
            &&& after.candidate.files == report.candidate.files + (if plain {
                0int
            } else {
                1
            })
            &&& after.candidate.bytes == report.candidate.bytes + (if plain {
                0
            } else {
                bytes
            })
            &&& after.partition_depth0.files == report.partition_depth0.files + (if plain && depth
                == Some(0int) {
                1int
            } else {
                0
            })
            &&& after.partition_depth1.files == report.partition_depth1.files + (if plain && depth
                == Some(1int) {
                1int
            } else {
                0
            })
            &&& after.partition_depth2.files == report.partition_depth2.files + (if plain && depth
                == Some(2int) {
                1int
            } else {
                0
            })
            &&& after.partition_depth3.files == report.partition_depth3.files + (if plain && depth
                == Some(3int) {
                1int
            } else {
                0
            })
            &&& after.wf()
        }),
{
}

/// The most memory that was seen is that of one look, and no look saw more.
pub proof fn law_most_memory_is_the_largest_seen(values: Seq<Option<usize>>, n: int)
    requires
        0 <= n <= values.len(),
    ensures
        match most_kb(values, n) {
            Some(most) => {
                &&& exists|i: int|
                    0 <= i < n && #[trigger] values[i] is Some && most == values[i]->0 as int / 1024
                &&& forall|i: int|
                    0 <= i < n && #[trigger] values[i] is Some ==> values[i]->0 as int / 1024
                        <= most
            },
            None => forall|i: int| 0 <= i < n ==> #[trigger] values[i] is None,
        },
    decreases n,
{
    if n > 0 {
        law_most_memory_is_the_largest_seen(values, n - 1);
        if values[n - 1] is Some {
            assert(values[n - 1]->0 as int / 1024 >= 0);
            let before = most_kb(values, n - 1);
            if before is Some {
                let i = choose|i: int|
                    0 <= i < n - 1 && #[trigger] values[i] is Some && before->0 == values[i]->0
                        as int / 1024;
                assert(values[i] is Some);
            }
        }
    }
}

/// Every look that saw something is listed, in units of 1024 bytes and in order: the last
/// one at the end.
pub proof fn law_every_known_look_is_listed(values: Seq<Option<usize>>, n: int)
    requires
        0 < n <= values.len(),
    ensures
        values[n - 1] is Some ==> known_kb(values, n).last() == values[n - 1]->0 as int / 1024,
        known_kb(values, n).len() == known_kb(values, n - 1).len() + if values[n - 1] is Some {
            1int
        } else {
            0
        },
        forall|k: int|
            0 <= k < known_kb(values, n - 1).len() ==> #[trigger] known_kb(values, n)[k]
                == known_kb(values, n - 1)[k],
{
}

/// A line ends at the first line feed, or with the text.
pub proof fn law_lines_end_at_the_first_feed(text: Seq<char>, i: int)
    requires
        0 <= i <= text.len(),
    ensures
        i <= line_end(text, i) <= text.len(),
        line_end(text, i) < text.len() ==> text[line_end(text, i)] == '\n',
        forall|k: int| i <= k < line_end(text, i) ==> #[trigger] text[k] != '\n',
    decreases text.len() - i,
{
    if i < text.len() && text[i] != '\n' {
        law_lines_end_at_the_first_feed(text, i + 1);
    }
}

/// Row `i` of a matrix is made of the values behind those of the rows in front of it, and a
/// row that is put in changes no other value.
pub proof fn law_rows_lie_one_behind_the_other(
    values: Seq<F32>,
    width: int,
    i: int,
    row: Seq<F32>,
    k: int,
)
    requires
        0 <= i,
        0 < width,
        i * width + width <= values.len(),
        row.len() == width,
        0 <= k < values.len(),
    ensures
        row_of(values, width, i).len() == width,
        i * width <= k < i * width + width ==> row_of(values, width, i)[k - i * width] == values[k],
        with_row(values, width, i, row).len() == values.len(),
        with_row(values, width, i, row)[k] == if i * width <= k < i * width + width {
            row[k - i * width]
        } else {
            values[k]
        },
{
    assert(0 <= i * width) by (nonlinear_arith)
        requires
            0 <= i,
            0 < width,
    ;
}

/// A sketch file starts with the number of its rows and their width, and behind them lie the
/// values, row by row.
pub proof fn law_sketch_files_start_with_their_shape(
    rows: usize,
    width: usize,
    values: Seq<F32>,
    i: int,
)
    ensures
        ({
            let file = sketch_file_bytes(rows, width, values);
            &&& file.len() == 16 + 4 * values.len()
            &&& file.subrange(0, 8) == bytes_u64(rows as u64)
            &&& file.subrange(8, 16) == bytes_u64(width as u64)
            &&& 0 <= i < values.len() ==> file.subrange(16 + 4 * i, 20 + 4 * i) == bytes_u32(
                values[i].bits,
            )
        }),
        0 <= i ==> (SketchFile { rows, width }).row_start(i) == 16 + 4 * (i * width),
{
    let file = sketch_file_bytes(rows, width, values);
    let body = value_bytes(values);
    assert(file.subrange(0, 8) =~= bytes_u64(rows as u64));
    assert(file.subrange(8, 16) =~= bytes_u64(width as u64));
    if 0 <= i < values.len() {
        assert forall|k: int| 0 <= k < 4 implies #[trigger] file.subrange(
            16 + 4 * i,
            20 + 4 * i,
        )[k] == bytes_u32(values[i].bits)[k] by {
            assert(file[16 + 4 * i + k] == body[4 * i + k]);
            assert((4 * i + k) / 4 == i && (4 * i + k) % 4 == k);
        }
        assert(file.subrange(16 + 4 * i, 20 + 4 * i) =~= bytes_u32(values[i].bits));
    }
    assert(i * (width * 4) == 4 * (i * width)) by (nonlinear_arith);
}

/// Positions are parted by their ids: each is on the one side or on the other, in order.
pub proof fn law_positions_are_parted_by_their_ids(
    ids: Seq<u32>,
    prefix_rows: int,
    inside: bool,
    n: int,
)
    requires
        0 <= n <= ids.len() <= usize::MAX,
    ensures
        forall|k: int|
            0 <= k < positions_of(ids, prefix_rows, inside, n).len() ==> (
            #[trigger] positions_of(ids, prefix_rows, inside, n)[k]) < n && (ids[positions_of(
                ids,
                prefix_rows,
                inside,
                n,
            )[k] as int] < prefix_rows) == inside,
        forall|k: int, m: int|
            0 <= k < m < positions_of(ids, prefix_rows, inside, n).len() ==> (
            #[trigger] positions_of(ids, prefix_rows, inside, n)[k]) < (#[trigger] positions_of(
                ids,
                prefix_rows,
                inside,
                n,
            )[m]),
        positions_of(ids, prefix_rows, true, n).len() + positions_of(
            ids,
            prefix_rows,
            false,
            n,
        ).len() == n,
    decreases n,
{
    if n > 0 {
        law_positions_are_parted_by_their_ids(ids, prefix_rows, inside, n - 1);
        let before = positions_of(ids, prefix_rows, inside, n - 1);
        let all = positions_of(ids, prefix_rows, inside, n);
        assert forall|k: int| 0 <= k < all.len() implies (#[trigger] all[k]) < n && (
        ids[all[k] as int] < prefix_rows) == inside by {
            if k < before.len() {
                assert(all[k] == before[k]);
            }
        }
        assert forall|k: int, m: int| 0 <= k < m < all.len() implies (#[trigger] all[k]) < (
        #[trigger] all[m]) by {
            assert(all[k] == before[k]);
            if m < before.len() {
                assert(all[m] == before[m]);
            }
        }
    }
}

proof fn lemma_digits_prefix(digits: Seq<u8>, last: u8, n: int)
    requires
        0 <= n <= digits.len(),
    ensures
        digits_value(digits.push(last), n) == digits_value(digits, n),
    decreases n,
{
    if n > 0 {
        lemma_digits_prefix(digits, last, n - 1);
    }
}

proof fn lemma_decimal_digits(n: nat)
    ensures
        ({
            let digits = decimal(n).map_values(|c: char| code_byte(c));
            &&& digits.len() >= 1
            &&& forall|i: int| 0 <= i < digits.len() ==> is_digit(#[trigger] digits[i])
            &&& digits_value(digits, digits.len() as int) == n
        }),
    decreases n,
{
    let digits = decimal(n).map_values(|c: char| code_byte(c));
    if n < 10 {
        assert(decimal(n) =~= seq![digit_char(n as int)]);
        assert(digits[0] == 48 + n);
        assert(digits_value(digits, 0) == 0);
        assert(digits_value(digits, 1) == digits_value(digits, 0) * 10 + (digits[0] - 48));
    } else {
        lemma_decimal_digits(n / 10);
        let head = decimal(n / 10).map_values(|c: char| code_byte(c));
        let last = code_byte(digit_char((n % 10) as int));
        assert(last == 48 + n % 10);
        assert(digits =~= head.push(last));
        lemma_digits_prefix(head, last, head.len() as int);
        assert forall|i: int| 0 <= i < digits.len() implies is_digit(#[trigger] digits[i]) by {
            if i < head.len() {
                assert(digits[i] == head[i]);
            }
        }
    }
}

/// A number that is written out is read back.
pub proof fn law_written_numbers_are_read_back(n: nat)
    requires
        n <= usize::MAX,
    ensures
        word_number(decimal(n)) == Some(n as int),
{
    lemma_decimal_digits(n);
    let digits = decimal(n).map_values(|c: char| code_byte(c));
    assert(is_digit(digits[0]));
}

} // verus!
