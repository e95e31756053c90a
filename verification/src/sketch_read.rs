//! Reading sketch rows from a file by way of windows.
//!
//! The library decides which byte ranges are read and where the values go; the ranges
//! themselves are read elsewhere and handed in.

use vstd::prelude::*;
use vstd::string::*;

use crate::ann_result::{index_error, AnnError, AnnResult};
use crate::arith::{capped, floored, greatest, least, max_usize, min_usize, product_is, sat_mul};
use crate::direct_io::{span_fits, AlignedSpan};
use crate::float_bits::{F32, F64};
use crate::gather::{WindowedGatherOptions, WindowedGatherStats};
use crate::io_runtime::{
    aligned_bytes_in, alignable, build_gather_plan, gap_joins, id_keys, plannable, rows_in,
    spread_below, window_rows, BoundedReadPlan, BoundedReadPlanner, ReadScatter, ReadWindow,
    RowLayout,
};
use crate::order::sorts;
use crate::rows::{copy_values, lemma_row_bounds, lemma_with_row, row_of, with_row};
use crate::sketch_file::{SketchFile, HEADER_BYTES};
use crate::text::{decimal, with_number, with_numbers};

verus! {

/// Ids that follow each other by one are read together.
pub open spec fn continues_run(ids: Seq<u32>, i: int) -> bool {
    0 < i < ids.len() && ids[i] == ids[i - 1] + 1
}

/// The runs cover all ids in order, each holds at least one id, ids inside a run follow
/// each other by one, and no two neighbouring runs could be one.
pub open spec fn runs_of(ids: Seq<u32>, runs: Seq<(usize, usize)>, n: int) -> bool {
    &&& runs.len() == 0 <==> n == 0
    &&& runs.len() > 0 ==> runs[0].0 == 0 && runs.last().1 == n
    &&& forall|r: int| 0 <= r < runs.len() ==> (#[trigger] runs[r]).0 < runs[r].1 <= n
    &&& forall|r: int| 0 <= r < runs.len() - 1 ==> (#[trigger] runs[r]).1 == runs[r + 1].0
    &&& forall|r: int, i: int|
        0 <= r < runs.len() && (#[trigger] runs[r]).0 < i < runs[r].1
            ==> #[trigger] continues_run(ids, i)
    &&& forall|r: int| 0 < r < runs.len() ==> !continues_run(ids, (#[trigger] runs[r]).0 as int)
}

/// The longest runs of ids that follow each other by one.
pub fn consecutive_runs(ids: &[u32]) -> (runs: Vec<(usize, usize)>)
    ensures
        runs_of(ids@, runs@, ids@.len() as int),
{
    let mut runs: Vec<(usize, usize)> = Vec::new();
    let mut start: usize = 0;
    while start < ids.len()
        invariant
            start <= ids@.len(),
            runs_of(ids@, runs@, start as int),
            0 < start < ids@.len() ==> !continues_run(ids@, start as int),
        decreases ids@.len() - start,
    {
        let mut end: usize = start + 1;
        while end < ids.len() && ids[end - 1] < u32::MAX && ids[end] == ids[end - 1] + 1
            invariant
                start < end <= ids@.len(),
                forall|i: int| start < i < end ==> #[trigger] continues_run(ids@, i),
            decreases ids@.len() - end,
        {
            end = end + 1;
        }
        let ghost before = runs@;
        runs.push((start, end));
        proof {
            assert forall|r: int| 0 <= r < runs@.len() - 1 implies (#[trigger] runs@[r]).1
                == runs@[r + 1].0 by {
                if r < before.len() - 1 {
                    assert(before[r].1 == before[r + 1].0);
                    assert(runs@[r + 1] == before[r + 1]);
                }
            }
            assert forall|r: int, i: int|
                0 <= r < runs@.len() && (#[trigger] runs@[r]).0 < i
                    < runs@[r].1 implies #[trigger] continues_run(ids@, i) by {
                if r < before.len() {
                    assert(runs@[r] == before[r]);
                }
            }
            assert forall|r: int| 0 < r < runs@.len() implies !continues_run(
                ids@,
                (#[trigger] runs@[r]).0 as int,
            ) by {
                if r < before.len() {
                    assert(runs@[r] == before[r]);
                }
            }
        }
        start = end;
    }
    runs
}

/// How many windows hold one row.
pub open spec fn single_windows(windows: Seq<ReadWindow>) -> int
    decreases windows.len(),
{
    if windows.len() == 0 {
        0
    } else {
        single_windows(windows.drop_last()) + if windows.last().row_count <= 1 {
            1int
        } else {
            0
        }
    }
}

/// The rows of the windows that hold several.
pub open spec fn rows_in_ranges(windows: Seq<ReadWindow>) -> int
    decreases windows.len(),
{
    if windows.len() == 0 {
        0
    } else {
        rows_in_ranges(windows.drop_last()) + if windows.last().row_count <= 1 {
            0int
        } else {
            windows.last().row_count as int
        }
    }
}

/// What carrying out the plan adds to the counters.
pub open spec fn plan_counters(plan: BoundedReadPlan, row_bytes: int) -> WindowedGatherStats {
    WindowedGatherStats {
        rows_requested: plan.requested_rows as u64,
        windows_submitted: plan.windows@.len() as u64,
        rows_per_window_sum: rows_in(plan.windows@) as u64,
        singleton_windows: single_windows(plan.windows@) as u64,
        range_windows: (plan.windows@.len() - single_windows(plan.windows@)) as u64,
        range_rows_read: rows_in_ranges(plan.windows@) as u64,
        logical_bytes: capped(plan.requested_rows * plan.row_bytes) as u64,
        physical_bytes: plan.physical_bytes,
        alignment_waste_bytes: floored(
            plan.physical_bytes - rows_in(plan.windows@) * row_bytes,
        ) as u64,
        overread_rows: floored(plan.physical_rows - plan.requested_rows) as u64,
        scatter_ops: plan.scatter@.len() as u64,
    }
}

proof fn lemma_window_sums(windows: Seq<ReadWindow>, n: int)
    requires
        0 <= n <= windows.len(),
    ensures
        0 <= single_windows(windows.take(n)) <= n,
        0 <= rows_in_ranges(windows.take(n)) <= rows_in(windows.take(n)),
        0 <= rows_in(windows.take(n)) <= rows_in(windows.take(windows.len() as int)),
    decreases windows.len() - n,
{
    lemma_window_sums_low(windows.take(n));
    if n < windows.len() {
        lemma_window_sums(windows, n + 1);
        assert(windows.take(n + 1).drop_last() =~= windows.take(n));
    }
}

pub proof fn lemma_window_sums_low(windows: Seq<ReadWindow>)
    ensures
        0 <= single_windows(windows) <= windows.len(),
        0 <= rows_in_ranges(windows) <= rows_in(windows),
    decreases windows.len(),
{
    if windows.len() > 0 {
        lemma_window_sums_low(windows.drop_last());
    }
}

/// Adds what carrying out the plan takes.
pub fn record_bounded_sketch_plan_stats(
    plan: &BoundedReadPlan,
    row_bytes: usize,
    stats: &mut WindowedGatherStats,
)
    requires
        plan.windows@.len() <= u64::MAX,
        rows_in(plan.windows@) * row_bytes <= u64::MAX,
        rows_in(plan.windows@) <= u64::MAX,
        old(stats).mergeable(plan_counters(*plan, row_bytes as int)),
    ensures
        *final(stats) == old(stats).merged(plan_counters(*plan, row_bytes as int)),
{
    let mut counters: WindowedGatherStats = WindowedGatherStats::default();
    counters.rows_requested = plan.requested_rows() as u64;
    counters.windows_submitted = plan.windows.len() as u64;
    counters.logical_bytes = plan.logical_bytes();
    counters.physical_bytes = plan.physical_bytes();
    counters.overread_rows = plan.physical_rows().saturating_sub(plan.requested_rows()) as u64;
    counters.scatter_ops = plan.scatter.len() as u64;
    proof {
        assert(plan.windows@.take(plan.windows@.len() as int) =~= plan.windows@);
    }
    for i in 0..plan.windows.len()
        invariant
            rows_in(plan.windows@.take(plan.windows@.len() as int)) <= u64::MAX,
            counters.rows_per_window_sum == rows_in(plan.windows@.take(i as int)),
            counters.singleton_windows == single_windows(plan.windows@.take(i as int)),
            counters.range_windows == i - single_windows(plan.windows@.take(i as int)),
            counters.range_rows_read == rows_in_ranges(plan.windows@.take(i as int)),
            counters.rows_requested == plan.requested_rows,
            counters.windows_submitted == plan.windows@.len(),
            counters.logical_bytes == capped(plan.requested_rows * plan.row_bytes),
            counters.physical_bytes == plan.physical_bytes,
            counters.overread_rows == floored(plan.physical_rows - plan.requested_rows),
            counters.scatter_ops == plan.scatter@.len(),
            counters.alignment_waste_bytes == 0,
    {
        let window: ReadWindow = plan.windows[i];
        proof {
            lemma_window_sums(plan.windows@, i as int + 1);
            assert(plan.windows@.take(i as int + 1).drop_last() =~= plan.windows@.take(i as int));
        }
        counters.rows_per_window_sum = counters.rows_per_window_sum + window.row_count as u64;
        if window.row_count <= 1 {
            counters.singleton_windows = counters.singleton_windows + 1;
        } else {
            counters.range_windows = counters.range_windows + 1;
            counters.range_rows_read = counters.range_rows_read + window.row_count as u64;
        }
    }
    let span: u64 = counters.rows_per_window_sum * row_bytes as u64;
    counters.alignment_waste_bytes = plan.physical_bytes().saturating_sub(span);
    stats.merge(&counters);
}

/// The places of window `w` are those from `range.0` to in front of `range.1`.
pub open spec fn window_range(plan: BoundedReadPlan, w: int, range: (usize, usize)) -> bool {
    &&& range.0 <= range.1 <= plan.scatter@.len()
    &&& forall|i: int|
        0 <= i < plan.scatter@.len() ==> ((#[trigger] plan.scatter@[i]).window_idx == w <==> range.0
            <= i < range.1)
}

/// Where the first `n` ranges end.
pub open spec fn ranges_end(ranges: Seq<(usize, usize)>, n: int) -> int {
    if n <= 0 {
        0
    } else {
        ranges[n - 1].1 as int
    }
}

/// For each window, which places are in it.
pub fn bounded_sketch_scatter_ranges(plan: &BoundedReadPlan) -> (ranges: Vec<(usize, usize)>)
    requires
        plan.in_window_order(),
        forall|i: int|
            0 <= i < plan.scatter@.len() ==> (#[trigger] plan.scatter@[i]).window_idx
                < plan.windows@.len(),
    ensures
        ranges@.len() == plan.windows@.len(),
        forall|w: int| 0 <= w < ranges@.len() ==> window_range(*plan, w, #[trigger] ranges@[w]),
        forall|w: int|
            0 <= w < ranges@.len() ==> (#[trigger] ranges@[w]).0 == ranges_end(ranges@, w),
        ranges_end(ranges@, ranges@.len() as int) == plan.scatter@.len(),
{
    let mut ranges: Vec<(usize, usize)> = Vec::with_capacity(plan.windows.len());
    let mut cursor: usize = 0;
    for w in 0..plan.windows.len()
        invariant
            plan.in_window_order(),
            ranges@.len() == w,
            cursor <= plan.scatter@.len(),
            forall|k: int| 0 <= k < ranges@.len() ==> window_range(*plan, k, #[trigger] ranges@[k]),
            forall|i: int| 0 <= i < cursor ==> (#[trigger] plan.scatter@[i]).window_idx < w,
            forall|i: int|
                cursor <= i < plan.scatter@.len() ==> (#[trigger] plan.scatter@[i]).window_idx >= w,
            forall|k: int|
                0 <= k < ranges@.len() ==> (#[trigger] ranges@[k]).0 == ranges_end(ranges@, k),
            cursor == ranges_end(ranges@, w as int),
    {
        let start: usize = cursor;
        while cursor < plan.scatter.len() && plan.scatter[cursor].window_idx == w
            invariant
                plan.in_window_order(),
                start <= cursor <= plan.scatter@.len(),
                forall|i: int|
                    start <= i < cursor ==> (#[trigger] plan.scatter@[i]).window_idx == w,
            decreases plan.scatter@.len() - cursor,
        {
            cursor = cursor + 1;
        }
        let ghost before = ranges@;
        ranges.push((start, cursor));
        proof {
            assert forall|k: int| 0 <= k < ranges@.len() implies (#[trigger] ranges@[k]).0
                == ranges_end(ranges@, k) by {
                assert(ranges_end(ranges@, k) == ranges_end(before, k));
                if k < before.len() {
                    assert(before[k].0 == ranges_end(before, k));
                }
            }
            assert forall|i: int| cursor <= i < plan.scatter@.len() implies (
            #[trigger] plan.scatter@[i]).window_idx >= w + 1 by {
                assert(plan.scatter@[cursor as int].window_idx <= plan.scatter@[i].window_idx);
            }
        }
    }
    proof {
        if cursor < plan.scatter@.len() {
            assert(plan.scatter@[cursor as int].window_idx < plan.windows@.len());
        }
    }
    ranges
}

/// `out` after the places from `from` to in front of `to` got their rows out of a window.
pub open spec fn scattered(
    out: Seq<F32>,
    places: Seq<ReadScatter>,
    width: int,
    window: Seq<F32>,
    from: int,
    to: int,
) -> Seq<F32>
    decreases to - from,
{
    if to <= from {
        out
    } else {
        let place = places[to - 1];
        with_row(
            scattered(out, places, width, window, from, to - 1),
            width,
            place.original_pos as int,
            row_of(window, width, place.row_offset_in_window as int),
        )
    }
}

/// Copies the rows of one window to their places.
pub fn scatter_bounded_sketch_window(
    plan: &BoundedReadPlan,
    scatter_start: usize,
    scatter_end: usize,
    row_width: usize,
    window: &[F32],
    out: &mut [F32],
)
    requires
        scatter_start <= scatter_end <= plan.scatter@.len(),
        forall|i: int|
            scatter_start <= i < scatter_end ==> {
                let place = #[trigger] plan.scatter@[i];
                &&& place.row_offset_in_window * row_width + row_width <= window@.len()
                &&& place.original_pos * row_width + row_width <= old(out)@.len()
            },
    ensures
        final(out)@ == scattered(
            old(out)@,
            plan.scatter@,
            row_width as int,
            window@,
            scatter_start as int,
            scatter_end as int,
        ),
        final(out)@.len() == old(out)@.len(),
{
    let window_len: usize = window.len();
    let out_len: usize = out.len();
    for i in scatter_start..scatter_end
        invariant
            scatter_end <= plan.scatter@.len(),
            window_len == window@.len(),
            out_len == out@.len(),
            out@.len() == old(out)@.len(),
            forall|k: int|
                scatter_start <= k < scatter_end ==> {
                    let place = #[trigger] plan.scatter@[k];
                    &&& place.row_offset_in_window * row_width + row_width <= window@.len()
                    &&& place.original_pos * row_width + row_width <= old(out)@.len()
                },
            out@ == scattered(
                old(out)@,
                plan.scatter@,
                row_width as int,
                window@,
                scatter_start as int,
                i as int,
            ),
    {
        let place: ReadScatter = plan.scatter[i];
        proof {
            assert(plan.scatter@[i as int].original_pos * row_width + row_width <= out_len);
            assert(0 <= place.original_pos * row_width) by (nonlinear_arith);
            assert(0 <= place.row_offset_in_window * row_width) by (nonlinear_arith);
        }
        copy_values(
            window,
            place.row_offset_in_window as usize * row_width,
            out,
            place.original_pos * row_width,
            row_width,
        );
    }
}

/// `out` after the first `n` places got their rows out of the windows.
pub open spec fn gathered(
    out: Seq<F32>,
    places: Seq<ReadScatter>,
    width: int,
    windows: Seq<Seq<F32>>,
    n: int,
) -> Seq<F32>
    decreases n,
{
    if n <= 0 {
        out
    } else {
        let place = places[n - 1];
        with_row(
            gathered(out, places, width, windows, n - 1),
            width,
            place.original_pos as int,
            row_of(windows[place.window_idx as int], width, place.row_offset_in_window as int),
        )
    }
}

/// Scattering one window after the other is gathering from all windows.
pub proof fn law_windows_add_up(
    out: Seq<F32>,
    places: Seq<ReadScatter>,
    width: int,
    windows: Seq<Seq<F32>>,
    w: int,
    from: int,
    to: int,
)
    requires
        0 <= from <= to <= places.len(),
        forall|i: int| from <= i < to ==> (#[trigger] places[i]).window_idx == w,
    ensures
        scattered(gathered(out, places, width, windows, from), places, width, windows[w], from, to)
            == gathered(out, places, width, windows, to),
    decreases to - from,
{
    if from < to {
        law_windows_add_up(out, places, width, windows, w, from, to - 1);
    }
}

/// A window holds the rows of a store from its start on.
pub open spec fn window_holds(
    data: Seq<F32>,
    width: int,
    window: ReadWindow,
    store: spec_fn(int) -> Seq<F32>,
) -> bool {
    &&& data.len() >= window.row_count * width
    &&& forall|r: int|
        0 <= r < window.row_count ==> #[trigger] row_of(data, width, r) == store(
            window.start_row + r,
        )
}

/// Reading by way of a plan gives the requested rows in the requested order: where each
/// window holds the store's rows, every position of the output ends up with the row of
/// its id.
pub proof fn law_planned_read_gives_requested_rows(
    plan: BoundedReadPlan,
    ids: Seq<u32>,
    width: int,
    windows: Seq<Seq<F32>>,
    store: spec_fn(int) -> Seq<F32>,
    out: Seq<F32>,
    p: int,
)
    requires
        plan.serves(ids),
        width >= 0,
        out.len() >= ids.len() * width,
        windows.len() == plan.windows@.len(),
        forall|w: int|
            0 <= w < windows.len() ==> window_holds(
                #[trigger] windows[w],
                width,
                plan.windows@[w],
                store,
            ),
        0 <= p < ids.len(),
    ensures
        row_of(
            gathered(out, plan.scatter@, width, windows, plan.scatter@.len() as int),
            width,
            p,
        ) == store(ids[p] as int),
{
    assert(plan.places(p));
    let i = choose|i: int| 0 <= i < plan.scatter@.len() && plan.scatter@[i].original_pos == p;
    lemma_gathered_row(plan, ids, width, windows, store, out, i, plan.scatter@.len() as int);
}

proof fn lemma_gathered_row(
    plan: BoundedReadPlan,
    ids: Seq<u32>,
    width: int,
    windows: Seq<Seq<F32>>,
    store: spec_fn(int) -> Seq<F32>,
    out: Seq<F32>,
    i: int,
    n: int,
)
    requires
        plan.serves(ids),
        width >= 0,
        out.len() >= ids.len() * width,
        windows.len() == plan.windows@.len(),
        forall|w: int|
            0 <= w < windows.len() ==> window_holds(
                #[trigger] windows[w],
                width,
                plan.windows@[w],
                store,
            ),
        0 <= i < plan.scatter@.len(),
        0 <= n <= plan.scatter@.len(),
    ensures
        gathered(out, plan.scatter@, width, windows, n).len() == out.len(),
        forall|j: int|
            ids.len() * width <= j < out.len() ==> #[trigger] gathered(
                out,
                plan.scatter@,
                width,
                windows,
                n,
            )[j] == out[j],
        i < n ==> row_of(
            gathered(out, plan.scatter@, width, windows, n),
            width,
            plan.scatter@[i].original_pos as int,
        ) == store(ids[plan.scatter@[i].original_pos as int] as int),
    decreases n,
{
    if n > 0 {
        lemma_gathered_row(plan, ids, width, windows, store, out, i, n - 1);
        let place = plan.scatter@[n - 1];
        let own = plan.scatter@[i];
        let data = windows[place.window_idx as int];
        let row = row_of(data, width, place.row_offset_in_window as int);
        assert(window_holds(data, width, plan.windows@[place.window_idx as int], store));
        assert(row == store(ids[place.original_pos as int] as int));
        lemma_row_bounds(
            place.row_offset_in_window as int,
            plan.windows@[place.window_idx as int].row_count as int,
            width,
        );
        lemma_with_row(
            gathered(out, plan.scatter@, width, windows, n - 1),
            width,
            ids.len() as int,
            place.original_pos as int,
            row,
            own.original_pos as int,
        );
        if i < n - 1 {
            assert(own.original_pos != place.original_pos);
        }
    }
}

/// The values of each window's rows, where the rows lie one behind the other.
pub open spec fn window_values(values: Seq<F32>, width: int, windows: Seq<ReadWindow>) -> Seq<
    Seq<F32>,
> {
    windows.map_values(
        |window: ReadWindow|
            values.subrange(
                window.start_row * width,
                (window.start_row + window.row_count) * width,
            ),
    )
}

/// Every window ends in front of the last value.
pub open spec fn windows_within(values: Seq<F32>, width: int, windows: Seq<ReadWindow>) -> bool {
    forall|w: int|
        0 <= w < windows.len() ==> ((#[trigger] windows[w]).start_row + windows[w].row_count)
            * width <= values.len()
}

/// A part of the values holds the rows of its window.
proof fn lemma_window_holds(values: Seq<F32>, width: int, window: ReadWindow)
    requires
        width >= 0,
        (window.start_row + window.row_count) * width <= values.len(),
    ensures
        window_holds(
            values.subrange(
                window.start_row * width,
                (window.start_row + window.row_count) * width,
            ),
            width,
            window,
            |r: int| row_of(values, width, r),
        ),
{
    let start = window.start_row as int;
    let count = window.row_count as int;
    assert((start + count) * width == start * width + count * width) by (nonlinear_arith);
    assert(0 <= start * width && 0 <= count * width) by (nonlinear_arith)
        requires
            0 <= start,
            0 <= count,
            0 <= width,
    ;
    let data = values.subrange(start * width, (start + count) * width);
    let store = |r: int| row_of(values, width, r);
    assert forall|r: int| 0 <= r < count implies #[trigger] row_of(data, width, r) == store(
        start + r,
    ) by {
        lemma_row_bounds(r, count, width);
        assert((start + r) * width == start * width + r * width) by (nonlinear_arith);
        assert(row_of(data, width, r) =~= row_of(values, width, start + r));
    }
}

/// What is gathered from the windows of a plan: the rows under the ids, and behind them
/// what was there before.
pub proof fn lemma_planned_rows(
    plan: BoundedReadPlan,
    ids: Seq<u32>,
    width: int,
    values: Seq<F32>,
    before: Seq<F32>,
)
    requires
        plan.serves(ids),
        width >= 0,
        windows_within(values, width, plan.windows@),
        before.len() >= ids.len() * width,
    ensures
        ({
            let after = gathered(
                before,
                plan.scatter@,
                width,
                window_values(values, width, plan.windows@),
                plan.scatter@.len() as int,
            );
            &&& after.len() == before.len()
            &&& forall|p: int|
                0 <= p < ids.len() ==> #[trigger] row_of(after, width, p) == row_of(
                    values,
                    width,
                    ids[p] as int,
                )
            &&& forall|j: int|
                ids.len() * width <= j < before.len() ==> #[trigger] after[j] == before[j]
        }),
{
    let windows = window_values(values, width, plan.windows@);
    let store = |r: int| row_of(values, width, r);
    let n = plan.scatter@.len() as int;
    let after = gathered(before, plan.scatter@, width, windows, n);
    assert forall|w: int| 0 <= w < windows.len() implies window_holds(
        #[trigger] windows[w],
        width,
        plan.windows@[w],
        store,
    ) by {
        assert(plan.windows@[w] == plan.windows@[w]);
        lemma_window_holds(values, width, plan.windows@[w]);
    }
    if ids.len() > 0 {
        lemma_gathered_row(plan, ids, width, windows, store, before, 0, n);
    }
    assert forall|p: int| 0 <= p < ids.len() implies #[trigger] row_of(after, width, p) == row_of(
        values,
        width,
        ids[p] as int,
    ) by {
        law_planned_read_gives_requested_rows(plan, ids, width, windows, store, before, p);
    }
}

/// The text for an output of the wrong size.
pub open spec fn matrix_mismatch(got: int, expected: int) -> Seq<char> {
    "Sketch matrix size mismatch: got "@ + decimal(got as nat) + " expected "@ + decimal(
        expected as nat,
    ) + ""@
}

/// How the rows of a file are read together.
pub open spec fn file_planner(
    width: int,
    max_window_bytes: usize,
    amplification: F64,
) -> BoundedReadPlanner {
    BoundedReadPlanner {
        row_bytes: (width * 4) as usize,
        max_window_bytes,
        max_read_amplification: amplification,
    }
}

/// Sizes and offsets of the requested rows stay within the limits of planning.
pub open spec fn read_within_limits(
    width: int,
    alignment: Option<usize>,
    ids: Seq<u32>,
    max_window_bytes: int,
) -> bool {
    let row_bytes = greatest(width * 4, 1);
    match alignment {
        Some(block) => alignable(
            ids,
            RowLayout {
                row_bytes: row_bytes as usize,
                alignment: greatest(block as int, 1) as usize,
                header_bytes: HEADER_BYTES as u64,
            },
            greatest(greatest(max_window_bytes, row_bytes), greatest(block as int, 1)),
        ),
        None => plannable(ids, row_bytes, window_rows(max_window_bytes, width * 4)),
    }
}

/// The most that a read of `requested` out of `rows` rows counts.
pub open spec fn read_room(requested: int, rows: int, width: int) -> WindowedGatherStats {
    let row_bytes = greatest(width * 4, 1);
    WindowedGatherStats {
        rows_requested: requested as u64,
        windows_submitted: requested as u64,
        rows_per_window_sum: rows as u64,
        singleton_windows: requested as u64,
        range_windows: requested as u64,
        range_rows_read: rows as u64,
        logical_bytes: (requested * row_bytes) as u64,
        physical_bytes: (rows * row_bytes) as u64,
        alignment_waste_bytes: (rows * row_bytes) as u64,
        overread_rows: rows as u64,
        scatter_ops: requested as u64,
    }
}

/// The bytes of the rows asked for fit the machine, and so do the counters when a read has
/// been added to them.
pub open spec fn read_fits(
    requested: int,
    rows: int,
    width: int,
    stats: WindowedGatherStats,
) -> bool {
    &&& requested * greatest(width * 4, 1) <= u64::MAX
    &&& stats.mergeable(read_room(requested, rows, width))
}

/// The rows under `ids` exist, a window of them is counted by a `u32`, and the read fits.
pub open spec fn read_possible(
    ids: Seq<u32>,
    rows: int,
    width: int,
    max_window_bytes: int,
    stats: WindowedGatherStats,
) -> bool {
    &&& forall|i: int| 0 <= i < ids.len() ==> #[trigger] ids[i] < rows
    &&& spread_below(ids, u32::MAX as int) || window_rows(max_window_bytes, width * 4) <= u32::MAX
    &&& read_fits(ids.len() as int, rows, width, stats)
}

/// Rows that can be read can be planned.
pub proof fn lemma_read_possible(
    ids: Seq<u32>,
    rows: int,
    width: int,
    max_window_bytes: int,
    stats: WindowedGatherStats,
)
    requires
        read_possible(ids, rows, width, max_window_bytes, stats),
        0 <= width,
        0 <= rows <= usize::MAX,
        rows * greatest(width * 4, 1) <= u64::MAX,
    ensures
        read_within_limits(width, None, ids, max_window_bytes),
{
    let row_bytes = greatest(width * 4, 1);
    let limit = u64::MAX as int / row_bytes;
    assert(rows <= limit) by (nonlinear_arith)
        requires
            rows * row_bytes <= u64::MAX,
            row_bytes >= 1,
            limit == u64::MAX as int / row_bytes,
    ;
    assert forall|i: int, j: int| 0 <= i < ids.len() && 0 <= j < ids.len() implies (
    #[trigger] ids[j]) - (#[trigger] ids[i]) < rows by {
        assert(ids[j] < rows);
    }
}

/// The windows to read for the requested rows: in aligned blocks where the file is
/// accessed in such. Nothing is to be read for no ids. Fails where the output is not as
/// large as the rows together.
pub fn plan_bounded_read(
    file: &SketchFile,
    alignment: Option<usize>,
    ids: &[u32],
    out_len: usize,
    max_window_bytes: usize,
    max_read_amplification: F64,
) -> (result: AnnResult<Option<BoundedReadPlan>>)
    requires
        file.width * 4 <= usize::MAX,
        read_within_limits(file.width as int, alignment, ids@, max_window_bytes as int),
    ensures
        ids@.len() == 0 ==> result == Ok::<Option<BoundedReadPlan>, AnnError>(None),
        ids@.len() > 0 && out_len != ids@.len() * file.width ==> (result matches Err(error)
            && error.is_index(
            matrix_mismatch(out_len as int, capped(ids@.len() * file.width)),
        )),
        ids@.len() > 0 && out_len == ids@.len() * file.width ==> (result matches Ok(Some(plan))
            && plan.serves(ids@) && plan.in_window_order() && plan.requested_rows == ids@.len()
            && plan.row_bytes == greatest(file.width * 4, 1) && plan.physical_rows == rows_in(
            plan.windows@,
        ) && (match alignment {
            Some(block) => plan.physical_bytes == aligned_bytes_in(
                file_planner(
                    file.width as int,
                    max_window_bytes,
                    max_read_amplification,
                ).layout(block as int, HEADER_BYTES as u64),
                plan.windows@,
            ),
            None => plan.physical_bytes == rows_in(plan.windows@) * greatest(file.width * 4, 1)
                && plan.windows@.len() <= ids@.len() && plan.apart() && plan.spans_ids(ids@),
        }) && exists|order: Seq<usize>| #[trigger]
            sorts(id_keys(ids@), order) && plan.follows(
                ids@,
                order,
                match alignment {
                    Some(block) => file_planner(
                        file.width as int,
                        max_window_bytes,
                        max_read_amplification,
                    ).aligned_joins(ids@, order, block as int, HEADER_BYTES as u64),
                    None => file_planner(
                        file.width as int,
                        max_window_bytes,
                        max_read_amplification,
                    ).joins(ids@, order),
                },
                ids@.len() as int,
            )),
{
    if ids.len() == 0 {
        return Ok(None);
    }
    if !product_is(ids.len(), file.width, out_len) {
        return Err(
            index_error(
                with_numbers(
                    "Sketch matrix size mismatch: got ",
                    out_len as u64,
                    " expected ",
                    sat_mul(ids.len(), file.width) as u64,
                    "",
                ),
            ),
        );
    }
    let planner: BoundedReadPlanner = BoundedReadPlanner {
        row_bytes: file.width * 4,
        max_window_bytes,
        max_read_amplification,
    };
    let plan: BoundedReadPlan = match alignment {
        Some(block) => planner.plan_with_aligned_read_cost(ids, block, HEADER_BYTES as u64),
        None => planner.plan(ids),
    };
    Ok(Some(plan))
}

/// The windows to read for the requested rows where small gaps are bridged. Nothing is to
/// be read for no ids. Fails where the output is not as large as the rows together.
pub fn plan_windowed_read(
    file: &SketchFile,
    ids: &[u32],
    out_len: usize,
    options: &WindowedGatherOptions,
) -> (result: AnnResult<Option<BoundedReadPlan>>)
    requires
        file.width * 4 <= usize::MAX,
        read_within_limits(file.width as int, None, ids@, options.max_window_bytes as int),
    ensures
        ids@.len() == 0 ==> result == Ok::<Option<BoundedReadPlan>, AnnError>(None),
        ids@.len() > 0 && out_len != ids@.len() * file.width ==> (result matches Err(error)
            && error.is_index(
            matrix_mismatch(out_len as int, capped(ids@.len() * file.width)),
        )),
        ids@.len() > 0 && out_len == ids@.len() * file.width ==> (result matches Ok(Some(plan))
            && plan.serves(ids@) && plan.in_window_order() && plan.requested_rows == ids@.len()
            && plan.row_bytes == greatest(file.width * 4, 1) && plan.physical_rows == rows_in(
            plan.windows@,
        ) && plan.physical_bytes == rows_in(plan.windows@) * greatest(file.width * 4, 1)
            && plan.windows@.len() <= ids@.len() && plan.apart() && plan.spans_ids(ids@)
            && exists|order: Seq<usize>| #[trigger]
            sorts(id_keys(ids@), order) && plan.follows(
                ids@,
                order,
                gap_joins(
                    ids@,
                    order,
                    options.max_gap_rows as int,
                    window_rows(options.max_window_bytes as int, file.width * 4),
                ),
                ids@.len() as int,
            )),
{
    if ids.len() == 0 {
        return Ok(None);
    }
    if !product_is(ids.len(), file.width, out_len) {
        return Err(
            index_error(
                with_numbers(
                    "Sketch matrix size mismatch: got ",
                    out_len as u64,
                    " expected ",
                    sat_mul(ids.len(), file.width) as u64,
                    "",
                ),
            ),
        );
    }
    Ok(Some(build_gather_plan(ids, file.width * 4, options)))
}

/// The plan reads the rows under `ids` in windows that bridge small gaps.
pub open spec fn windowed_plan(
    width: int,
    ids: Seq<u32>,
    options: WindowedGatherOptions,
    plan: BoundedReadPlan,
) -> bool {
    &&& counted_plan(width, ids, plan)
    &&& exists|order: Seq<usize>| #[trigger]
        sorts(id_keys(ids), order) && plan.follows(
            ids,
            order,
            gap_joins(
                ids,
                order,
                options.max_gap_rows as int,
                window_rows(options.max_window_bytes as int, width * 4),
            ),
            ids.len() as int,
        )
}

/// The plan reads the rows under `ids` in windows that stay within the bounds.
pub open spec fn bounded_plan(
    width: int,
    ids: Seq<u32>,
    max_window_bytes: usize,
    max_read_amplification: F64,
    plan: BoundedReadPlan,
) -> bool {
    &&& counted_plan(width, ids, plan)
    &&& exists|order: Seq<usize>| #[trigger]
        sorts(id_keys(ids), order) && plan.follows(
            ids,
            order,
            file_planner(width, max_window_bytes, max_read_amplification).joins(
                ids,
                order,
            ),
            ids.len() as int,
        )
}

/// The plan's counts are those of its windows.
pub open spec fn counted_plan(width: int, ids: Seq<u32>, plan: BoundedReadPlan) -> bool {
    &&& plan.requested_rows == ids.len()
    &&& plan.row_bytes == greatest(width * 4, 1)
    &&& plan.physical_rows == rows_in(plan.windows@)
    &&& plan.physical_bytes == rows_in(plan.windows@) * greatest(width * 4, 1)
    &&& plan.windows@.len() <= plan.scatter@.len() == ids.len()
    &&& plan.apart()
    &&& plan.spans_ids(ids)
    &&& plan.serves(ids)
}

/// Windows that ascend in front of `rows` hold no more rows than that together.
proof fn lemma_rows_apart_total(windows: Seq<ReadWindow>, n: int, rows: int)
    requires
        0 <= n <= windows.len(),
        0 <= rows,
        forall|a: int, b: int|
            0 <= a < b < windows.len() ==> (#[trigger] windows[a]).start_row + windows[a].row_count
                <= (#[trigger] windows[b]).start_row,
        n > 0 ==> windows[n - 1].start_row + windows[n - 1].row_count <= rows,
    ensures
        rows_in(windows.take(n)) <= rows,
    decreases n,
{
    if n > 0 {
        assert(windows.take(n).drop_last() =~= windows.take(n - 1));
        if n > 1 {
            assert(windows[n - 2].start_row + windows[n - 2].row_count <= windows[n - 1].start_row);
        }
        lemma_rows_apart_total(windows, n - 1, windows[n - 1].start_row as int);
    }
}

/// What the plan takes fits the counters.
pub proof fn lemma_countable(width: int, ids: Seq<u32>, plan: BoundedReadPlan, rows: int)
    requires
        counted_plan(width, ids, plan),
        0 <= width,
        0 <= rows,
        forall|i: int| 0 <= i < ids.len() ==> #[trigger] ids[i] < rows,
        ids.len() <= u64::MAX,
        ids.len() * greatest(width * 4, 1) <= u64::MAX,
        rows * greatest(width * 4, 1) <= u64::MAX,
    ensures
        rows_in(plan.windows@) <= rows <= u64::MAX,
        rows_in(plan.windows@) * (width * 4) <= u64::MAX,
        plan_counters(plan, width * 4).at_most(read_room(ids.len() as int, rows, width)),
{
    let held = rows_in(plan.windows@);
    let bytes = greatest(width * 4, 1);
    let n = plan.windows@.len() as int;
    lemma_window_sums_low(plan.windows@);
    assert(plan.windows@.take(n) =~= plan.windows@);
    if n > 0 {
        let window = plan.windows@[n - 1];
        let end = (window.start_row + window.row_count - 1) as u32;
        assert(ids.contains(window.start_row) && ids.contains(end));
        assert(end < rows && window.start_row < rows);
        assert(plan.windows@[n - 1] == window);
    }
    lemma_rows_apart_total(plan.windows@, n, rows);
    assert(held <= held * bytes <= rows * bytes && held * (width * 4) <= held * bytes && 0 <= held
        * (width * 4) && rows <= rows * bytes) by (nonlinear_arith)
        requires
            0 <= held <= rows,
            bytes >= 1,
            bytes >= width * 4 >= 0,
    ;
    assert(plan.requested_rows * plan.row_bytes == ids.len() * bytes);
    assert(0 <= ids.len() * bytes) by (nonlinear_arith)
        requires
            bytes >= 1,
    ;
}

/// Reads in a queue pay from this many windows on.
pub const SKETCH_URING_WINDOW_GATHER_MIN_WINDOWS: usize = 2;

/// The most reads that a queue takes at once.
pub const SKETCH_URING_WINDOW_GATHER_QUEUE_DEPTH: usize = 32;

/// One window's read in a queue.
#[derive(Clone, Copy, Debug, PartialEq, Eq, Structural)]
pub struct SketchUringWindowRead {
    pub window_idx: usize,
    /// The blocks that are read.
    pub span: AlignedSpan,
    /// The bytes of the window's rows.
    pub logical_len: usize,
}

impl SketchUringWindowRead {
    /// The read fetches the window's rows.
    pub open spec fn fetches(
        self,
        plan: BoundedReadPlan,
        row_bytes: int,
        alignment: int,
        window_idx: int,
    ) -> bool {
        let window = plan.windows@[window_idx];
        &&& self.window_idx == window_idx
        &&& self.logical_len == window.row_count * row_bytes
        &&& self.span.covers(
            HEADER_BYTES + window.start_row * row_bytes,
            window.row_count * row_bytes,
            alignment,
        )
    }

    /// The bytes that a read has to bring.
    pub open spec fn needed(self) -> int {
        self.span.prefix + self.logical_len
    }
}

/// Whether the windows of a plan are read through a queue.
pub fn uses_window_queue(plan: &BoundedReadPlan) -> (result: bool)
    ensures
        result == (plan.windows@.len() >= SKETCH_URING_WINDOW_GATHER_MIN_WINDOWS),
{
    plan.windows.len() >= SKETCH_URING_WINDOW_GATHER_MIN_WINDOWS
}

/// Every window's span fits the machine.
pub open spec fn windows_fit(plan: BoundedReadPlan, row_bytes: int, alignment: int) -> bool {
    forall|w: int|
        0 <= w < plan.windows@.len() ==> {
            let window = #[trigger] plan.windows@[w];
            &&& HEADER_BYTES + (window.start_row + window.row_count) * row_bytes <= u64::MAX
            &&& window.row_count * row_bytes <= usize::MAX
            &&& span_fits(
                HEADER_BYTES + window.start_row * row_bytes,
                window.row_count * row_bytes,
                alignment,
            )
        }
}

/// The reads that go into the queue next: those of the windows from `next_window` on, as
/// many as the queue takes.
pub fn next_uring_batch(
    plan: &BoundedReadPlan,
    next_window: usize,
    row_bytes: usize,
    alignment: usize,
) -> (reads: Vec<SketchUringWindowRead>)
    requires
        next_window <= plan.windows@.len(),
        windows_fit(*plan, row_bytes as int, greatest(alignment as int, 1)),
    ensures
        reads@.len() == least(
            SKETCH_URING_WINDOW_GATHER_QUEUE_DEPTH as int,
            plan.windows@.len() - next_window,
        ),
        forall|i: int|
            0 <= i < reads@.len() ==> (#[trigger] reads@[i]).fetches(
                *plan,
                row_bytes as int,
                greatest(alignment as int, 1),
                next_window + i,
            ),
{
    let block: usize = max_usize(alignment, 1);
    let left: usize = plan.windows.len() - next_window;
    let count: usize = min_usize(SKETCH_URING_WINDOW_GATHER_QUEUE_DEPTH, left);
    let mut reads: Vec<SketchUringWindowRead> = Vec::with_capacity(count);
    for i in 0..count
        invariant
            count <= plan.windows@.len() - next_window,
            block == greatest(alignment as int, 1),
            windows_fit(*plan, row_bytes as int, block as int),
            reads@.len() == i,
            forall|k: int|
                0 <= k < reads@.len() ==> (#[trigger] reads@[k]).fetches(
                    *plan,
                    row_bytes as int,
                    block as int,
                    next_window + k,
                ),
    {
        assert(plan.windows.len() == plan.windows@.len());
        let window_idx: usize = next_window + i;
        let window: ReadWindow = plan.windows[window_idx];
        proof {
            assert(plan.windows@[window_idx as int] == window);
            assert((window.start_row + window.row_count) * row_bytes == window.start_row * row_bytes
                + window.row_count * row_bytes) by (nonlinear_arith);
            assert(0 <= window.start_row * row_bytes) by (nonlinear_arith);
            assert(0 <= window.row_count * row_bytes) by (nonlinear_arith);
        }
        let offset: u64 = HEADER_BYTES as u64 + window.start_row as u64 * row_bytes as u64;
        let logical_len: usize = window.row_count as usize * row_bytes;
        let span: AlignedSpan = AlignedSpan::around(offset, logical_len, block);
        reads.push(SketchUringWindowRead { window_idx, span, logical_len });
    }
    reads
}

/// Why a read in a queue has failed.
#[derive(Debug)]
pub enum UringReadError {
    /// A completion for a read that is not in the batch.
    InvalidSlot { text: String },
    /// The system's error number.
    Os { code: i32 },
    /// Fewer bytes than the window needs.
    ShortRead { text: String },
}

/// A batch of reads on its way.
#[derive(Clone, Copy, Debug, PartialEq, Eq, Structural)]
pub struct UringBatchProgress {
    pub total: usize,
    pub completed: usize,
}

impl UringBatchProgress {
    pub open spec fn wf(self) -> bool {
        self.completed <= self.total
    }

    pub fn start(total: usize) -> (progress: UringBatchProgress)
        ensures
            progress.wf(),
            progress == (UringBatchProgress { total, completed: 0 }),
    {
        UringBatchProgress { total, completed: 0 }
    }

    pub fn is_done(&self) -> (done: bool)
        ensures
            done == (self.completed >= self.total),
    {
        self.completed >= self.total
    }

    /// Takes in a completion: the slot of the read that it is for, and the bytes that came
    /// or a negative error number. Fails where the slot is not one of the batch, where the
    /// system reports an error, and where the bytes do not reach the window's end.
    pub fn complete(
        &mut self,
        reads: &Vec<SketchUringWindowRead>,
        slot: u64,
        result: i32,
    ) -> (outcome: Result<(), UringReadError>)
        requires
            old(self).wf(),
            old(self).total == reads@.len(),
            old(self).completed < old(self).total,
            forall|i: int|
                0 <= i < reads@.len() ==> (#[trigger] reads@[i]).needed() <= usize::MAX,
        ensures
            final(self).wf(),
            final(self).total == old(self).total,
            final(self).completed == old(self).completed + (if outcome is Ok {
                1int
            } else {
                0
            }),
            match outcome {
                Ok(_) => slot < reads@.len() && result >= 0 && result
                    >= reads@[slot as int].needed(),
                Err(UringReadError::InvalidSlot { text }) => slot >= reads@.len() && text@
                    == "io_uring returned invalid sketch window slot "@ + decimal(slot as nat)
                    + ""@,
                Err(UringReadError::Os { code }) => slot < reads@.len() && result < 0 && code
                    == if result == i32::MIN {
                    i32::MAX as int
                } else {
                    -result
                },
                Err(UringReadError::ShortRead { text }) => slot < reads@.len() && 0 <= result
                    < reads@[slot as int].needed() && text@
                    == "io_uring sketch short read: got "@ + decimal(result as nat)
                    + ", expected at least "@ + decimal(reads@[slot as int].needed() as nat)
                    + ""@,
            },
    {
        if slot >= reads.len() as u64 {
            return Err(
                UringReadError::InvalidSlot {
                    text: with_number("io_uring returned invalid sketch window slot ", slot, ""),
                },
            );
        }
        if result < 0 {
            let code: i32 = if result == i32::MIN {
                i32::MAX
            } else {
                -result
            };
            return Err(UringReadError::Os { code });
        }
        let read: SketchUringWindowRead = reads[slot as usize];
        proof {
            assert(reads@[slot as int].needed() <= usize::MAX);
        }
        let needed: usize = read.span.prefix + read.logical_len;
        if (result as u64) < needed as u64 {
            return Err(
                UringReadError::ShortRead {
                    text: with_numbers(
                        "io_uring sketch short read: got ",
                        result as u64,
                        ", expected at least ",
                        needed as u64,
                        "",
                    ),
                },
            );
        }
        self.completed = self.completed + 1;
        Ok(())
    }
}

} // verus!
