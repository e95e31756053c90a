//! Reading rows of a store in memory in windows, as they are read from a file.

use vstd::prelude::*;

use crate::ann_result::AnnResult;
use crate::arith::{capped, greatest, max_usize, sat_mul};
use crate::float_bits::{F32, F64};
use crate::gather::{WindowedGatherOptions, WindowedGatherStats};
use crate::io_runtime::{
    build_gather_plan, gap_joins, id_keys, lemma_windows_inside, window_rows, BoundedReadPlan,
    ReadWindow,
};
use crate::order::sorts;
use crate::rows::{lemma_row_bounds, row_of, values_between};
use crate::sketch::{rows_read, SketchAccessor, SketchStore};
use crate::sketch_read::{
    bounded_sketch_scatter_ranges, gathered, law_windows_add_up, lemma_countable,
    lemma_planned_rows, lemma_read_possible, plan_counters, ranges_end, read_possible,
    record_bounded_sketch_plan_stats, scatter_bounded_sketch_window, window_range, window_values,
    windowed_plan,
};

verus! {

/// How rows are read where nothing but a window's size is bounded.
pub open spec fn gapless(max_window_bytes: int, width: int) -> WindowedGatherOptions {
    let row_bytes = greatest(capped(width * 4), 1);
    WindowedGatherOptions {
        max_gap_rows: 0,
        max_window_bytes: greatest(max_window_bytes, row_bytes) as usize,
        alignment_bytes: row_bytes as usize,
        sort_ids: true,
    }
}

impl SketchStore {
    /// The rows under `ids` may be read into counted windows.
    pub open spec fn readable(
        &self,
        ids: Seq<u32>,
        max_window_bytes: int,
        out: int,
        stats: WindowedGatherStats,
    ) -> bool {
        &&& self.row_len() * 4 <= usize::MAX
        &&& self.row_total() * greatest(self.row_len() * 4, 1) <= u64::MAX
        &&& read_possible(ids, self.row_total(), self.row_len(), max_window_bytes, stats)
        &&& ids.len() * self.row_len() <= out
    }

    /// `after` holds the rows under `ids`, and behind them what `before` held.
    pub open spec fn gathers(&self, ids: Seq<u32>, before: Seq<F32>, after: Seq<F32>) -> bool {
        &&& after.len() == before.len()
        &&& rows_read(
            |id: int, row: Seq<F32>| self.holds(id, row),
            self.row_len(),
            ids,
            after,
            ids.len() as int,
        )
        &&& forall|j: int|
            ids.len() * self.row_len() <= j < before.len() ==> #[trigger] after[j] == before[j]
    }

    /// The rows under `ids`, copied in windows that bridge small gaps and counted as such.
    pub fn read_rows_windowed_into_stats(
        &self,
        ids: &[u32],
        out: &mut [F32],
        options: &WindowedGatherOptions,
        stats: &mut WindowedGatherStats,
    ) -> (result: AnnResult<()>)
        requires
            self.readable(
                ids@,
                options.max_window_bytes as int,
                old(out)@.len() as int,
                *old(stats),
            ),
        ensures
            result is Ok,
            self.gathers(ids@, old(out)@, final(out)@),
            if ids@.len() == 0 {
                *final(stats) == *old(stats)
            } else {
                exists|plan: BoundedReadPlan| #[trigger]
                    windowed_plan(self.row_len(), ids@, *options, plan) && *final(stats) == old(
                        stats,
                    ).merged(plan_counters(plan, self.row_len() * 4))
            },
    {
        if ids.len() == 0 {
            return Ok(());
        }
        let row_bytes: usize = self.width() * 4;
        let data: &[F32] = self.data();
        assert(data.len() == data@.len());
        proof {
            assert(ids@[0] < self.row_total());
            self.lemma_rows_counted();
            lemma_read_possible(
                ids@,
                self.row_total(),
                self.row_len(),
                options.max_window_bytes as int,
                *stats,
            );
        }
        let plan: BoundedReadPlan = build_gather_plan(ids, row_bytes, options);
        proof {
            let limit = window_rows(options.max_window_bytes as int, self.row_len() * 4);
            let order = choose|order: Seq<usize>| #[trigger]
                sorts(id_keys(ids@), order) && plan.follows(
                    ids@,
                    order,
                    gap_joins(ids@, order, options.max_gap_rows as int, limit),
                    ids@.len() as int,
                );
            lemma_windows_inside(
                plan,
                ids@,
                order,
                gap_joins(ids@, order, options.max_gap_rows as int, limit),
                self.row_total(),
            );
            assert(windowed_plan(self.row_len(), ids@, *options, plan));
            lemma_countable(self.row_len(), ids@, plan, self.row_total());
        }
        record_bounded_sketch_plan_stats(&plan, row_bytes, stats);
        self.copy_planned(&plan, ids, out);
        Ok(())
    }

    /// As `read_rows_windowed_into_stats` with no gaps: the amplification stays at one.
    pub fn read_rows_bounded_into_stats(
        &self,
        ids: &[u32],
        out: &mut [F32],
        max_window_bytes: usize,
        _max_read_amplification: F64,
        stats: &mut WindowedGatherStats,
    ) -> (result: AnnResult<()>)
        requires
            self.readable(
                ids@,
                max_window_bytes as int,
                old(out)@.len() as int,
                *old(stats),
            ),
        ensures
            result is Ok,
            self.gathers(ids@, old(out)@, final(out)@),
            if ids@.len() == 0 {
                *final(stats) == *old(stats)
            } else {
                exists|plan: BoundedReadPlan| #[trigger]
                    windowed_plan(
                        self.row_len(),
                        ids@,
                        gapless(max_window_bytes as int, self.row_len()),
                        plan,
                    ) && *final(stats) == old(stats).merged(
                        plan_counters(plan, self.row_len() * 4),
                    )
            },
    {
        let row_bytes: usize = max_usize(sat_mul(self.width(), 4), 1);
        let options: WindowedGatherOptions = WindowedGatherOptions {
            max_gap_rows: 0,
            max_window_bytes: max_usize(max_window_bytes, row_bytes),
            alignment_bytes: row_bytes,
            sort_ids: true,
        };
        proof {
            assert(options == gapless(max_window_bytes as int, self.row_len()));
        }
        self.read_rows_windowed_into_stats(ids, out, &options, stats)
    }

    /// Carries out a plan: copies the rows of its windows to their places.
    fn copy_planned(&self, plan: &BoundedReadPlan, ids: &[u32], out: &mut [F32])
        requires
            plan.serves(ids@),
            plan.in_window_order(),
            forall|w: int|
                0 <= w < plan.windows@.len() ==> (#[trigger] plan.windows@[w]).start_row
                    + plan.windows@[w].row_count <= self.row_total(),
            old(out)@.len() >= ids@.len() * self.row_len(),
        ensures
            self.gathers(ids@, old(out)@, final(out)@),
    {
        let width: usize = self.width();
        let ranges: Vec<(usize, usize)> = bounded_sketch_scatter_ranges(plan);
        let ghost windows = window_values(self.values(), self.row_len(), plan.windows@);
        for w in 0..plan.windows.len()
            invariant
                width == self.row_len(),
                windows == window_values(self.values(), self.row_len(), plan.windows@),
                plan.serves(ids@),
                ranges@.len() == plan.windows@.len(),
                forall|k: int|
                    0 <= k < plan.windows@.len() ==> (#[trigger] plan.windows@[k]).start_row
                        + plan.windows@[k].row_count <= self.row_total(),
                forall|k: int|
                    0 <= k < ranges@.len() ==> window_range(*plan, k, #[trigger] ranges@[k]),
                forall|k: int|
                    0 <= k < ranges@.len() ==> (#[trigger] ranges@[k]).0 == ranges_end(ranges@, k),
                old(out)@.len() >= ids@.len() * width,
                out@.len() == old(out)@.len(),
                out@ == gathered(
                    old(out)@,
                    plan.scatter@,
                    self.row_len(),
                    windows,
                    ranges_end(ranges@, w as int),
                ),
        {
            let window: ReadWindow = plan.windows[w];
            let (from, to) = ranges[w];
            let data: &[F32] = self.data();
            assert(data.len() == data@.len());
            proof {
                assert(plan.windows@[w as int] == window);
                assert(window_range(*plan, w as int, ranges@[w as int]));
                assert(ranges@[w as int].0 == ranges_end(ranges@, w as int));
                self.lemma_window_within(window);
                assert forall|i: int| from <= i < to implies {
                    let place = #[trigger] plan.scatter@[i];
                    &&& place.window_idx == w
                    &&& place.row_offset_in_window * width + width <= window.row_count * width
                    &&& place.original_pos * width + width <= out@.len()
                } by {
                    let place = plan.scatter@[i];
                    assert(place.window_idx == w);
                    lemma_row_bounds(
                        place.row_offset_in_window as int,
                        window.row_count as int,
                        width as int,
                    );
                    lemma_row_bounds(place.original_pos as int, ids@.len() as int, width as int);
                }
            }
            let start: usize = window.start_row as usize * width;
            let values: Vec<F32> = values_between(
                data,
                start,
                start + window.row_count as usize * width,
            );
            proof {
                assert(values@ =~= windows[w as int]);
                law_windows_add_up(
                    old(out)@,
                    plan.scatter@,
                    width as int,
                    windows,
                    w as int,
                    from as int,
                    to as int,
                );
            }
            scatter_bounded_sketch_window(plan, from, to, width, values.as_slice(), out);
        }
        proof {
            assert forall|w: int| 0 <= w < plan.windows@.len() implies ((
            #[trigger] plan.windows@[w]).start_row + plan.windows@[w].row_count) * self.row_len()
                <= self.values().len() by {
                self.lemma_window_within(plan.windows@[w]);
            }
            lemma_planned_rows(*plan, ids@, self.row_len(), self.values(), old(out)@);
            assert forall|p: int| 0 <= p < ids@.len() implies (
            |id: int, row: Seq<F32>| self.holds(id, row))(
                #[trigger] ids@[p] as int,
                row_of(out@, self.row_len(), p),
            ) by {}
        }
    }

    /// The rows are counted by a `usize`.
    proof fn lemma_rows_counted(&self)
        requires
            self.row_len() >= 0,
            self.values().len() <= usize::MAX,
        ensures
            0 <= self.row_total() <= usize::MAX,
    {
        let w = self.row_len();
        let n = self.values().len() as int;
        if w > 0 {
            vstd::arithmetic::div_mod::lemma_div_is_ordered_by_denominator(n, 1, w);
            vstd::arithmetic::div_mod::lemma_div_pos_is_pos(n, w);
        }
    }

    /// The rows of a window lie within the values.
    proof fn lemma_window_within(&self, window: ReadWindow)
        requires
            self.row_len() >= 0,
            window.start_row + window.row_count <= self.row_total(),
        ensures
            0 <= window.start_row * self.row_len(),
            window.start_row * self.row_len() + window.row_count * self.row_len() == (
            window.start_row + window.row_count) * self.row_len(),
            0 <= window.row_count * self.row_len(),
            (window.start_row + window.row_count) * self.row_len() <= self.values().len(),
    {
        let w = self.row_len();
        let start = window.start_row as int;
        let count = window.row_count as int;
        let n = self.values().len() as int;
        assert((start + count) * w == start * w + count * w) by (nonlinear_arith);
        assert(0 <= start * w && 0 <= count * w) by (nonlinear_arith)
            requires
                0 <= start,
                0 <= count,
                0 <= w,
        ;
        if w > 0 {
            vstd::arithmetic::div_mod::lemma_fundamental_div_mod(n, w);
            vstd::arithmetic::div_mod::lemma_mod_bound(n, w);
            let rows = n / w;
            assert((start + count) * w <= w * rows) by (nonlinear_arith)
                requires
                    start + count <= rows,
                    0 <= w,
            ;
        }
    }
}

} // verus!
