//! What planned reads come to: which rows are read together, and why not more.

use vstd::arithmetic::div_mod::{lemma_fundamental_div_mod, lemma_mod_bound};
use vstd::arithmetic::power2::{lemma_pow2_adds, lemma_pow2_pos, lemma_pow2_unfold, pow2};
use vstd::prelude::*;

use crate::float_bits::{
    double_step, f64_exponent, f64_significand, nearest_double, quotient_within, F64,
};
use crate::float_value::{double_units, magnitude_units};
use crate::io_runtime::{
    closes_window, gap_joins, id_keys, lemma_layout, lemma_places_behind, lemma_places_in,
    lemma_same_window, lemma_sorted_ids, lemma_window_has_row, lemma_window_start_bounds, rows_in,
    sorted_id, touched_blocks, touched_end, window_number, window_rows, window_start,
    BoundedReadPlan, BoundedReadPlanner, ReadWindow, RowLayout,
};
use crate::order::sorts;
use crate::sketch_read::{plan_counters, rows_in_ranges, single_windows};

verus! {

/// A bound from one on as a number: its significand, doubled with its exponent; and the next
/// larger one.
proof fn lemma_bound_units(bound: F64)
    requires
        0x3ff0_0000_0000_0000 <= bound.bits < 0x7ff0_0000_0000_0000,
    ensures
        f64_exponent(bound) >= 0,
        double_units(bound) == f64_significand(bound) * pow2((f64_exponent(bound) + 1022) as nat),
        double_units(F64 { bits: (bound.bits + 1) as u64 }) == (f64_significand(bound) + 1) * pow2(
            (f64_exponent(bound) + 1022) as nat,
        ),
{
    let one = 0x10_0000_0000_0000int;
    vstd::arithmetic::power2::lemma2_to64_rest();
    assert(pow2(52) == one);
    let m = bound.bits as int;
    let e = m / one;
    let f = m % one;
    lemma_fundamental_div_mod(m, one);
    lemma_mod_bound(m, one);
    assert(e - 1023 == f64_exponent(bound));
    let p = pow2((e - 1) as nat) as int;
    assert(magnitude_units(m, 52) == (one + f) * p);
    if f + 1 < one {
        vstd::arithmetic::div_mod::lemma_fundamental_div_mod_converse(m + 1, one, e, f + 1);
        assert(magnitude_units(m + 1, 52) == (one + (f + 1)) * p);
    } else {
        vstd::arithmetic::div_mod::lemma_fundamental_div_mod_converse(m + 1, one, e + 1, 0);
        lemma_pow2_unfold(e as nat);
        assert(magnitude_units(m + 1, 52) == (one + 0) * pow2(e as nat));
        assert((one + 0) * (2 * p) == (one + one) * p) by (nonlinear_arith);
    }
}

/// A quotient that is not above the bound counts as within it, and one that is above the
/// next larger double does not: only rounding to a double lies between them.
pub proof fn law_quotients_are_held_against_the_bound(
    numerator: int,
    denominator: int,
    bound: F64,
)
    requires
        0 <= numerator,
        0 < denominator,
        0x3ff0_0000_0000_0000 <= bound.bits < 0x7ff0_0000_0000_0000,
    ensures
        numerator * pow2(1074) <= denominator * double_units(bound) ==> quotient_within(
            numerator,
            denominator,
            bound,
        ),
        numerator * pow2(1074) >= denominator * double_units(F64 { bits: (bound.bits + 1) as u64 })
            ==> !quotient_within(numerator, denominator, bound),
{
    lemma_bound_units(bound);
    let e = f64_exponent(bound);
    let sig = f64_significand(bound);
    let power = pow2(e as nat) as int;
    let lift = pow2(1021) as int;
    lemma_pow2_pos(e as nat);
    lemma_pow2_pos(1021);
    lemma_pow2_adds(53, 1021);
    lemma_pow2_adds(e as nat, 1022);
    lemma_pow2_unfold(1022);
    let scaled = numerator * pow2(53);
    let middle = denominator * (2 * sig + 1) * power;
    let unit = power * (2 * lift);
    assert(pow2((e + 1022) as nat) == unit);
    assert(scaled * lift == numerator * pow2(1074)) by (nonlinear_arith)
        requires
            scaled == numerator * pow2(53),
            pow2(1074) == pow2(53) * lift,
    ;
    assert(2 * (middle * lift) == 2 * (denominator * (sig * unit)) + denominator * unit)
        by (nonlinear_arith)
        requires
            middle == denominator * (2 * sig + 1) * power,
            unit == power * (2 * lift),
    ;
    assert(denominator * ((sig + 1) * unit) == denominator * (sig * unit) + denominator * unit)
        by (nonlinear_arith);
    assert(denominator * unit > 0) by (nonlinear_arith)
        requires
            denominator > 0,
            unit == power * (2 * lift),
            power > 0,
            lift > 0,
    ;
    if scaled * lift < middle * lift {
        assert(scaled < middle) by (nonlinear_arith)
            requires
                scaled * lift < middle * lift,
                lift > 0,
        ;
    }
    if scaled * lift > middle * lift {
        assert(scaled > middle) by (nonlinear_arith)
            requires
                scaled * lift > middle * lift,
                lift > 0,
        ;
    }
}

proof fn lemma_step_size(n: int)
    requires
        0 <= n,
    ensures
        double_step(n) >= 1,
        double_step(n) > 1 ==> double_step(n) * 0x10_0000_0000_0000 <= n,
        n <= 0x20_0000_0000_0000 ==> double_step(n) == 1 || n == 0x20_0000_0000_0000,
    decreases n,
{
    if n >= 0x20_0000_0000_0000 {
        lemma_step_size(n / 2);
    }
}

/// A number up to 2^53 is kept as a double, and a larger one is moved by no more than its
/// 2^53-th part.
pub proof fn law_nearest_double_is_near(n: int)
    requires
        0 <= n,
    ensures
        n < 0x20_0000_0000_0000 ==> nearest_double(n) == n,
        (nearest_double(n) - n) * 0x20_0000_0000_0000 <= n,
        (n - nearest_double(n)) * 0x20_0000_0000_0000 <= n,
{
    lemma_step_size(n);
    let step = double_step(n);
    let down = n / step;
    lemma_fundamental_div_mod(n, step);
    lemma_mod_bound(n, step);
    assert(step * down == down * step) by (nonlinear_arith);
    assert((down + 1) * step == down * step + step) by (nonlinear_arith);
}

/// Where one window ends and the next begins, the next row was not taken in.
proof fn lemma_window_ends(
    plan: BoundedReadPlan,
    ids: Seq<u32>,
    order: Seq<usize>,
    joins: spec_fn(int, int) -> bool,
    w: int,
) -> (last: int)
    requires
        plan.follows(ids, order, joins, ids.len() as int),
        0 <= w,
        w + 1 < plan.windows@.len(),
    ensures
        0 <= last,
        last + 1 < ids.len(),
        !joins(window_start(joins, last), last + 1),
        0 <= window_start(joins, last) <= last,
        plan.windows@[w].start_row == sorted_id(ids, order, window_start(joins, last)),
        plan.windows@[w].start_row + plan.windows@[w].row_count - 1 == sorted_id(ids, order, last),
        plan.windows@[w + 1].start_row == sorted_id(ids, order, last + 1),
        plan.places_in(w, plan.scatter@.len() as int) == last - window_start(joins, last) + 1,
{
    let n = ids.len() as int;
    let last = lemma_window_has_row(joins, n - 1, w);
    lemma_window_start_bounds(joins, last);
    assert(plan.placed(ids, order, joins, n, last));
    assert(last + 1 < n) by {
        if last == n - 1 {
            assert(plan.windows@.len() == window_number(joins, n - 1) + 1);
        }
    }
    assert(closes_window(joins, n, last));
    assert(plan.placed(ids, order, joins, n, last + 1));
    lemma_places_in(plan, ids, order, joins, last);
    lemma_places_behind(plan, ids, order, joins, last, n);
    last
}

/// A window that bounds bytes and amplification ends only where the next row would break
/// one of them: with it the rows from the first one on would be more than a window holds, or
/// too many for those that were asked for.
pub proof fn law_windows_end_where_they_must(
    planner: BoundedReadPlanner,
    plan: BoundedReadPlan,
    ids: Seq<u32>,
    order: Seq<usize>,
    w: int,
)
    requires
        plan.follows(ids, order, planner.joins(ids, order), ids.len() as int),
        0 <= w,
        w + 1 < plan.windows@.len(),
        planner.row_bytes >= 1,
    ensures
        ({
            let rows = plan.windows@[w + 1].start_row - plan.windows@[w].start_row + 1;
            let wanted = plan.places_in(w, plan.scatter@.len() as int) + 1;
            ||| rows * planner.row_bytes > planner.max_window_bytes
            ||| !quotient_within(rows, wanted, planner.amplification_bound())
        }),
{
    let joins = planner.joins(ids, order);
    let last = lemma_window_ends(plan, ids, order, joins, w);
    let rows = plan.windows@[w + 1].start_row - plan.windows@[w].start_row + 1;
    let each = planner.row_bytes as int;
    if rows > planner.max_window_rows() {
        let most = if planner.max_window_bytes >= each {
            planner.max_window_bytes as int
        } else {
            each
        };
        lemma_fundamental_div_mod(most, each);
        lemma_mod_bound(most, each);
        let fitting = most / each;
        assert(rows * each >= (fitting + 1) * each) by (nonlinear_arith)
            requires
                rows >= fitting + 1,
                each >= 1,
        ;
        assert((fitting + 1) * each == each * fitting + each) by (nonlinear_arith);
    }
}

/// Every window ends only where the next row would make it too large, or would bring too
/// many rows for those that were asked for.
pub open spec fn packed(plan: BoundedReadPlan, most_bytes: int, bound: F64) -> bool {
    forall|w: int|
        0 <= w && w + 1 < plan.windows@.len() ==> {
            let rows = plan.windows@[w + 1].start_row - (#[trigger] plan.windows@[w]).start_row + 1;
            ||| rows * plan.row_bytes > most_bytes
            ||| !quotient_within(
                rows,
                plan.places_in(w, plan.scatter@.len() as int) + 1,
                bound,
            )
        }
}

pub(crate) proof fn lemma_packed(
    planner: BoundedReadPlanner,
    plan: BoundedReadPlan,
    ids: Seq<u32>,
    order: Seq<usize>,
)
    requires
        plan.follows(ids, order, planner.joins(ids, order), ids.len() as int),
        planner.row_bytes >= 1,
        plan.row_bytes == planner.row_bytes,
    ensures
        packed(plan, planner.max_window_bytes as int, planner.amplification_bound()),
{
    assert forall|w: int| 0 <= w && w + 1 < plan.windows@.len() implies {
        let rows = plan.windows@[w + 1].start_row - (#[trigger] plan.windows@[w]).start_row + 1;
        ||| rows * plan.row_bytes > planner.max_window_bytes
        ||| !quotient_within(
            rows,
            plan.places_in(w, plan.scatter@.len() as int) + 1,
            planner.amplification_bound(),
        )
    } by {
        law_windows_end_where_they_must(planner, plan, ids, order, w);
    }
}

/// Every window ends only where the next row would make it too large or lies behind a larger
/// gap, and no larger gap lies in a window.
pub open spec fn parted_by_gaps(
    plan: BoundedReadPlan,
    max_gap_rows: int,
    max_window_rows: int,
) -> bool {
    &&& forall|w: int|
        0 <= w && w + 1 < plan.windows@.len() ==> {
            let window = #[trigger] plan.windows@[w];
            let next = plan.windows@[w + 1];
            ||| next.start_row - window.start_row + 1 > max_window_rows
            ||| next.start_row - window.start_row - window.row_count > max_gap_rows
        }
    &&& forall|i: int|
        0 <= i && i + 1 < plan.scatter@.len() && (#[trigger] plan.scatter@[i]).window_idx
            == plan.scatter@[i + 1].window_idx ==> plan.scatter@[i + 1].row_offset_in_window
            - plan.scatter@[i].row_offset_in_window - 1 <= max_gap_rows
}

/// The amplification that is set counts where it is one at least and finite, and one and a
/// half where it is not.
pub proof fn law_amplification_is_one_at_least(planner: BoundedReadPlanner)
    ensures
        planner.max_read_amplification.bits >= 0x3ff0_0000_0000_0000
            && planner.max_read_amplification.bits < 0x7ff0_0000_0000_0000
            ==> planner.amplification_bound() == planner.max_read_amplification,
        planner.max_read_amplification.bits < 0x3ff0_0000_0000_0000
            || planner.max_read_amplification.bits >= 0x7ff0_0000_0000_0000
            ==> planner.amplification_bound().bits == 0x3ff8_0000_0000_0000,
{
}

/// A window that bridges gaps ends only where the next row would make it too large, or lies
/// behind a larger gap; and within a window no gap is larger.
pub proof fn law_gaps_part_the_windows(
    plan: BoundedReadPlan,
    ids: Seq<u32>,
    order: Seq<usize>,
    max_gap_rows: int,
    max_window_rows: int,
)
    requires
        sorts(id_keys(ids), order),
        0 <= max_gap_rows,
        plan.follows(
            ids,
            order,
            gap_joins(ids, order, max_gap_rows, max_window_rows),
            ids.len() as int,
        ),
    ensures
        parted_by_gaps(plan, max_gap_rows, max_window_rows),
{
    let joins = gap_joins(ids, order, max_gap_rows, max_window_rows);
    let n = ids.len() as int;
    assert forall|w: int| 0 <= w && w + 1 < plan.windows@.len() implies {
        let window = #[trigger] plan.windows@[w];
        let next = plan.windows@[w + 1];
        ||| next.start_row - window.start_row + 1 > max_window_rows
        ||| next.start_row - window.start_row - window.row_count > max_gap_rows
    } by {
        let last = lemma_window_ends(plan, ids, order, joins, w);
    }
    assert forall|i: int|
        0 <= i && i + 1 < plan.scatter@.len() && (#[trigger] plan.scatter@[i]).window_idx
            == plan.scatter@[i + 1].window_idx implies plan.scatter@[i + 1].row_offset_in_window
        - plan.scatter@[i].row_offset_in_window - 1 <= max_gap_rows by {
        assert(plan.placed(ids, order, joins, n, i));
        assert(plan.placed(ids, order, joins, n, i + 1));
        lemma_same_window(joins, i, i + 1);
        lemma_window_start_bounds(joins, i);
        assert(window_start(joins, i + 1) == window_start(joins, i));
        assert(joins(window_start(joins, i), i + 1));
    }
}

/// As many rows as the bytes of a window hold, and one at least.
pub proof fn law_windows_hold_whole_rows(max_window_bytes: int, row_bytes: int)
    requires
        0 <= max_window_bytes,
        1 <= row_bytes,
    ensures
        window_rows(max_window_bytes, row_bytes) >= 1,
        window_rows(max_window_bytes, row_bytes) > 1 ==> window_rows(max_window_bytes, row_bytes)
            * row_bytes <= max_window_bytes,
        (window_rows(max_window_bytes, row_bytes) + 1) * row_bytes > max_window_bytes,
{
    let most = if max_window_bytes >= row_bytes {
        max_window_bytes
    } else {
        row_bytes
    };
    let fitting = most / row_bytes;
    lemma_fundamental_div_mod(most, row_bytes);
    lemma_mod_bound(most, row_bytes);
    assert(row_bytes * fitting == fitting * row_bytes) by (nonlinear_arith);
    assert((fitting + 1) * row_bytes == fitting * row_bytes + row_bytes) by (nonlinear_arith);
    assert(fitting >= 1) by (nonlinear_arith)
        requires
            fitting == most / row_bytes,
            most >= row_bytes,
            row_bytes >= 1,
    ;
    if fitting > 1 && max_window_bytes < row_bytes {
        assert(fitting * row_bytes >= 2 * row_bytes) by (nonlinear_arith)
            requires
                fitting >= 2,
                row_bytes >= 1,
        ;
    }
}

/// A block that holds a byte of the row.
pub open spec fn touches(layout: RowLayout, row: int, block: int) -> bool {
    layout.first_block(row) <= block < layout.end_block(row)
}

/// The blocks that the rows from the `s`-th to the `i`-th in order touch.
pub open spec fn blocks_touched(
    layout: RowLayout,
    ids: Seq<u32>,
    order: Seq<usize>,
    s: int,
    i: int,
) -> Set<int> {
    Set::new(
        |block: int|
            exists|k: int| s <= k <= i && #[trigger] touches(
                layout,
                sorted_id(ids, order, k),
                block,
            ),
    )
}

/// The numbers from `a` to in front of `b`.
proof fn lemma_range(a: int, b: int)
    requires
        a <= b,
    ensures
        Set::new(|x: int| a <= x < b).finite(),
        Set::new(|x: int| a <= x < b).len() == b - a,
    decreases b - a,
{
    let all = Set::new(|x: int| a <= x < b);
    if a < b {
        lemma_range(a, b - 1);
        assert(all =~= Set::new(|x: int| a <= x < b - 1).insert(b - 1));
    } else {
        assert(all =~= Set::<int>::empty());
    }
}

/// The blocks that rows touch are counted once each, however many of the rows they hold.
pub proof fn law_touched_blocks_are_counted_once(
    layout: RowLayout,
    ids: Seq<u32>,
    order: Seq<usize>,
    s: int,
    i: int,
)
    requires
        sorts(id_keys(ids), order),
        0 <= s <= i < ids.len(),
        forall|k: int| 0 <= k < ids.len() ==> layout.holds(#[trigger] ids[k] as int),
    ensures
        blocks_touched(layout, ids, order, s, i).finite(),
        touched_blocks(layout, ids, order, s, i) == blocks_touched(layout, ids, order, s, i).len(),
        touched_end(layout, ids, order, s, i) == layout.end_block(sorted_id(ids, order, i)),
    decreases i - s,
{
    let row = sorted_id(ids, order, i);
    let all = blocks_touched(layout, ids, order, s, i);
    lemma_sorted_ids(ids, order, s, i);
    assert(layout.holds(ids[order[i] as int] as int));
    lemma_layout(layout, row, row);
    let first = layout.first_block(row);
    let end = layout.end_block(row);
    if i == s {
        lemma_range(first, end);
        assert(all =~= Set::new(|x: int| first <= x < end)) by {
            assert forall|b: int| first <= b < end implies all.contains(b) by {
                assert(touches(layout, sorted_id(ids, order, i), b));
            }
        }
    } else {
        law_touched_blocks_are_counted_once(layout, ids, order, s, i - 1);
        let before = blocks_touched(layout, ids, order, s, i - 1);
        let earlier = sorted_id(ids, order, i - 1);
        lemma_sorted_ids(ids, order, i - 1, i);
        lemma_layout(layout, earlier, row);
        let held = layout.end_block(earlier);
        let from = if held >= first {
            held
        } else {
            first
        };
        let added = Set::new(|x: int| from <= x < end);
        if from <= end {
            lemma_range(from, end);
        } else {
            assert(added =~= Set::<int>::empty());
        }
        assert forall|b: int| before.contains(b) implies b < held by {
            let k = choose|k: int| s <= k <= i - 1 && #[trigger] touches(
                layout,
                sorted_id(ids, order, k),
                b,
            );
            lemma_sorted_ids(ids, order, k, i - 1);
            assert(layout.holds(ids[order[i - 1] as int] as int));
            lemma_layout(layout, sorted_id(ids, order, k), earlier);
        }
        assert(before.disjoint(added));
        assert(all =~= before.union(added)) by {
            assert forall|b: int| all.contains(b) implies before.contains(b) || added.contains(
                b,
            ) by {
                let k = choose|k: int| s <= k <= i && #[trigger] touches(
                    layout,
                    sorted_id(ids, order, k),
                    b,
                );
                if k < i {
                    assert(touches(layout, sorted_id(ids, order, k), b));
                } else if b < held {
                    lemma_first_blocks(layout, earlier, row);
                    assert(touches(layout, sorted_id(ids, order, i - 1), b));
                }
            }
            assert forall|b: int| before.contains(b) implies all.contains(b) by {
                let k = choose|k: int| s <= k <= i - 1 && #[trigger] touches(
                    layout,
                    sorted_id(ids, order, k),
                    b,
                );
                assert(touches(layout, sorted_id(ids, order, k), b));
            }
            assert forall|b: int| added.contains(b) implies all.contains(b) by {
                assert(touches(layout, sorted_id(ids, order, i), b));
            }
        }
        vstd::set_lib::lemma_set_disjoint_lens(before, added);
    }
}

/// A later row starts in no earlier block.
proof fn lemma_first_blocks(layout: RowLayout, a: int, b: int)
    requires
        0 <= a <= b,
        layout.alignment > 0,
    ensures
        layout.first_block(a) <= layout.first_block(b),
{
    let bytes = layout.row_bytes as int;
    assert(a * bytes <= b * bytes) by (nonlinear_arith)
        requires
            a <= b,
            bytes >= 0,
    ;
    vstd::arithmetic::div_mod::lemma_div_is_ordered(
        layout.row_offset(a),
        layout.row_offset(b),
        layout.alignment as int,
    );
}

/// A window that is read in whole blocks ends only where the next row would break a bound:
/// with it the blocks from the first row on would be more bytes than a window has, or too
/// many for the blocks that hold rows that were asked for, each counted once.
pub proof fn law_aligned_windows_end_where_they_must(
    planner: BoundedReadPlanner,
    plan: BoundedReadPlan,
    ids: Seq<u32>,
    order: Seq<usize>,
    alignment: int,
    header: u64,
    w: int,
) -> (last: int)
    requires
        sorts(id_keys(ids), order),
        plan.follows(
            ids,
            order,
            planner.aligned_joins(ids, order, alignment, header),
            ids.len() as int,
        ),
        0 <= w,
        w + 1 < plan.windows@.len(),
        1 <= alignment <= usize::MAX,
        planner.row_bytes >= 1,
        forall|k: int|
            0 <= k < ids.len() ==> planner.layout(alignment, header).holds(
                #[trigger] ids[k] as int,
            ),
    ensures
        0 <= last,
        last + 1 < ids.len(),
        ({
            let layout = RowLayout {
                row_bytes: planner.row_bytes,
                alignment: alignment as usize,
                header_bytes: header,
            };
            let first = last + 1 - plan.places_in(w, plan.scatter@.len() as int);
            let blocks = blocks_touched(layout, ids, order, first, last + 1).len();
            let bytes = layout.aligned_bytes(
                plan.windows@[w].start_row as int,
                plan.windows@[w + 1].start_row as int,
            );
            ||| bytes > planner.max_window_bytes && bytes > planner.row_bytes && bytes > alignment
            ||| !quotient_within(
                nearest_double(bytes),
                nearest_double(blocks * alignment),
                planner.amplification_bound(),
            )
        }),
{
    let joins = planner.aligned_joins(ids, order, alignment, header);
    let last = lemma_window_ends(plan, ids, order, joins, w);
    let layout = planner.layout(alignment, header);
    let first = window_start(joins, last);
    law_touched_blocks_are_counted_once(layout, ids, order, first, last + 1);
    last
}

/// The blocks that hold rows are whole ones, hold all of their bytes, and at each end no more
/// than a part of one block is read in vain.
pub proof fn law_aligned_bytes_hold_the_rows(layout: RowLayout, start: int, end: int)
    requires
        0 <= start <= end,
        layout.holds(end),
    ensures
        layout.aligned_bytes(start, end) >= (end - start + 1) * layout.row_bytes,
        layout.aligned_bytes(start, end) < (end - start + 1) * layout.row_bytes + 2
            * layout.alignment,
        layout.aligned_bytes(start, end) % layout.alignment as int == 0,
        layout.row_offset(start) == layout.header_bytes + start * layout.row_bytes,
{
    lemma_layout(layout, start, end);
    let a = layout.end_block(end);
    let b = layout.first_block(start);
    let block = layout.alignment as int;
    assert(a * block - b * block == (a - b) * block) by (nonlinear_arith);
    vstd::arithmetic::div_mod::lemma_mod_multiples_basic(a - b, block);
}

/// The rows of all windows are those that are read alone and those that are read together.
pub proof fn law_rows_are_read_alone_or_together(windows: Seq<ReadWindow>)
    requires
        forall|w: int| 0 <= w < windows.len() ==> (#[trigger] windows[w]).row_count >= 1,
    ensures
        0 <= single_windows(windows) <= windows.len(),
        rows_in(windows) == single_windows(windows) + rows_in_ranges(windows),
        rows_in_ranges(windows) >= 2 * (windows.len() - single_windows(windows)),
    decreases windows.len(),
{
    if windows.len() > 0 {
        let fewer = windows.drop_last();
        assert forall|w: int| 0 <= w < fewer.len() implies (#[trigger] fewer[w]).row_count >= 1 by {
            assert(fewer[w] == windows[w]);
        }
        law_rows_are_read_alone_or_together(fewer);
        assert(windows[windows.len() - 1].row_count >= 1);
    }
}

/// Carrying out a plan counts what was asked for, the windows by how many rows they have, and
/// what was read beyond what was asked for.
pub proof fn law_reads_count_what_they_bring(plan: BoundedReadPlan, row_bytes: int)
    requires
        forall|w: int| 0 <= w < plan.windows@.len() ==> (#[trigger] plan.windows@[w]).row_count >= 1,
        plan.windows@.len() <= u64::MAX,
        rows_in(plan.windows@) <= u64::MAX,
        plan.requested_rows * plan.row_bytes <= usize::MAX,
        plan.requested_rows <= plan.physical_rows,
        plan.scatter@.len() <= u64::MAX,
        0 <= row_bytes,
        rows_in(plan.windows@) * row_bytes <= plan.physical_bytes,
    ensures
        ({
            let counted = plan_counters(plan, row_bytes);
            let rows = rows_in(plan.windows@);
            &&& counted.rows_requested == plan.requested_rows
            &&& counted.windows_submitted == plan.windows@.len()
            &&& counted.singleton_windows + counted.range_windows == plan.windows@.len()
            &&& counted.rows_per_window_sum == rows
            &&& counted.singleton_windows + counted.range_rows_read == rows
            &&& counted.logical_bytes == plan.requested_rows * plan.row_bytes
            &&& counted.physical_bytes == plan.physical_bytes
            &&& counted.alignment_waste_bytes == plan.physical_bytes - rows * row_bytes
            &&& counted.overread_rows == plan.physical_rows - plan.requested_rows
            &&& counted.scatter_ops == plan.scatter@.len()
        }),
{
    law_rows_are_read_alone_or_together(plan.windows@);
    assert(rows_in(plan.windows@) * row_bytes >= 0) by (nonlinear_arith)
        requires
            rows_in(plan.windows@) >= 0,
            row_bytes >= 0,
    ;
}

} // verus!
