//! Read planning for row stores.
//!
//! A set of row ids is read in windows of consecutive rows. A window may hold
//! rows that nobody asked for, as long as it stays within a size and does not
//! read too many times what it has to.

use vstd::prelude::*;

use crate::arith::{blocks_for, capped, greatest, max_u64, max_usize, sat_mul};
use crate::direct_io::lemma_rounded;
use crate::float_bits::{
    lemma_quotient_within, nearest_double, quotient_at_most, quotient_within, ratio_at_most, F64,
    F64_INFINITY, F64_ONE, F64_ONE_AND_HALF,
};
use crate::gather::WindowedGatherOptions;
use crate::order::{listed, precedes, sorts, stable_order};
use crate::read_laws::{law_gaps_part_the_windows, lemma_packed, packed, parted_by_gaps};

verus! {

/// Consecutive rows that are read together.
#[derive(Clone, Copy, Debug, PartialEq, Eq, Structural)]
pub struct ReadWindow {
    pub start_row: u32,
    pub row_count: u32,
}

/// Where a requested row is found once its window has been read.
#[derive(Clone, Copy, Debug, PartialEq, Eq, Structural)]
pub struct ReadScatter {
    pub window_idx: usize,
    pub row_offset_in_window: u32,
    pub original_pos: usize,
}

/// The windows to read, and where the requested rows lie in them.
#[derive(Clone, Debug)]
pub struct BoundedReadPlan {
    pub windows: Vec<ReadWindow>,
    pub scatter: Vec<ReadScatter>,
    pub requested_rows: usize,
    pub physical_rows: usize,
    pub physical_bytes: u64,
    pub row_bytes: usize,
}

/// The rows that the windows hold together.
pub open spec fn rows_in(windows: Seq<ReadWindow>) -> int
    decreases windows.len(),
{
    if windows.len() == 0 {
        0
    } else {
        rows_in(windows.drop_last()) + windows.last().row_count
    }
}

/// The `i`-th requested id in ascending order.
pub open spec fn sorted_id(ids: Seq<u32>, order: Seq<usize>, i: int) -> int {
    ids[order[i] as int] as int
}

/// Where the window of the `i`-th row starts, when `joins(s, i)` tells whether
/// the `i`-th row is taken into the window that starts at row `s` and so far
/// ends in front of `i`.
pub open spec fn window_start(joins: spec_fn(int, int) -> bool, i: int) -> int
    decreases i,
{
    if i <= 0 {
        0
    } else {
        let start = window_start(joins, i - 1);
        if joins(start, i) {
            start
        } else {
            i
        }
    }
}

/// The number of the window that the `i`-th row is in.
pub open spec fn window_number(joins: spec_fn(int, int) -> bool, i: int) -> int
    decreases i,
{
    if i <= 0 {
        0
    } else if window_start(joins, i) == i {
        window_number(joins, i - 1) + 1
    } else {
        window_number(joins, i - 1)
    }
}

/// The `i`-th of `n` rows is the last one of its window.
pub open spec fn closes_window(joins: spec_fn(int, int) -> bool, n: int, i: int) -> bool {
    i == n - 1 || window_start(joins, i + 1) == i + 1
}

impl BoundedReadPlan {
    /// The windows and the places of the first `n` rows are those that `joins` makes.
    pub open spec fn follows(
        self,
        ids: Seq<u32>,
        order: Seq<usize>,
        joins: spec_fn(int, int) -> bool,
        n: int,
    ) -> bool {
        &&& self.scatter@.len() == n
        &&& self.windows@.len() == (if n == 0 {
            0
        } else {
            window_number(joins, n - 1) + 1
        })
        &&& forall|i: int|
            0 <= i < n ==> #[trigger] self.placed(ids, order, joins, n, i)
    }

    /// The `i`-th row stands in its window as `joins` has it.
    pub open spec fn placed(
        self,
        ids: Seq<u32>,
        order: Seq<usize>,
        joins: spec_fn(int, int) -> bool,
        n: int,
        i: int,
    ) -> bool {
        let place = self.scatter@[i];
        let start = window_start(joins, i);
        let window = self.windows@[window_number(joins, i)];
        &&& 0 <= window_number(joins, i) < self.windows@.len()
        &&& 0 <= start <= i
        &&& place.window_idx == window_number(joins, i)
        &&& place.original_pos == order[i]
        &&& place.row_offset_in_window == sorted_id(ids, order, i) - sorted_id(ids, order, start)
        &&& window.start_row == sorted_id(ids, order, start)
        &&& place.row_offset_in_window < window.row_count
        &&& closes_window(joins, n, i) ==> window.row_count == place.row_offset_in_window + 1
    }

    /// The windows ascend, and no row is in two of them.
    pub open spec fn apart(self) -> bool {
        forall|a: int, b: int|
            0 <= a < b < self.windows@.len() ==> (#[trigger] self.windows@[a]).start_row
                + self.windows@[a].row_count <= (#[trigger] self.windows@[b]).start_row
    }

    /// Every window starts and ends with a requested row.
    pub open spec fn spans_ids(self, ids: Seq<u32>) -> bool {
        forall|w: int|
            0 <= w < self.windows@.len() ==> {
                let window = #[trigger] self.windows@[w];
                &&& window.row_count >= 1
                &&& window.start_row + window.row_count - 1 <= u32::MAX
                &&& ids.contains(window.start_row)
                &&& ids.contains((window.start_row + window.row_count - 1) as u32)
            }
    }

    /// How many of the first `n` places are in window `w`.
    pub open spec fn places_in(self, w: int, n: int) -> int
        decreases n,
    {
        if n <= 0 {
            0
        } else {
            self.places_in(w, n - 1) + (if self.scatter@[n - 1].window_idx == w {
                1int
            } else {
                0
            })
        }
    }

    /// The rows of every window divided by the places in it stay within the bound.
    pub open spec fn amplifies_within(self, bound: F64) -> bool {
        forall|w: int|
            0 <= w < self.windows@.len() ==> quotient_within(
                (#[trigger] self.windows@[w]).row_count as int,
                self.places_in(w, self.scatter@.len() as int),
                bound,
            )
    }

    /// A window with more than one place is read in at most so many bytes.
    pub open spec fn shared_windows_within(self, layout: RowLayout, most: int) -> bool {
        forall|w: int|
            0 <= w < self.windows@.len() && self.places_in(w, self.scatter@.len() as int) > 1
                ==> window_bytes(layout, #[trigger] self.windows@[w]) <= most
    }

    /// Every requested position is served once, with its row.
    pub open spec fn serves(self, ids: Seq<u32>) -> bool {
        &&& self.scatter@.len() == ids.len()
        &&& forall|i: int|
            0 <= i < self.scatter@.len() ==> {
                let place = #[trigger] self.scatter@[i];
                &&& place.original_pos < ids.len()
                &&& place.window_idx < self.windows@.len()
                &&& place.row_offset_in_window < self.windows@[place.window_idx as int].row_count
                &&& self.windows@[place.window_idx as int].start_row + place.row_offset_in_window
                    == ids[place.original_pos as int]
            }
        &&& forall|i: int, j: int|
            0 <= i < j < self.scatter@.len() ==> #[trigger] self.scatter@[i].original_pos
                != #[trigger] self.scatter@[j].original_pos
        &&& forall|p: int| 0 <= p < ids.len() ==> #[trigger] self.places(p)
    }

    /// The places stand in the order of their windows, and every window has one.
    pub open spec fn in_window_order(self) -> bool {
        &&& forall|i: int, j: int|
            0 <= i <= j < self.scatter@.len() ==> (#[trigger] self.scatter@[i]).window_idx <= (
            #[trigger] self.scatter@[j]).window_idx
        &&& forall|w: int| 0 <= w < self.windows@.len() ==> #[trigger] self.uses_window(w)
    }

    /// Some place is in window `w`.
    pub open spec fn uses_window(self, w: int) -> bool {
        exists|i: int| 0 <= i < self.scatter@.len() && #[trigger] self.scatter@[i].window_idx == w
    }

    /// Some place serves position `p`.
    pub open spec fn places(self, p: int) -> bool {
        exists|i: int| 0 <= i < self.scatter@.len() && #[trigger] self.scatter@[i].original_pos == p
    }

    pub fn requested_rows(&self) -> (rows: usize)
        ensures
            rows == self.requested_rows,
    {
        self.requested_rows
    }

    pub fn physical_rows(&self) -> (rows: usize)
        ensures
            rows == self.physical_rows,
    {
        self.physical_rows
    }

    pub fn logical_bytes(&self) -> (bytes: u64)
        ensures
            bytes == capped(self.requested_rows * self.row_bytes),
    {
        sat_mul(self.requested_rows, self.row_bytes) as u64
    }

    pub fn physical_bytes(&self) -> (bytes: u64)
        ensures
            bytes == self.physical_bytes,
    {
        self.physical_bytes
    }
}

/// A plan that follows a sorted order serves every requested position once.
pub proof fn law_plan_serves_every_position(
    plan: BoundedReadPlan,
    ids: Seq<u32>,
    keys: Seq<u64>,
    order: Seq<usize>,
    joins: spec_fn(int, int) -> bool,
)
    requires
        keys.len() == ids.len(),
        sorts(keys, order),
        plan.follows(ids, order, joins, ids.len() as int),
    ensures
        plan.serves(ids),
        plan.in_window_order(),
{
    lemma_plan_in_window_order(plan, ids, order, joins);
    assert forall|i: int, j: int| 0 <= i < j < plan.scatter@.len() implies (
    #[trigger] plan.scatter@[i]).original_pos != (#[trigger] plan.scatter@[j]).original_pos by {
        assert(plan.placed(ids, order, joins, ids.len() as int, i));
        assert(plan.placed(ids, order, joins, ids.len() as int, j));
        assert(precedes(keys, order[i] as int, order[j] as int));
    }
    assert forall|i: int| 0 <= i < plan.scatter@.len() implies {
        let place = #[trigger] plan.scatter@[i];
        &&& place.original_pos < ids.len()
        &&& place.window_idx < plan.windows@.len()
        &&& place.row_offset_in_window < plan.windows@[place.window_idx as int].row_count
        &&& plan.windows@[place.window_idx as int].start_row + place.row_offset_in_window
            == ids[place.original_pos as int]
    } by {
        assert(plan.placed(ids, order, joins, ids.len() as int, i));
    }
    assert forall|p: int| 0 <= p < ids.len() implies #[trigger] plan.places(p) by {
        assert(listed(order, p));
        let i = choose|i: int| 0 <= i < order.len() && order[i] == p;
        assert(plan.placed(ids, order, joins, ids.len() as int, i));
        assert(plan.scatter@[i].original_pos == p);
    }
}

proof fn lemma_plan_in_window_order(
    plan: BoundedReadPlan,
    ids: Seq<u32>,
    order: Seq<usize>,
    joins: spec_fn(int, int) -> bool,
)
    requires
        plan.follows(ids, order, joins, ids.len() as int),
    ensures
        plan.in_window_order(),
{
    let n = ids.len() as int;
    assert forall|i: int, j: int| 0 <= i <= j < plan.scatter@.len() implies (
    #[trigger] plan.scatter@[i]).window_idx <= (#[trigger] plan.scatter@[j]).window_idx by {
        assert(plan.placed(ids, order, joins, n, i));
        assert(plan.placed(ids, order, joins, n, j));
        lemma_same_window(joins, i, j);
    }
    assert forall|w: int| 0 <= w < plan.windows@.len() implies #[trigger] plan.uses_window(w) by {
        let i = lemma_window_has_row(joins, n - 1, w);
        assert(plan.placed(ids, order, joins, n, i));
        assert(plan.scatter@[i].window_idx == w);
    }
}

/// Every window up to that of row `n` has a row, and a last one.
pub(crate) proof fn lemma_window_has_row(joins: spec_fn(int, int) -> bool, n: int, w: int) -> (row: int)
    requires
        0 <= n,
        0 <= w <= window_number(joins, n),
    ensures
        0 <= row <= n,
        window_number(joins, row) == w,
        row < n ==> window_number(joins, row + 1) != w,
    decreases n,
{
    if w == window_number(joins, n) {
        n
    } else {
        lemma_window_has_row(joins, n - 1, w)
    }
}

/// The windows of a plan end in front of `rows` where the ids lie in front of it.
pub proof fn lemma_windows_inside(
    plan: BoundedReadPlan,
    ids: Seq<u32>,
    order: Seq<usize>,
    joins: spec_fn(int, int) -> bool,
    rows: int,
)
    requires
        sorts(id_keys(ids), order),
        plan.follows(ids, order, joins, ids.len() as int),
        forall|i: int| 0 <= i < ids.len() ==> #[trigger] ids[i] < rows,
    ensures
        forall|w: int|
            0 <= w < plan.windows@.len() ==> (#[trigger] plan.windows@[w]).start_row
                + plan.windows@[w].row_count <= rows,
{
    let n = ids.len() as int;
    assert forall|w: int| 0 <= w < plan.windows@.len() implies (
    #[trigger] plan.windows@[w]).start_row + plan.windows@[w].row_count <= rows by {
        let i = lemma_window_has_row(joins, n - 1, w);
        assert(plan.placed(ids, order, joins, n, i));
        lemma_sorted_ids(ids, order, i, i);
        assert(ids[order[i] as int] < rows);
    }
}

/// The ids as sorting keys.
pub open spec fn id_keys(ids: Seq<u32>) -> Seq<u64> {
    ids.map_values(|id: u32| id as u64)
}

fn keys_of(ids: &[u32]) -> (keys: Vec<u64>)
    ensures
        keys@ == id_keys(ids@),
{
    let mut keys: Vec<u64> = Vec::new();
    for i in 0..ids.len()
        invariant
            keys@ == id_keys(ids@.take(i as int)),
    {
        keys.push(ids[i] as u64);
        proof {
            assert(keys@ =~= id_keys(ids@.take(i as int + 1)));
        }
    }
    proof {
        assert(ids@.take(ids@.len() as int) =~= ids@);
    }
    keys
}

/// How rows are read together.
#[derive(Clone, Copy, Debug, PartialEq, Eq, Structural)]
pub struct BoundedReadPlanner {
    pub row_bytes: usize,
    pub max_window_bytes: usize,
    pub max_read_amplification: F64,
}

/// Any two of the ids are less than `limit` apart.
pub open spec fn spread_below(ids: Seq<u32>, limit: int) -> bool {
    forall|i: int, j: int|
        0 <= i < ids.len() && 0 <= j < ids.len() ==> (#[trigger] ids[j]) - (#[trigger] ids[i])
            < limit
}

/// No window of up to `max_window_rows` rows can hold more than a `u32` counts, nor all of
/// them together more than a `usize` does, and their bytes fit a `u64`.
pub open spec fn plannable(ids: Seq<u32>, row_bytes: int, max_window_rows: int) -> bool {
    &&& spread_below(ids, u32::MAX as int) || max_window_rows <= u32::MAX
    &&& spread_below(ids, usize::MAX as int)
    &&& spread_below(ids, u64::MAX as int / row_bytes) || ids.len() * max_window_rows * row_bytes
        <= u64::MAX
}

impl BoundedReadPlanner {
    pub open spec fn effective_row_bytes(self) -> int {
        greatest(self.row_bytes as int, 1)
    }

    pub open spec fn max_window_rows(self) -> int {
        greatest(self.max_window_bytes as int, self.effective_row_bytes())
            / self.effective_row_bytes()
    }

    /// The configured amplification where it is finite and at least one, else one
    /// and a half.
    pub open spec fn amplification_bound(self) -> F64 {
        if F64_ONE <= self.max_read_amplification.bits < F64_INFINITY {
            self.max_read_amplification
        } else {
            F64 { bits: F64_ONE_AND_HALF }
        }
    }

    /// The `i`-th row joins the window from row `s` on: the rows from one to the
    /// other stay within a window, and their number divided by the number of
    /// those that were asked for stays within the amplification.
    pub open spec fn joins(self, ids: Seq<u32>, order: Seq<usize>) -> spec_fn(int, int) -> bool {
        |s: int, i: int|
            {
                let physical = sorted_id(ids, order, i) - sorted_id(ids, order, s) + 1;
                physical <= self.max_window_rows() && quotient_within(
                    physical,
                    i - s + 1,
                    self.amplification_bound(),
                )
            }
    }

    fn amplification(&self) -> (bound: F64)
        ensures
            bound == self.amplification_bound(),
            F64_ONE <= bound.bits < F64_INFINITY,
    {
        if F64_ONE <= self.max_read_amplification.bits && self.max_read_amplification.bits
            < F64_INFINITY {
            self.max_read_amplification
        } else {
            F64 { bits: F64_ONE_AND_HALF }
        }
    }
}

pub(crate) proof fn lemma_window_start_bounds(joins: spec_fn(int, int) -> bool, i: int)
    requires
        i >= 0,
    ensures
        0 <= window_start(joins, i) <= i,
        0 <= window_number(joins, i) <= i,
    decreases i,
{
    if i > 0 {
        lemma_window_start_bounds(joins, i - 1);
    }
}

pub(crate) proof fn lemma_sorted_ids(ids: Seq<u32>, order: Seq<usize>, i: int, j: int)
    requires
        sorts(id_keys(ids), order),
        0 <= i <= j < ids.len(),
    ensures
        0 <= order[i] < ids.len(),
        0 <= order[j] < ids.len(),
        sorted_id(ids, order, i) <= sorted_id(ids, order, j),
{
    if i < j {
        assert(precedes(id_keys(ids), order[i] as int, order[j] as int));
    }
}

/// Adds the next row to the plan: to the last window, or in a window of its own.
fn place_row(
    plan: &mut BoundedReadPlan,
    ids: &[u32],
    order: &Vec<usize>,
    i: usize,
    start: usize,
    joined: bool,
    Ghost(joins): Ghost<spec_fn(int, int) -> bool>,
)
    requires
        sorts(id_keys(ids@), order@),
        i < ids@.len(),
        old(plan).follows(ids@, order@, joins, i as int),
        start == window_start(joins, i as int),
        joined == (i > 0 && start < i),
        joined ==> sorted_id(ids@, order@, i as int) - sorted_id(ids@, order@, start as int)
            < u32::MAX,
        old(plan).windows@.len() <= i,
    ensures
        final(plan).follows(ids@, order@, joins, i + 1),
        final(plan).windows@.len() <= i + 1,
        final(plan).windows@.len() > 0,
        rows_in(final(plan).windows@) == rows_in(old(plan).windows@) + (if joined {
            sorted_id(ids@, order@, i as int) - sorted_id(ids@, order@, i - 1)
        } else {
            1
        }),
        final(plan).requested_rows == old(plan).requested_rows,
        final(plan).row_bytes == old(plan).row_bytes,
        joined ==> {
            let last = (old(plan).windows@.len() - 1) as int;
            &&& old(plan).windows@.len() > 0
            &&& final(plan).windows@ == old(plan).windows@.update(
                last,
                ReadWindow {
                    start_row: ids@[order@[start as int] as int],
                    row_count: (sorted_id(ids@, order@, i as int) - sorted_id(
                        ids@,
                        order@,
                        start as int,
                    ) + 1) as u32,
                },
            )
            &&& sorted_id(ids@, order@, i as int) - sorted_id(ids@, order@, start as int) + 1
                <= u32::MAX
        },
        !joined ==> final(plan).windows@ == old(plan).windows@.push(
            ReadWindow { start_row: ids@[order@[i as int] as int], row_count: 1 },
        ),
{
    proof {
        lemma_window_start_bounds(joins, i as int);
        lemma_sorted_ids(ids@, order@, start as int, i as int);
        lemma_sorted_ids(ids@, order@, 0, i as int);
        if i > 0 {
            lemma_sorted_ids(ids@, order@, i - 1, i as int);
            lemma_window_start_bounds(joins, i - 1);
            assert(window_number(joins, i - 1) == plan.windows@.len() - 1);
            assert(plan.placed(ids@, order@, joins, i as int, i - 1));
        }
    }
    let id: u32 = ids[order[i]];
    let first: u32 = ids[order[start]];
    let ghost before = *plan;
    if joined {
        let last: usize = plan.windows.len() - 1;
        plan.windows.set(last, ReadWindow { start_row: first, row_count: id - first + 1 });
        plan.scatter.push(
            ReadScatter { window_idx: last, row_offset_in_window: id
                - first, original_pos: order[i] },
        );
        proof {
            assert(window_start(joins, i - 1) == start);
            assert(plan.windows@.drop_last() =~= before.windows@.drop_last());
            assert forall|k: int| 0 <= k <= i implies #[trigger] plan.placed(
                ids@,
                order@,
                joins,
                i + 1,
                k,
            ) by {
                if k < i {
                    assert(before.scatter@[k] == plan.scatter@[k]);
                    assert(before.placed(ids@, order@, joins, i as int, k));
                    lemma_same_window(joins, k, i - 1);
                    lemma_sorted_ids(ids@, order@, k, i as int);
                    if k < i - 1 {
                        lemma_same_window(joins, k + 1, i - 1);
                    }
                }
            }
        }
    } else {
        let count: usize = plan.windows.len();
        plan.windows.push(ReadWindow { start_row: id, row_count: 1 });
        plan.scatter.push(
            ReadScatter { window_idx: count, row_offset_in_window: 0, original_pos: order[i] },
        );
        proof {
            assert(plan.windows@.drop_last() =~= before.windows@);
            assert(start == i);
            assert forall|k: int| 0 <= k <= i implies #[trigger] plan.placed(
                ids@,
                order@,
                joins,
                i + 1,
                k,
            ) by {
                if k < i {
                    assert(before.scatter@[k] == plan.scatter@[k]);
                    assert(before.placed(ids@, order@, joins, i as int, k));
                    lemma_same_window(joins, k, i - 1);
                }
            }
        }
    }
}

/// Rows of one window share their start.
pub(crate) proof fn lemma_same_window(joins: spec_fn(int, int) -> bool, k: int, i: int)
    requires
        0 <= k <= i,
    ensures
        window_number(joins, k) <= window_number(joins, i),
        window_number(joins, k) == window_number(joins, i) ==> window_start(joins, k)
            == window_start(joins, i),
    decreases i,
{
    if k < i {
        lemma_same_window(joins, k, i - 1);
        lemma_window_start_bounds(joins, i - 1);
    }
}

/// Adds up the rows of the windows.
fn count_rows(windows: &Vec<ReadWindow>) -> (rows: usize)
    requires
        rows_in(windows@) <= usize::MAX,
    ensures
        rows == rows_in(windows@),
{
    let mut rows: usize = 0;
    proof {
        assert(windows@.take(windows@.len() as int) =~= windows@);
    }
    for i in 0..windows.len()
        invariant
            rows == rows_in(windows@.take(i as int)),
            rows_in(windows@.take(windows@.len() as int)) <= usize::MAX,
    {
        proof {
            assert(windows@.take(i as int + 1).drop_last() =~= windows@.take(i as int));
            lemma_rows_in_prefix(windows@, i as int + 1);
        }
        rows = rows + windows[i].row_count as usize;
    }
    rows
}

proof fn lemma_rows_in_prefix(windows: Seq<ReadWindow>, n: int)
    requires
        0 <= n <= windows.len(),
    ensures
        0 <= rows_in(windows.take(n)) <= rows_in(windows.take(windows.len() as int)),
    decreases windows.len() - n,
{
    lemma_rows_in_nonnegative(windows.take(n));
    if n < windows.len() {
        lemma_rows_in_prefix(windows, n + 1);
        assert(windows.take(n + 1).drop_last() =~= windows.take(n));
    }
}

proof fn lemma_rows_in_nonnegative(windows: Seq<ReadWindow>)
    ensures
        rows_in(windows) >= 0,
    decreases windows.len(),
{
    if windows.len() > 0 {
        lemma_rows_in_nonnegative(windows.drop_last());
    }
}

impl BoundedReadPlanner {
    /// The plan that reads `ids` in ascending order in the longest windows that
    /// `joins` allows.
    pub fn plan(&self, ids: &[u32]) -> (plan: BoundedReadPlan)
        requires
            plannable(ids@, self.effective_row_bytes(), self.max_window_rows()),
        ensures
            exists|order: Seq<usize>| #[trigger]
                sorts(id_keys(ids@), order) && plan.follows(
                    ids@,
                    order,
                    self.joins(ids@, order),
                    ids@.len() as int,
                ),
            plan.serves(ids@),
            plan.in_window_order(),
            plan.apart(),
            plan.spans_ids(ids@),
            plan.amplifies_within(self.amplification_bound()),
            self.row_bytes >= 1 ==> packed(
                plan,
                self.max_window_bytes as int,
                self.amplification_bound(),
            ),
            plan.requested_rows == ids@.len(),
            plan.row_bytes == self.effective_row_bytes(),
            plan.physical_rows == rows_in(plan.windows@),
            plan.physical_bytes == rows_in(plan.windows@) * self.effective_row_bytes(),
            plan.windows@.len() <= ids@.len(),
            forall|k: int|
                0 <= k < plan.windows@.len() ==> 1 <= (#[trigger] plan.windows@[k]).row_count
                    <= self.max_window_rows(),
    {
        let row_bytes: usize = max_usize(self.row_bytes, 1);
        let max_window_rows: usize = max_usize(self.max_window_bytes, row_bytes) / row_bytes;
        let bound: F64 = self.amplification();
        let keys: Vec<u64> = keys_of(ids);
        let order: Vec<usize> = stable_order(&keys);
        let ghost joins = self.joins(ids@, order@);
        let mut plan: BoundedReadPlan = BoundedReadPlan {
            windows: Vec::new(),
            scatter: Vec::new(),
            requested_rows: ids.len(),
            physical_rows: 0,
            physical_bytes: 0,
            row_bytes,
        };
        let mut start: usize = 0;
        proof {
            assert(max_window_rows >= 1) by (nonlinear_arith)
                requires
                    max_window_rows == greatest(self.max_window_bytes as int, row_bytes as int)
                        / row_bytes as int,
                    row_bytes >= 1,
                    greatest(self.max_window_bytes as int, row_bytes as int) >= row_bytes,
            ;
        }
        for i in 0..ids.len()
            invariant
                sorts(id_keys(ids@), order@),
                plannable(ids@, self.effective_row_bytes(), self.max_window_rows()),
                row_bytes == self.effective_row_bytes(),
                max_window_rows == self.max_window_rows(),
                max_window_rows >= 1,
                bound == self.amplification_bound(),
                F64_ONE <= bound.bits < F64_INFINITY,
                joins == self.joins(ids@, order@),
                i > 0 ==> start == window_start(joins, i - 1),
                i == 0 ==> start == 0,
                plan.follows(ids@, order@, joins, i as int),
                plan.windows@.len() <= i,
                i > 0 ==> rows_in(plan.windows@) <= sorted_id(ids@, order@, i - 1) - sorted_id(
                    ids@,
                    order@,
                    0,
                ) + 1,
                i == 0 ==> rows_in(plan.windows@) == 0,
                forall|k: int|
                    0 <= k < plan.windows@.len() ==> 1 <= (#[trigger] plan.windows@[k]).row_count
                        <= max_window_rows,
                plan.requested_rows == ids@.len(),
                plan.row_bytes == row_bytes,
        {
            let mut joined: bool = false;
            if i > 0 {
                proof {
                    lemma_window_start_bounds(joins, i - 1);
                    lemma_sorted_ids(ids@, order@, start as int, i as int);
                }
                let physical: u64 = (ids[order[i]] - ids[order[start]]) as u64 + 1;
                let requested: u64 = (i - start) as u64 + 1;
                proof {
                    lemma_quotient_within(physical as int, requested as int, bound);
                    assert(ids@[order@[i as int] as int] - ids@[order@[start as int] as int]
                        < usize::MAX);
                    if sorted_id(ids@, order@, i as int) == sorted_id(ids@, order@, i - 1) {
                        self.lemma_repeat_joins(ids@, order@, i as int);
                    }
                    lemma_sorted_ids(ids@, order@, i - 1, i as int);
                }
                joined = physical <= max_window_rows as u64 && (physical <= requested
                    || quotient_at_most(physical, requested, bound));
            }
            if !joined {
                start = i;
            }
            place_row(&mut plan, ids, &order, i, start, joined, Ghost(joins));
        }
        proof {
            lemma_planned_total_fits(
                plan,
                ids@,
                order@,
                row_bytes as int,
                max_window_rows as int,
            );
        }
        let ghost planned = plan;
        plan.physical_rows = count_rows(&plan.windows);
        plan.physical_bytes = plan.physical_rows as u64 * row_bytes as u64;
        proof {
            lemma_follows_kept(planned, plan, ids@, order@, joins, ids@.len() as int);
            law_plan_serves_every_position(plan, ids@, id_keys(ids@), order@, joins);
            lemma_spans_ids(plan, ids@, order@, joins);
            assert forall|i: int|
                0 < i < ids@.len() && sorted_id(ids@, order@, i) == sorted_id(
                    ids@,
                    order@,
                    i - 1,
                ) implies #[trigger] window_start(joins, i) < i by {
                self.lemma_repeat_joins(ids@, order@, i);
                lemma_window_start_bounds(joins, i - 1);
            }
            lemma_windows_apart(plan, ids@, order@, joins);
            self.lemma_amplifies_within(plan, ids@, order@);
            if self.row_bytes >= 1 {
                lemma_packed(*self, plan, ids@, order@);
            }
        }
        plan
    }
}

/// A window's first row is in the window.
proof fn lemma_start_in_window(joins: spec_fn(int, int) -> bool, i: int)
    requires
        i >= 0,
    ensures
        window_number(joins, window_start(joins, i)) == window_number(joins, i),
        window_start(joins, window_start(joins, i)) == window_start(joins, i),
    decreases i,
{
    lemma_window_start_bounds(joins, i);
    if i > 0 && window_start(joins, i) != i {
        lemma_start_in_window(joins, i - 1);
    }
}

/// The windows of a plan start and end with requested rows.
proof fn lemma_spans_ids(
    plan: BoundedReadPlan,
    ids: Seq<u32>,
    order: Seq<usize>,
    joins: spec_fn(int, int) -> bool,
)
    requires
        sorts(id_keys(ids), order),
        plan.follows(ids, order, joins, ids.len() as int),
    ensures
        plan.spans_ids(ids),
{
    let n = ids.len() as int;
    assert forall|w: int| 0 <= w < plan.windows@.len() implies {
        let window = #[trigger] plan.windows@[w];
        &&& window.row_count >= 1
        &&& window.start_row + window.row_count - 1 <= u32::MAX
        &&& ids.contains(window.start_row)
        &&& ids.contains((window.start_row + window.row_count - 1) as u32)
    } by {
        let last = lemma_window_has_row(joins, n - 1, w);
        lemma_window_start_bounds(joins, last);
        let first = window_start(joins, last);
        assert(plan.placed(ids, order, joins, n, last));
        lemma_sorted_ids(ids, order, first, last);
        if last < n - 1 {
            lemma_window_start_bounds(joins, last + 1);
        }
        assert(closes_window(joins, n, last));
        assert(ids[order[first] as int] == plan.windows@[w].start_row);
        assert(ids[order[last] as int] == plan.windows@[w].start_row + plan.windows@[w].row_count
            - 1);
    }
}

/// Where a repeated id always joins the window that it is in already, no row is in two
/// windows.
proof fn lemma_windows_apart(
    plan: BoundedReadPlan,
    ids: Seq<u32>,
    order: Seq<usize>,
    joins: spec_fn(int, int) -> bool,
)
    requires
        sorts(id_keys(ids), order),
        plan.follows(ids, order, joins, ids.len() as int),
        forall|i: int|
            0 < i < ids.len() && sorted_id(ids, order, i) == sorted_id(ids, order, i - 1)
                ==> #[trigger] window_start(joins, i) < i,
    ensures
        plan.apart(),
{
    let n = ids.len() as int;
    assert forall|a: int, b: int| 0 <= a < b < plan.windows@.len() implies (
    #[trigger] plan.windows@[a]).start_row + plan.windows@[a].row_count <= (
    #[trigger] plan.windows@[b]).start_row by {
        let last = lemma_window_has_row(joins, n - 1, a);
        let other = lemma_window_has_row(joins, n - 1, b);
        let first = window_start(joins, other);
        lemma_window_start_bounds(joins, other);
        lemma_window_start_bounds(joins, last);
        lemma_start_in_window(joins, other);
        assert(plan.placed(ids, order, joins, n, last));
        assert(plan.placed(ids, order, joins, n, other));
        if first <= last {
            lemma_same_window(joins, first, last);
            assert(false);
        }
        assert(closes_window(joins, n, last));
        lemma_sorted_ids(ids, order, last, first - 1);
        lemma_sorted_ids(ids, order, first - 1, first);
        assert(window_start(joins, first) == first);
    }
}

/// Windows of up to `most` rows.
proof fn lemma_rows_in_at_most(windows: Seq<ReadWindow>, most: int)
    requires
        forall|k: int| 0 <= k < windows.len() ==> (#[trigger] windows[k]).row_count <= most,
    ensures
        rows_in(windows) <= windows.len() * most,
    decreases windows.len(),
{
    if windows.len() > 0 {
        let shorter = windows.drop_last();
        assert forall|k: int| 0 <= k < shorter.len() implies (#[trigger] shorter[k]).row_count
            <= most by {
            assert(shorter[k] == windows[k]);
        }
        lemma_rows_in_at_most(shorter, most);
        assert(windows[windows.len() - 1].row_count <= most);
        assert(windows.len() * most == shorter.len() * most + most) by (nonlinear_arith)
            requires
                windows.len() == shorter.len() + 1,
        ;
    } else {
        assert(windows.len() * most == 0) by (nonlinear_arith)
            requires
                windows.len() == 0,
        ;
    }
}

/// What the windows hold fits the machine where the ids can be planned.
proof fn lemma_planned_total_fits(
    plan: BoundedReadPlan,
    ids: Seq<u32>,
    order: Seq<usize>,
    row_bytes: int,
    max_window_rows: int,
)
    requires
        sorts(id_keys(ids), order),
        plannable(ids, row_bytes, max_window_rows),
        row_bytes >= 1,
        plan.windows@.len() <= ids.len(),
        ids.len() == 0 ==> rows_in(plan.windows@) == 0,
        ids.len() > 0 ==> rows_in(plan.windows@) <= sorted_id(ids, order, ids.len() - 1)
            - sorted_id(ids, order, 0) + 1,
        max_window_rows >= 1,
        forall|k: int|
            0 <= k < plan.windows@.len() ==> (#[trigger] plan.windows@[k]).row_count
                <= max_window_rows,
    ensures
        0 <= rows_in(plan.windows@) <= usize::MAX,
        0 <= rows_in(plan.windows@) * row_bytes <= u64::MAX,
{
    let rows = rows_in(plan.windows@);
    lemma_rows_in_nonnegative(plan.windows@);
    lemma_rows_in_at_most(plan.windows@, max_window_rows);
    lemma_product_monotone(0, rows, row_bytes);
    if ids.len() == 0 {
        assert(0 * row_bytes == 0) by (nonlinear_arith);
    } else {
        lemma_sorted_ids(ids, order, 0, ids.len() - 1);
        let high = ids[order[ids.len() - 1] as int];
        let low = ids[order[0] as int];
        assert(high - low < usize::MAX);
        if spread_below(ids, u64::MAX as int / row_bytes) {
            assert(high - low < u64::MAX as int / row_bytes);
            lemma_product_monotone(rows, u64::MAX as int / row_bytes, row_bytes);
            vstd::arithmetic::div_mod::lemma_fundamental_div_mod(u64::MAX as int, row_bytes);
            vstd::arithmetic::div_mod::lemma_mod_bound(u64::MAX as int, row_bytes);
            assert(u64::MAX as int / row_bytes * row_bytes == row_bytes * (u64::MAX as int
                / row_bytes)) by (nonlinear_arith);
        } else {
            lemma_product_monotone(
                plan.windows@.len() as int,
                ids.len() as int,
                max_window_rows,
            );
            lemma_product_monotone(rows, ids.len() * max_window_rows, row_bytes);
        }
    }
}

impl BoundedReadPlanner {
    /// A repeated id joins the window that it is in already.
    proof fn lemma_repeat_joins(self, ids: Seq<u32>, order: Seq<usize>, i: int)
        requires
            sorts(id_keys(ids), order),
            0 < i < ids.len(),
            sorted_id(ids, order, i) == sorted_id(ids, order, i - 1),
            self.max_window_rows() >= 1,
        ensures
            (self.joins(ids, order))(window_start(self.joins(ids, order), i - 1), i),
            window_start(self.joins(ids, order), i) == window_start(self.joins(ids, order), i - 1),
    {
        let joins = self.joins(ids, order);
        let bound = self.amplification_bound();
        let s = window_start(joins, i - 1);
        lemma_window_start_bounds(joins, i - 1);
        lemma_sorted_ids(ids, order, s, i - 1);
        let physical = sorted_id(ids, order, i) - sorted_id(ids, order, s) + 1;
        if s < i - 1 {
            assert(joins(s, i - 1));
            lemma_quotient_within(physical, i - 1 - s + 1, bound);
        } else {
            lemma_quotient_within(1, 2, bound);
        }
    }

    /// A plan that follows `joins` keeps every window within the amplification.
    proof fn lemma_amplifies_within(self, plan: BoundedReadPlan, ids: Seq<u32>, order: Seq<usize>)
        requires
            sorts(id_keys(ids), order),
            plan.follows(ids, order, self.joins(ids, order), ids.len() as int),
        ensures
            plan.amplifies_within(self.amplification_bound()),
    {
        let joins = self.joins(ids, order);
        let n = ids.len() as int;
        assert forall|w: int| 0 <= w < plan.windows@.len() implies quotient_within(
            (#[trigger] plan.windows@[w]).row_count as int,
            plan.places_in(w, plan.scatter@.len() as int),
            self.amplification_bound(),
        ) by {
            let last = lemma_window_has_row(joins, n - 1, w);
            let first = window_start(joins, last);
            lemma_window_start_bounds(joins, last);
            assert(plan.placed(ids, order, joins, n, last));
            assert(closes_window(joins, n, last));
            lemma_places_in(plan, ids, order, joins, last);
            lemma_places_behind(plan, ids, order, joins, last, n);
            if first < last {
                assert(joins(first, last));
            } else {
                lemma_quotient_within(1, 1, self.amplification_bound());
            }
        }
    }
}

/// The places of the `i`-th row's window up to that row are those from the window's start.
pub(crate) proof fn lemma_places_in(
    plan: BoundedReadPlan,
    ids: Seq<u32>,
    order: Seq<usize>,
    joins: spec_fn(int, int) -> bool,
    i: int,
)
    requires
        plan.follows(ids, order, joins, ids.len() as int),
        0 <= i < ids.len(),
    ensures
        plan.places_in(window_number(joins, i), i + 1) == i - window_start(joins, i) + 1,
    decreases i,
{
    let n = ids.len() as int;
    assert(plan.placed(ids, order, joins, n, i));
    if i > 0 {
        lemma_places_in(plan, ids, order, joins, i - 1);
        if window_start(joins, i) == i {
            lemma_no_places_ahead(plan, ids, order, joins, window_number(joins, i), i);
        }
    } else {
        assert(plan.places_in(0, 0) == 0);
    }
}

/// No place in front of the `i`-th is in a window with a higher number.
proof fn lemma_no_places_ahead(
    plan: BoundedReadPlan,
    ids: Seq<u32>,
    order: Seq<usize>,
    joins: spec_fn(int, int) -> bool,
    w: int,
    i: int,
)
    requires
        plan.follows(ids, order, joins, ids.len() as int),
        0 <= i <= ids.len(),
        i > 0 ==> window_number(joins, i - 1) < w,
    ensures
        plan.places_in(w, i) == 0,
    decreases i,
{
    if i > 0 {
        assert(plan.placed(ids, order, joins, ids.len() as int, i - 1));
        if i > 1 {
            lemma_same_window(joins, i - 2, i - 1);
        }
        lemma_no_places_ahead(plan, ids, order, joins, w, i - 1);
    }
}

/// Behind a window's last row no place is in the window.
pub(crate) proof fn lemma_places_behind(
    plan: BoundedReadPlan,
    ids: Seq<u32>,
    order: Seq<usize>,
    joins: spec_fn(int, int) -> bool,
    last: int,
    m: int,
)
    requires
        plan.follows(ids, order, joins, ids.len() as int),
        0 <= last < m <= ids.len(),
        closes_window(joins, ids.len() as int, last),
    ensures
        plan.places_in(window_number(joins, last), m) == plan.places_in(
            window_number(joins, last),
            last + 1,
        ),
    decreases m,
{
    if m > last + 1 {
        lemma_places_behind(plan, ids, order, joins, last, m - 1);
        assert(plan.placed(ids, order, joins, ids.len() as int, m - 1));
        lemma_same_window(joins, last + 1, m - 1);
    }
}

/// A repeated id joins the window that it is in already.
proof fn lemma_gap_repeat_joins(
    ids: Seq<u32>,
    order: Seq<usize>,
    max_gap_rows: int,
    max_window_rows: int,
    i: int,
)
    requires
        sorts(id_keys(ids), order),
        0 < i < ids.len(),
        sorted_id(ids, order, i) == sorted_id(ids, order, i - 1),
        max_gap_rows >= 0,
        max_window_rows >= 1,
    ensures
        ({
            let joins = gap_joins(ids, order, max_gap_rows, max_window_rows);
            &&& joins(window_start(joins, i - 1), i)
            &&& window_start(joins, i) == window_start(joins, i - 1)
        }),
{
    let joins = gap_joins(ids, order, max_gap_rows, max_window_rows);
    let s = window_start(joins, i - 1);
    lemma_window_start_bounds(joins, i - 1);
    if s < i - 1 {
        assert(joins(s, i - 1));
    }
}

/// The `i`-th row joins the window from row `s` on: it follows the row before it with no
/// more than so many rows between them, and the window stays within its size.
pub open spec fn gap_joins(
    ids: Seq<u32>,
    order: Seq<usize>,
    max_gap_rows: int,
    max_window_rows: int,
) -> spec_fn(int, int) -> bool {
    |s: int, i: int|
        sorted_id(ids, order, i) - sorted_id(ids, order, s) + 1 <= max_window_rows && sorted_id(
            ids,
            order,
            i,
        ) - sorted_id(ids, order, i - 1) - 1 <= max_gap_rows
}

/// The rows that a window may hold: at least one.
pub open spec fn window_rows(max_window_bytes: int, row_bytes: int) -> int {
    greatest(max_window_bytes, greatest(row_bytes, 1)) / greatest(row_bytes, 1)
}

/// The plan that reads `ids` in ascending order in windows that bridge small gaps.
pub fn build_gather_plan(
    ids: &[u32],
    row_bytes: usize,
    options: &WindowedGatherOptions,
) -> (plan: BoundedReadPlan)
    requires
        plannable(
            ids@,
            greatest(row_bytes as int, 1),
            window_rows(options.max_window_bytes as int, row_bytes as int),
        ),
    ensures
        exists|order: Seq<usize>| #[trigger]
            sorts(id_keys(ids@), order) && plan.follows(
                ids@,
                order,
                gap_joins(
                    ids@,
                    order,
                    options.max_gap_rows as int,
                    window_rows(options.max_window_bytes as int, row_bytes as int),
                ),
                ids@.len() as int,
            ),
        plan.serves(ids@),
        plan.in_window_order(),
        plan.apart(),
        plan.spans_ids(ids@),
        plan.requested_rows == ids@.len(),
        plan.row_bytes == greatest(row_bytes as int, 1),
        plan.physical_rows == rows_in(plan.windows@),
        plan.physical_bytes == rows_in(plan.windows@) * greatest(row_bytes as int, 1),
        plan.windows@.len() <= ids@.len(),
        forall|k: int|
            0 <= k < plan.windows@.len() ==> 1 <= (#[trigger] plan.windows@[k]).row_count
                <= window_rows(options.max_window_bytes as int, row_bytes as int),
        parted_by_gaps(
            plan,
            options.max_gap_rows as int,
            window_rows(options.max_window_bytes as int, row_bytes as int),
        ),
{
    let row_bytes: usize = max_usize(row_bytes, 1);
    let max_window_rows: usize = max_usize(options.max_window_bytes, row_bytes) / row_bytes;
    let keys: Vec<u64> = keys_of(ids);
    let order: Vec<usize> = stable_order(&keys);
    let ghost joins = gap_joins(
        ids@,
        order@,
        options.max_gap_rows as int,
        max_window_rows as int,
    );
    let mut plan: BoundedReadPlan = BoundedReadPlan {
        windows: Vec::new(),
        scatter: Vec::new(),
        requested_rows: ids.len(),
        physical_rows: 0,
        physical_bytes: 0,
        row_bytes,
    };
    let mut start: usize = 0;
    proof {
        assert(max_window_rows >= 1) by (nonlinear_arith)
            requires
                max_window_rows == greatest(options.max_window_bytes as int, row_bytes as int)
                    / row_bytes as int,
                row_bytes >= 1,
                greatest(options.max_window_bytes as int, row_bytes as int) >= row_bytes,
        ;
    }
    for i in 0..ids.len()
        invariant
            sorts(id_keys(ids@), order@),
            plannable(ids@, row_bytes as int, max_window_rows as int),
            max_window_rows >= 1,
            joins == gap_joins(
                ids@,
                order@,
                options.max_gap_rows as int,
                max_window_rows as int,
            ),
            i > 0 ==> start == window_start(joins, i - 1),
            i == 0 ==> start == 0,
            plan.follows(ids@, order@, joins, i as int),
            plan.windows@.len() <= i,
            i > 0 ==> rows_in(plan.windows@) <= sorted_id(ids@, order@, i - 1) - sorted_id(
                ids@,
                order@,
                0,
            ) + 1,
            i == 0 ==> rows_in(plan.windows@) == 0,
            forall|k: int|
                0 <= k < plan.windows@.len() ==> 1 <= (#[trigger] plan.windows@[k]).row_count
                    <= max_window_rows,
            plan.requested_rows == ids@.len(),
            plan.row_bytes == row_bytes,
    {
        let mut joined: bool = false;
        if i > 0 {
            proof {
                lemma_window_start_bounds(joins, i - 1);
                lemma_sorted_ids(ids@, order@, start as int, i as int);
                lemma_sorted_ids(ids@, order@, i - 1, i as int);
            }
            let id: u32 = ids[order[i]];
            let step: u32 = id - ids[order[i - 1]];
            let physical: u64 = (id - ids[order[start]]) as u64 + 1;
            proof {
                if step == 0 {
                    lemma_gap_repeat_joins(
                        ids@,
                        order@,
                        options.max_gap_rows as int,
                        max_window_rows as int,
                        i as int,
                    );
                }
            }
            joined = physical <= max_window_rows as u64 && (step == 0 || step - 1
                <= options.max_gap_rows);
        }
        if !joined {
            start = i;
        }
        place_row(&mut plan, ids, &order, i, start, joined, Ghost(joins));
    }
    proof {
        lemma_planned_total_fits(plan, ids@, order@, row_bytes as int, max_window_rows as int);
    }
    let ghost planned = plan;
    plan.physical_rows = count_rows(&plan.windows);
    plan.physical_bytes = plan.physical_rows as u64 * row_bytes as u64;
    proof {
        lemma_follows_kept(planned, plan, ids@, order@, joins, ids@.len() as int);
        law_plan_serves_every_position(plan, ids@, id_keys(ids@), order@, joins);
        lemma_spans_ids(plan, ids@, order@, joins);
        assert forall|i: int|
            0 < i < ids@.len() && sorted_id(ids@, order@, i) == sorted_id(
                ids@,
                order@,
                i - 1,
            ) implies #[trigger] window_start(joins, i) < i by {
            lemma_gap_repeat_joins(
                ids@,
                order@,
                options.max_gap_rows as int,
                max_window_rows as int,
                i,
            );
            lemma_window_start_bounds(joins, i - 1);
        }
        lemma_windows_apart(plan, ids@, order@, joins);
        law_gaps_part_the_windows(
            plan,
            ids@,
            order@,
            options.max_gap_rows as int,
            max_window_rows as int,
        );
    }
    plan
}

/// What a plan follows depends on its windows and places alone.
proof fn lemma_follows_kept(
    plan: BoundedReadPlan,
    other: BoundedReadPlan,
    ids: Seq<u32>,
    order: Seq<usize>,
    joins: spec_fn(int, int) -> bool,
    n: int,
)
    requires
        plan.follows(ids, order, joins, n),
        other.windows@ == plan.windows@,
        other.scatter@ == plan.scatter@,
    ensures
        other.follows(ids, order, joins, n),
{
    assert forall|i: int| 0 <= i < n implies #[trigger] other.placed(ids, order, joins, n, i) by {
        assert(plan.placed(ids, order, joins, n, i));
    }
}

proof fn lemma_product_monotone(a: int, b: int, c: int)
    requires
        a <= b,
        c >= 0,
    ensures
        a * c <= b * c,
{
    assert(a * c <= b * c) by (nonlinear_arith)
        requires
            a <= b,
            c >= 0,
    ;
}

/// The blocks of a file that a row lies in: from `start` to in front of `end`.
#[derive(Clone, Copy, Debug, PartialEq, Eq, Structural)]
pub struct AlignedBlockRange {
    pub start: u64,
    pub end: u64,
}

/// Rows of one size that stand one behind the other after a header.
#[derive(Clone, Copy, Debug, PartialEq, Eq, Structural)]
pub struct RowLayout {
    pub row_bytes: usize,
    pub alignment: usize,
    pub header_bytes: u64,
}

impl RowLayout {
    /// Where a row starts in the file.
    pub open spec fn row_offset(self, row: int) -> int {
        self.header_bytes + row * self.row_bytes
    }

    /// The block that the row's first byte is in.
    pub open spec fn first_block(self, row: int) -> int {
        self.row_offset(row) / self.alignment as int
    }

    /// The number of the blocks up to the row's end.
    pub open spec fn end_block(self, row: int) -> int {
        blocks_for(self.row_offset(row + 1), self.alignment as int)
    }

    /// The bytes of the blocks that hold the rows from `start` to `end`.
    pub open spec fn aligned_bytes(self, start: int, end: int) -> int {
        self.end_block(end) * self.alignment - self.first_block(start) * self.alignment
    }

    /// The blocks that hold the row end within a `u64`.
    pub open spec fn holds(self, row: int) -> bool {
        self.alignment > 0 && self.end_block(row) * self.alignment <= u64::MAX
    }
}

pub(crate) proof fn lemma_layout(layout: RowLayout, start: int, end: int)
    requires
        0 <= start <= end,
        layout.holds(end),
    ensures
        layout.holds(start),
        0 <= layout.row_offset(start) <= layout.row_offset(start + 1) <= layout.row_offset(end + 1),
        layout.row_offset(end + 1) == layout.row_offset(start) + (end - start + 1)
            * layout.row_bytes,
        0 <= layout.first_block(start) * layout.alignment <= layout.row_offset(start),
        layout.row_offset(start) < layout.first_block(start) * layout.alignment + layout.alignment,
        layout.row_offset(end + 1) <= layout.end_block(end) * layout.alignment,
        layout.end_block(end) * layout.alignment < layout.row_offset(end + 1) + layout.alignment,
        0 <= layout.first_block(start),
        0 <= layout.end_block(start) <= layout.end_block(end),
        layout.first_block(start) <= layout.end_block(start),
        0 <= layout.aligned_bytes(start, end),
        layout.aligned_bytes(start, end) <= (end - start + 1) * layout.row_bytes + 2
            * layout.alignment,
{
    let bytes = layout.row_bytes as int;
    let block = layout.alignment as int;
    assert(0 <= start * bytes <= (start + 1) * bytes <= (end + 1) * bytes) by (nonlinear_arith)
        requires
            0 <= start <= end,
            bytes >= 0,
    ;
    assert((end + 1) * bytes == start * bytes + (end - start + 1) * bytes) by (nonlinear_arith);
    lemma_rounded(layout.row_offset(start), block);
    crate::arith::lemma_blocks_for(layout.row_offset(end + 1), block);
    crate::arith::lemma_blocks_for(layout.row_offset(start + 1), block);
    assert(layout.first_block(start) >= 0) by (nonlinear_arith)
        requires
            layout.first_block(start) == layout.row_offset(start) / block,
            layout.row_offset(start) >= 0,
            block > 0,
    ;
    assert(layout.end_block(start) <= layout.end_block(end)) by (nonlinear_arith)
        requires
            layout.end_block(start) * block < layout.row_offset(start + 1) + block,
            layout.row_offset(start + 1) <= layout.row_offset(end + 1),
            layout.row_offset(end + 1) <= layout.end_block(end) * block,
            block > 0,
    ;
    lemma_product_monotone(layout.end_block(start), layout.end_block(end), block);
    assert(layout.first_block(start) <= layout.end_block(start)) by (nonlinear_arith)
        requires
            layout.first_block(start) * block <= layout.row_offset(start),
            layout.row_offset(start) <= layout.row_offset(start + 1),
            layout.row_offset(start + 1) <= layout.end_block(start) * block,
            block > 0,
    ;
}

/// The blocks that a row lies in.
pub fn aligned_blocks_for_row(row: u32, layout: &RowLayout) -> (blocks: AlignedBlockRange)
    requires
        layout.holds(row as int),
    ensures
        blocks.start == layout.first_block(row as int),
        blocks.end == layout.end_block(row as int),
{
    proof {
        lemma_layout(*layout, row as int, row as int);
        assert((row + 1) * layout.row_bytes == row * layout.row_bytes + layout.row_bytes)
            by (nonlinear_arith);
    }
    let start: u64 = layout.header_bytes + row as u64 * layout.row_bytes as u64;
    let end: u64 = start + layout.row_bytes as u64;
    AlignedBlockRange {
        start: start / layout.alignment as u64,
        end: crate::arith::div_ceil_u64(end, layout.alignment as u64),
    }
}

/// The bytes of the blocks that hold the rows from `start` to `end`.
pub fn aligned_read_bytes_for_rows(start: u32, end: u32, layout: &RowLayout) -> (bytes: u64)
    requires
        start <= end,
        layout.holds(end as int),
    ensures
        bytes == layout.aligned_bytes(start as int, end as int),
{
    proof {
        lemma_layout(*layout, start as int, end as int);
    }
    let first: AlignedBlockRange = aligned_blocks_for_row(start, layout);
    let last: AlignedBlockRange = aligned_blocks_for_row(end, layout);
    last.end * layout.alignment as u64 - first.start * layout.alignment as u64
}

/// The end of the blocks that the rows from the `s`-th to the `i`-th touch.
pub open spec fn touched_end(
    layout: RowLayout,
    ids: Seq<u32>,
    order: Seq<usize>,
    s: int,
    i: int,
) -> int
    decreases i - s,
{
    let end = layout.end_block(sorted_id(ids, order, i));
    if i <= s {
        end
    } else {
        greatest(touched_end(layout, ids, order, s, i - 1), end)
    }
}

/// How many blocks the rows from the `s`-th to the `i`-th touch: each row adds
/// those behind the ones touched before it.
pub open spec fn touched_blocks(
    layout: RowLayout,
    ids: Seq<u32>,
    order: Seq<usize>,
    s: int,
    i: int,
) -> int
    decreases i - s,
{
    let row = sorted_id(ids, order, i);
    if i <= s {
        layout.end_block(row) - layout.first_block(row)
    } else {
        touched_blocks(layout, ids, order, s, i - 1) + greatest(
            layout.end_block(row) - greatest(
                touched_end(layout, ids, order, s, i - 1),
                layout.first_block(row),
            ),
            0,
        )
    }
}

/// The bytes of the windows when each is read in whole blocks.
pub open spec fn aligned_bytes_in(layout: RowLayout, windows: Seq<ReadWindow>) -> int
    decreases windows.len(),
{
    if windows.len() == 0 {
        0
    } else {
        let last = windows.last();
        aligned_bytes_in(layout, windows.drop_last()) + layout.aligned_bytes(
            last.start_row as int,
            last.start_row + last.row_count - 1,
        )
    }
}

impl BoundedReadPlanner {
    /// The rows as they lie in a file that is read in aligned blocks.
    pub open spec fn layout(self, alignment: int, header: u64) -> RowLayout {
        RowLayout {
            row_bytes: self.effective_row_bytes() as usize,
            alignment: greatest(alignment, 1) as usize,
            header_bytes: header,
        }
    }

    pub open spec fn aligned_window_bytes(self, alignment: int) -> int {
        greatest(
            greatest(self.max_window_bytes as int, self.effective_row_bytes()),
            greatest(alignment, 1),
        )
    }

    /// The `i`-th row joins the window from row `s` on: the blocks from one row to
    /// the other stay within a window, and their bytes divided by those of the
    /// blocks that the requested rows touch, both as doubles, stay within the
    /// amplification.
    pub open spec fn aligned_joins(
        self,
        ids: Seq<u32>,
        order: Seq<usize>,
        alignment: int,
        header: u64,
    ) -> spec_fn(int, int) -> bool {
        |s: int, i: int|
            {
                let layout = self.layout(alignment, header);
                let physical = layout.aligned_bytes(
                    sorted_id(ids, order, s),
                    sorted_id(ids, order, i),
                );
                physical <= self.aligned_window_bytes(alignment) && quotient_within(
                    nearest_double(physical),
                    nearest_double(touched_blocks(layout, ids, order, s, i) * layout.alignment),
                    self.amplification_bound(),
                )
            }
    }
}

/// The touched blocks lie between the first row's first block and their end, and
/// there is at least one.
proof fn lemma_touched(layout: RowLayout, ids: Seq<u32>, order: Seq<usize>, s: int, i: int)
    requires
        sorts(id_keys(ids), order),
        0 <= s <= i < ids.len(),
        layout.row_bytes > 0,
        forall|k: int| 0 <= k < ids.len() ==> layout.holds(#[trigger] ids[k] as int),
    ensures
        1 <= touched_blocks(layout, ids, order, s, i) <= touched_end(layout, ids, order, s, i)
            - layout.first_block(sorted_id(ids, order, s)),
        touched_end(layout, ids, order, s, i) == layout.end_block(sorted_id(ids, order, i)),
    decreases i - s,
{
    lemma_sorted_ids(ids, order, s, i);
    let row = sorted_id(ids, order, i);
    lemma_layout(layout, row, row);
    if s < i {
        lemma_touched(layout, ids, order, s, i - 1);
        lemma_sorted_ids(ids, order, i - 1, i);
        lemma_layout(layout, sorted_id(ids, order, i - 1), row);
    } else {
        let bytes = layout.row_bytes as int;
        assert(layout.row_offset(row + 1) == layout.row_offset(row) + bytes) by {
            assert((row + 1) * bytes == row * bytes + bytes) by (nonlinear_arith);
        }
        assert(layout.first_block(row) < layout.end_block(row)) by (nonlinear_arith)
            requires
                layout.first_block(row) * layout.alignment <= layout.row_offset(row),
                layout.row_offset(row) < layout.end_block(row) * layout.alignment,
                layout.alignment > 0,
        ;
    }
}

/// The blocks that rows touch: where they end, and how many there are.
#[derive(Clone, Copy, Debug, PartialEq, Eq, Structural)]
struct Touched {
    to: u64,
    blocks: u64,
}

impl Touched {
    /// What the rows from the `s`-th to the `i`-th touch.
    spec fn covers(
        self,
        layout: RowLayout,
        ids: Seq<u32>,
        order: Seq<usize>,
        s: int,
        i: int,
    ) -> bool {
        &&& self.to == touched_end(layout, ids, order, s, i)
        &&& self.blocks == touched_blocks(layout, ids, order, s, i)
    }
}

/// What one row touches.
fn touched_by_row(
    ids: &[u32],
    order: &Vec<usize>,
    i: usize,
    layout: &RowLayout,
) -> (touched: Touched)
    requires
        sorts(id_keys(ids@), order@),
        i < ids@.len(),
        forall|k: int| 0 <= k < ids@.len() ==> layout.holds(#[trigger] ids@[k] as int),
    ensures
        touched.covers(*layout, ids@, order@, i as int, i as int),
{
    proof {
        lemma_sorted_ids(ids@, order@, i as int, i as int);
        let row = sorted_id(ids@, order@, i as int);
        lemma_layout(*layout, row, row);
    }
    let blocks: AlignedBlockRange = aligned_blocks_for_row(ids[order[i]], layout);
    Touched { to: blocks.end, blocks: blocks.end - blocks.start }
}

/// Whether the `i`-th row joins the window from row `start` on, and what is touched then.
fn aligned_row_joins(
    ids: &[u32],
    order: &Vec<usize>,
    start: usize,
    i: usize,
    layout: &RowLayout,
    touched: &Touched,
    max_window_bytes: usize,
    bound: F64,
) -> (next: (bool, Touched))
    requires
        sorts(id_keys(ids@), order@),
        start < i < ids@.len(),
        layout.row_bytes > 0,
        forall|k: int| 0 <= k < ids@.len() ==> layout.holds(#[trigger] ids@[k] as int),
        touched.covers(*layout, ids@, order@, start as int, i - 1),
        F64_ONE <= bound.bits < F64_INFINITY,
    ensures
        next.1.covers(*layout, ids@, order@, start as int, i as int),
        ({
            let physical = layout.aligned_bytes(
                sorted_id(ids@, order@, start as int),
                sorted_id(ids@, order@, i as int),
            );
            next.0 == (physical <= max_window_bytes && quotient_within(
                nearest_double(physical),
                nearest_double(
                    touched_blocks(*layout, ids@, order@, start as int, i as int)
                        * layout.alignment,
                ),
                bound,
            ))
        }),
{
    proof {
        lemma_sorted_ids(ids@, order@, start as int, i as int);
        lemma_touched(*layout, ids@, order@, start as int, i - 1);
        lemma_touched(*layout, ids@, order@, start as int, i as int);
        let first = sorted_id(ids@, order@, start as int);
        let row = sorted_id(ids@, order@, i as int);
        lemma_layout(*layout, row, row);
        lemma_layout(*layout, first, row);
        let count = touched_blocks(*layout, ids@, order@, start as int, i as int);
        lemma_product_monotone(1, count, layout.alignment as int);
        lemma_product_monotone(count, layout.end_block(row), layout.alignment as int);
    }
    let row: u32 = ids[order[i]];
    let first: u32 = ids[order[start]];
    let blocks: AlignedBlockRange = aligned_blocks_for_row(row, layout);
    let physical: u64 = aligned_read_bytes_for_rows(first, row, layout);
    let known: u64 = max_u64(touched.to, blocks.start);
    let extra: u64 = if blocks.end > known {
        blocks.end - known
    } else {
        0
    };
    let count: u64 = touched.blocks + extra;
    let mandatory: u64 = count * layout.alignment as u64;
    let joined: bool = physical <= max_window_bytes as u64 && ratio_at_most(
        physical,
        mandatory,
        bound,
    );
    (joined, Touched { to: max_u64(touched.to, blocks.end), blocks: count })
}

/// The bytes of a window when it is read in whole blocks.
pub open spec fn window_bytes(layout: RowLayout, window: ReadWindow) -> int {
    layout.aligned_bytes(window.start_row as int, window.start_row + window.row_count - 1)
}

/// The blocks of the rows end within a `u64`, a window of the rows is counted by a `u32`
/// and all of them together by a `usize`, and their bytes fit a `u64`.
pub open spec fn alignable(ids: Seq<u32>, layout: RowLayout, max_window_bytes: int) -> bool {
    let n = ids.len() as int;
    &&& forall|i: int| 0 <= i < n ==> layout.holds(#[trigger] ids[i] as int)
    &&& spread_below(ids, u32::MAX as int)
    &&& spread_below(ids, usize::MAX - n + 1)
    &&& spread_rows_fit(ids, layout) || n * greatest(
        max_window_bytes,
        layout.row_bytes + 2 * layout.alignment,
    ) <= u64::MAX
}

/// The rows from the first to the last id, and two blocks more for each id, fit a `u64`.
pub open spec fn spread_rows_fit(ids: Seq<u32>, layout: RowLayout) -> bool {
    forall|i: int, j: int|
        0 <= i < ids.len() && 0 <= j < ids.len() ==> ((#[trigger] ids[j]) - (#[trigger] ids[i])
            + ids.len()) * layout.row_bytes + 2 * ids.len() * layout.alignment <= u64::MAX
}

/// The windows are windows of rows in the file, each of at most `most` bytes.
spec fn windows_hold(layout: RowLayout, windows: Seq<ReadWindow>, most: int) -> bool {
    forall|k: int|
        0 <= k < windows.len() ==> {
            let window = #[trigger] windows[k];
            &&& window.row_count >= 1
            &&& window.start_row + window.row_count - 1 <= u32::MAX
            &&& layout.holds(window.start_row + window.row_count - 1)
            &&& window_bytes(layout, window) <= most
        }
}

/// A window that is put in place of the last one, or behind it, keeps the windows in order.
proof fn lemma_windows_hold_step(
    layout: RowLayout,
    before: Seq<ReadWindow>,
    after: Seq<ReadWindow>,
    joined: bool,
    last: ReadWindow,
    most: int,
)
    requires
        windows_hold(layout, before, most),
        joined ==> before.len() > 0 && after == before.update(before.len() - 1, last),
        !joined ==> after == before.push(last),
        last.row_count >= 1,
        last.start_row + last.row_count - 1 <= u32::MAX,
        layout.holds(last.start_row + last.row_count - 1),
        window_bytes(layout, last) <= most,
    ensures
        windows_hold(layout, after, most),
{
    assert forall|k: int| 0 <= k < after.len() implies {
        let window = #[trigger] after[k];
        &&& window.row_count >= 1
        &&& window.start_row + window.row_count - 1 <= u32::MAX
        &&& layout.holds(window.start_row + window.row_count - 1)
        &&& window_bytes(layout, window) <= most
    } by {
        if k < after.len() - 1 {
            assert(after[k] == before[k]);
        }
    }
}

/// What the first windows take stays within what all of them take.
proof fn lemma_aligned_prefix(layout: RowLayout, windows: Seq<ReadWindow>, n: int, most: int)
    requires
        0 <= n <= windows.len(),
        windows_hold(layout, windows, most),
    ensures
        0 <= aligned_bytes_in(layout, windows.take(n)) <= aligned_bytes_in(layout, windows),
    decreases windows.len() - n,
{
    if n < windows.len() {
        lemma_aligned_prefix(layout, windows, n + 1, most);
        assert(windows.take(n + 1).drop_last() =~= windows.take(n));
        let window = windows[n];
        lemma_layout(
            layout,
            window.start_row as int,
            window.start_row + window.row_count - 1,
        );
    } else {
        assert(windows.take(n) =~= windows);
    }
    lemma_aligned_nonnegative(layout, windows.take(n));
}

proof fn lemma_aligned_nonnegative(layout: RowLayout, windows: Seq<ReadWindow>)
    requires
        forall|k: int|
            0 <= k < windows.len() ==> {
                let window = #[trigger] windows[k];
                &&& window.row_count >= 1
                &&& layout.holds(window.start_row + window.row_count - 1)
            },
    ensures
        aligned_bytes_in(layout, windows) >= 0,
    decreases windows.len(),
{
    if windows.len() > 0 {
        let window = windows.last();
        assert(windows[windows.len() - 1] == window);
        lemma_layout(
            layout,
            window.start_row as int,
            window.start_row + window.row_count - 1,
        );
        let shorter = windows.drop_last();
        assert forall|k: int| 0 <= k < shorter.len() implies {
            let window = #[trigger] shorter[k];
            &&& window.row_count >= 1
            &&& layout.holds(window.start_row + window.row_count - 1)
        } by {
            assert(shorter[k] == windows[k]);
        }
        lemma_aligned_nonnegative(layout, shorter);
    }
}

/// The windows take no more than their rows and two blocks each, nor more than so many of
/// the largest.
proof fn lemma_aligned_total(layout: RowLayout, windows: Seq<ReadWindow>, most: int)
    requires
        windows_hold(layout, windows, most),
    ensures
        aligned_bytes_in(layout, windows) <= rows_in(windows) * layout.row_bytes + 2
            * windows.len() * layout.alignment,
        aligned_bytes_in(layout, windows) <= windows.len() * most,
        aligned_bytes_in(layout, windows) % layout.alignment as int == 0 || windows.len() == 0,
    decreases windows.len(),
{
    let bytes = layout.row_bytes as int;
    let block = layout.alignment as int;
    let n = windows.len() as int;
    if n > 0 {
        let window = windows.last();
        let shorter = windows.drop_last();
        assert(windows[n - 1] == window);
        assert(windows_hold(layout, shorter, most)) by {
            assert forall|k: int| 0 <= k < shorter.len() implies {
                let window = #[trigger] shorter[k];
                &&& window.row_count >= 1
                &&& window.start_row + window.row_count - 1 <= u32::MAX
                &&& layout.holds(window.start_row + window.row_count - 1)
                &&& window_bytes(layout, window) <= most
            } by {
                assert(shorter[k] == windows[k]);
            }
        }
        lemma_aligned_total(layout, shorter, most);
        let first = window.start_row as int;
        let last = window.start_row + window.row_count - 1;
        lemma_layout(layout, first, last);
        let rows = rows_in(shorter);
        assert((rows + window.row_count) * bytes == rows * bytes + window.row_count * bytes)
            by (nonlinear_arith);
        assert(2 * n * block == 2 * (n - 1) * block + 2 * block) by (nonlinear_arith);
        assert(n * most == (n - 1) * most + most) by (nonlinear_arith);
        let blocks = layout.end_block(last) - layout.first_block(first);
        assert(window_bytes(layout, window) == blocks * block) by (nonlinear_arith)
            requires
                window_bytes(layout, window) == layout.end_block(last) * block
                    - layout.first_block(first) * block,
                blocks == layout.end_block(last) - layout.first_block(first),
        ;
        let before = aligned_bytes_in(layout, shorter);
        if n > 1 {
            vstd::arithmetic::div_mod::lemma_fundamental_div_mod(before, block);
            let parts = before / block;
            assert(before + blocks * block == (parts + blocks) * block) by (nonlinear_arith)
                requires
                    before == block * parts,
            ;
            vstd::arithmetic::div_mod::lemma_mod_multiples_basic(parts + blocks, block);
        } else {
            assert(aligned_bytes_in(layout, shorter) == 0);
            vstd::arithmetic::div_mod::lemma_mod_multiples_basic(blocks, block);
        }
    } else {
        assert(0 * bytes == 0 && 0 * most == 0 && 0 * block == 0) by (nonlinear_arith);
        assert(rows_in(windows) * bytes == 0) by (nonlinear_arith)
            requires
                rows_in(windows) == 0,
        ;
        assert(n * most == 0 && 2 * n * block == 0) by (nonlinear_arith)
            requires
                n == 0,
        ;
    }
}

/// What a plan of rows that can be aligned takes fits the machine.
proof fn lemma_aligned_plan_fits(
    plan: BoundedReadPlan,
    ids: Seq<u32>,
    order: Seq<usize>,
    layout: RowLayout,
    max_window_bytes: int,
)
    requires
        sorts(id_keys(ids), order),
        alignable(ids, layout, max_window_bytes),
        windows_hold(
            layout,
            plan.windows@,
            greatest(max_window_bytes, layout.row_bytes + 2 * layout.alignment),
        ),
        plan.windows@.len() <= ids.len(),
        ids.len() == 0 ==> rows_in(plan.windows@) == 0,
        ids.len() > 0 ==> rows_in(plan.windows@) <= sorted_id(ids, order, ids.len() - 1)
            - sorted_id(ids, order, 0) + plan.windows@.len(),
    ensures
        0 <= rows_in(plan.windows@) <= usize::MAX,
        0 <= aligned_bytes_in(layout, plan.windows@) <= u64::MAX,
{
    let most = greatest(max_window_bytes, layout.row_bytes + 2 * layout.alignment);
    let windows = plan.windows@;
    lemma_rows_in_nonnegative(windows);
    lemma_aligned_total(layout, windows, most);
    lemma_aligned_prefix(layout, windows, windows.len() as int, most);
    assert(windows.take(windows.len() as int) =~= windows);
    if ids.len() > 0 {
        lemma_sorted_ids(ids, order, 0, ids.len() - 1);
        let high = ids[order[ids.len() - 1] as int];
        let low = ids[order[0] as int];
        assert(high - low < usize::MAX - ids.len() + 1);
        if spread_rows_fit(ids, layout) {
            assert((high - low + ids.len()) * layout.row_bytes + 2 * ids.len() * layout.alignment
                <= u64::MAX);
            lemma_product_monotone(
                rows_in(windows),
                high - low + ids.len(),
                layout.row_bytes as int,
            );
            lemma_product_monotone(
                2 * windows.len() as int,
                2 * ids.len() as int,
                layout.alignment as int,
            );
        } else {
            lemma_product_monotone(windows.len() as int, ids.len() as int, most);
        }
    } else {
        assert(windows.len() == 0);
    }
}

/// Adds up the blocks' bytes of the windows.
fn count_aligned_bytes(
    windows: &Vec<ReadWindow>,
    layout: &RowLayout,
    Ghost(most): Ghost<int>,
) -> (bytes: u64)
    requires
        windows_hold(*layout, windows@, most),
        aligned_bytes_in(*layout, windows@) <= u64::MAX,
    ensures
        bytes == aligned_bytes_in(*layout, windows@),
{
    let mut bytes: u64 = 0;
    for i in 0..windows.len()
        invariant
            windows_hold(*layout, windows@, most),
            aligned_bytes_in(*layout, windows@) <= u64::MAX,
            bytes == aligned_bytes_in(*layout, windows@.take(i as int)),
    {
        let window: ReadWindow = windows[i];
        proof {
            assert(windows@[i as int] == window);
            assert(windows@.take(i as int + 1).drop_last() =~= windows@.take(i as int));
            lemma_aligned_prefix(*layout, windows@, i as int + 1, most);
            lemma_layout(
                *layout,
                window.start_row as int,
                window.start_row + window.row_count - 1,
            );
        }
        let end_row: u32 = window.start_row + (window.row_count - 1);
        bytes = bytes + aligned_read_bytes_for_rows(window.start_row, end_row, layout);
    }
    proof {
        assert(windows@.take(windows@.len() as int) =~= windows@);
    }
    bytes
}

impl BoundedReadPlanner {
    /// In a plan that follows `aligned_joins` a window with more than one place keeps to the
    /// size of a window.
    proof fn lemma_shared_windows(
        self,
        plan: BoundedReadPlan,
        ids: Seq<u32>,
        order: Seq<usize>,
        alignment: int,
        header: u64,
    )
        requires
            sorts(id_keys(ids), order),
            plan.follows(
                ids,
                order,
                self.aligned_joins(ids, order, alignment, header),
                ids.len() as int,
            ),
        ensures
            plan.shared_windows_within(
                self.layout(alignment, header),
                self.aligned_window_bytes(alignment),
            ),
    {
        let joins = self.aligned_joins(ids, order, alignment, header);
        let layout = self.layout(alignment, header);
        let n = ids.len() as int;
        assert forall|w: int|
            0 <= w < plan.windows@.len() && plan.places_in(w, plan.scatter@.len() as int)
                > 1 implies window_bytes(layout, #[trigger] plan.windows@[w])
            <= self.aligned_window_bytes(alignment) by {
            let last = lemma_window_has_row(joins, n - 1, w);
            let first = window_start(joins, last);
            lemma_window_start_bounds(joins, last);
            assert(plan.placed(ids, order, joins, n, last));
            assert(closes_window(joins, n, last));
            lemma_places_in(plan, ids, order, joins, last);
            lemma_places_behind(plan, ids, order, joins, last, n);
            assert(joins(first, last));
        }
    }

    /// The plan that reads `ids` in ascending order in the longest windows that
    /// `aligned_joins` allows, for rows that stand behind a header in a file read
    /// in blocks.
    pub fn plan_with_aligned_read_cost(
        &self,
        ids: &[u32],
        alignment_bytes: usize,
        header_bytes: u64,
    ) -> (plan: BoundedReadPlan)
        requires
            alignable(
                ids@,
                self.layout(alignment_bytes as int, header_bytes),
                self.aligned_window_bytes(alignment_bytes as int),
            ),
        ensures
            exists|order: Seq<usize>| #[trigger]
                sorts(id_keys(ids@), order) && plan.follows(
                    ids@,
                    order,
                    self.aligned_joins(ids@, order, alignment_bytes as int, header_bytes),
                    ids@.len() as int,
                ),
            plan.serves(ids@),
            plan.in_window_order(),
            plan.requested_rows == ids@.len(),
            plan.row_bytes == self.effective_row_bytes(),
            plan.physical_rows == rows_in(plan.windows@),
            plan.physical_bytes == aligned_bytes_in(
                self.layout(alignment_bytes as int, header_bytes),
                plan.windows@,
            ),
            plan.physical_bytes as int % greatest(alignment_bytes as int, 1) == 0,
            plan.spans_ids(ids@),
            plan.shared_windows_within(
                self.layout(alignment_bytes as int, header_bytes),
                self.aligned_window_bytes(alignment_bytes as int),
            ),
    {
        let row_bytes: usize = max_usize(self.row_bytes, 1);
        let alignment: usize = max_usize(alignment_bytes, 1);
        let max_window_bytes: usize = max_usize(
            max_usize(self.max_window_bytes, row_bytes),
            alignment,
        );
        let bound: F64 = self.amplification();
        let layout: RowLayout = RowLayout { row_bytes, alignment, header_bytes };
        let keys: Vec<u64> = keys_of(ids);
        let order: Vec<usize> = stable_order(&keys);
        let ghost joins = self.aligned_joins(ids@, order@, alignment_bytes as int, header_bytes);
        let mut plan: BoundedReadPlan = BoundedReadPlan {
            windows: Vec::new(),
            scatter: Vec::new(),
            requested_rows: ids.len(),
            physical_rows: 0,
            physical_bytes: 0,
            row_bytes,
        };
        let mut start: usize = 0;
        let mut touched: Touched = Touched { to: 0, blocks: 0 };
        let ghost most = greatest(max_window_bytes as int, row_bytes + 2 * alignment);
        for i in 0..ids.len()
            invariant
                sorts(id_keys(ids@), order@),
                spread_below(ids@, u32::MAX as int),
                most == greatest(max_window_bytes as int, row_bytes + 2 * alignment),
                row_bytes == self.effective_row_bytes(),
                row_bytes > 0,
                alignment == greatest(alignment_bytes as int, 1),
                max_window_bytes == self.aligned_window_bytes(alignment_bytes as int),
                layout == (RowLayout { row_bytes, alignment, header_bytes }),
                forall|k: int| 0 <= k < ids@.len() ==> layout.holds(#[trigger] ids@[k] as int),
                bound == self.amplification_bound(),
                F64_ONE <= bound.bits < F64_INFINITY,
                joins == self.aligned_joins(ids@, order@, alignment_bytes as int, header_bytes),
                i > 0 ==> start == window_start(joins, i - 1),
                i == 0 ==> start == 0,
                i > 0 ==> touched.covers(layout, ids@, order@, start as int, i - 1),
                plan.follows(ids@, order@, joins, i as int),
                plan.windows@.len() <= i,
                i > 0 ==> rows_in(plan.windows@) <= sorted_id(ids@, order@, i - 1) - sorted_id(
                    ids@,
                    order@,
                    0,
                ) + plan.windows@.len(),
                i == 0 ==> rows_in(plan.windows@) == 0,
                windows_hold(layout, plan.windows@, most),
                plan.requested_rows == ids@.len(),
                plan.row_bytes == row_bytes,
        {
            let mut joined: bool = false;
            let mut reached: Touched = Touched { to: 0, blocks: 0 };
            if i > 0 {
                proof {
                    lemma_window_start_bounds(joins, i - 1);
                    lemma_sorted_ids(ids@, order@, i - 1, i as int);
                }
                let next: (bool, Touched) = aligned_row_joins(
                    ids,
                    &order,
                    start,
                    i,
                    &layout,
                    &touched,
                    max_window_bytes,
                    bound,
                );
                joined = next.0;
                reached = next.1;
            }
            if !joined {
                start = i;
                reached = touched_by_row(ids, &order, i, &layout);
            }
            touched = reached;
            let ghost held = plan.windows@;
            place_row(&mut plan, ids, &order, i, start, joined, Ghost(joins));
            proof {
                lemma_sorted_ids(ids@, order@, start as int, i as int);
                let first = ids@[order@[start as int] as int];
                let row = ids@[order@[i as int] as int];
                lemma_layout(layout, row as int, row as int);
                assert(1 * row_bytes == row_bytes);
                let last = ReadWindow {
                    start_row: first,
                    row_count: (row - first + 1) as u32,
                };
                lemma_windows_hold_step(layout, held, plan.windows@, joined, last, most);
            }
        }
        proof {
            lemma_rows_in_nonnegative(plan.windows@);
            lemma_aligned_plan_fits(plan, ids@, order@, layout, max_window_bytes as int);
            lemma_aligned_total(layout, plan.windows@, most);
        }
        let ghost planned = plan;
        plan.physical_rows = count_rows(&plan.windows);
        plan.physical_bytes = count_aligned_bytes(&plan.windows, &layout, Ghost(most));
        proof {
            lemma_follows_kept(planned, plan, ids@, order@, joins, ids@.len() as int);
            law_plan_serves_every_position(plan, ids@, id_keys(ids@), order@, joins);
            lemma_spans_ids(plan, ids@, order@, joins);
            self.lemma_shared_windows(plan, ids@, order@, alignment_bytes as int, header_bytes);
            if plan.windows@.len() == 0 {
                assert(plan.physical_bytes == 0);
                vstd::arithmetic::div_mod::lemma_small_mod(0, alignment as nat);
            }
        }
        plan
    }
}

} // verus!
