//! Sketches of a subset of the points, held in memory under their global ids.

use vstd::prelude::*;

use crate::ann_result::{index_error, AnnResult};
use crate::arith::{capped, product_is, sat_mul};
use crate::float_bits::{F32, F64};
use crate::gather::{WindowedGatherOptions, WindowedGatherStats};
use crate::order::{listed, precedes, sorts, stable_order};
use crate::rows::{copy_values, lemma_row_bounds, row_of};
use crate::sketch::{capacity_of, put_row, rows_read, SketchAccessor};
use crate::text::{decimal, with_numbers};

verus! {

pub open spec fn strictly_increasing(ids: Seq<u32>) -> bool {
    forall|i: int, j: int| 0 <= i < j < ids.len() ==> #[trigger] ids[i] < #[trigger] ids[j]
}

pub open spec fn nondecreasing(ids: Seq<u32>) -> bool {
    forall|i: int, j: int| 0 <= i < j < ids.len() ==> #[trigger] ids[i] <= #[trigger] ids[j]
}

pub fn is_strictly_increasing_u32(ids: &[u32]) -> (result: bool)
    ensures
        result == strictly_increasing(ids@),
{
    if ids.len() == 0 {
        return true;
    }
    for i in 1..ids.len()
        invariant
            ids@.len() > 0,
            forall|a: int, b: int| 0 <= a < b < i ==> #[trigger] ids@[a] < #[trigger] ids@[b],
    {
        if ids[i - 1] >= ids[i] {
            return false;
        }
    }
    true
}

pub fn is_nondecreasing_u32(ids: &[u32]) -> (result: bool)
    ensures
        result == nondecreasing(ids@),
{
    if ids.len() == 0 {
        return true;
    }
    for i in 1..ids.len()
        invariant
            ids@.len() > 0,
            forall|a: int, b: int| 0 <= a < b < i ==> #[trigger] ids@[a] <= #[trigger] ids@[b],
    {
        if ids[i - 1] > ids[i] {
            return false;
        }
    }
    true
}

/// Where `id` stands among strictly increasing ids.
fn position_in(ids: &Vec<u32>, id: u32) -> (position: Option<usize>)
    requires
        strictly_increasing(ids@),
    ensures
        match position {
            Some(at) => at < ids@.len() && ids@[at as int] == id,
            None => !ids@.contains(id),
        },
{
    let mut lo: usize = 0;
    let mut hi: usize = ids.len();
    while lo < hi
        invariant
            strictly_increasing(ids@),
            lo <= hi <= ids@.len(),
            forall|i: int| 0 <= i < lo ==> #[trigger] ids@[i] < id,
            forall|i: int| hi <= i < ids@.len() ==> #[trigger] ids@[i] > id,
        decreases hi - lo,
    {
        let mid: usize = lo + (hi - lo) / 2;
        if ids[mid] == id {
            return Some(mid);
        } else if ids[mid] < id {
            lo = mid + 1;
        } else {
            hi = mid;
        }
    }
    None
}

/// Sketch rows held under ids.
#[derive(Debug)]
pub struct ResidentSubsetSketchAccessor {
    global_ids: Vec<u32>,
    lookup_ids: Vec<u32>,
    lookup_rows: Vec<usize>,
    data: Vec<F32>,
    width: usize,
    rows: usize,
    sorted_unique_ids: bool,
}

/// `id` stands for row `i` of `ids`.
pub open spec fn stands_at(ids: Seq<u32>, id: u32, i: int) -> bool {
    0 <= i < ids.len() && ids[i] == id
}

/// The bytes of an accessor whose tables have room for so many entries.
pub open spec fn subset_bytes(ids: int, lookup_ids: int, lookup_rows: int, data: int) -> int {
    capped(
        capped(
            capped(
                capped(
                    core::mem::size_of::<ResidentSubsetSketchAccessor>() + capped(ids * 4),
                ) + capped(lookup_ids * 4),
            ) + capped(lookup_rows * core::mem::size_of::<usize>()),
        ) + capped(data * 4),
    )
}

/// The bytes of an accessor whose tables have room for so many entries.
pub fn subset_bytes_with_capacities(
    ids: usize,
    lookup_ids: usize,
    lookup_rows: usize,
    data: usize,
) -> (bytes: usize)
    ensures
        bytes == subset_bytes(ids as int, lookup_ids as int, lookup_rows as int, data as int),
{
    core::mem::size_of::<ResidentSubsetSketchAccessor>().saturating_add(
        sat_mul(ids, 4),
    ).saturating_add(sat_mul(lookup_ids, 4)).saturating_add(
        sat_mul(lookup_rows, core::mem::size_of::<usize>()),
    ).saturating_add(sat_mul(data, 4))
}

/// The text for a matrix of the wrong size.
pub open spec fn size_mismatch(got: int, expected: int) -> Seq<char> {
    "Resident subset sketch matrix size mismatch: got "@ + decimal(got as nat) + " expected "@
        + decimal(expected as nat) + ""@
}

/// The text for a row that is not held.
pub open spec fn row_missing(id: u32, held: int) -> Seq<char> {
    "Sketch row "@ + decimal(id as nat) + " not present in resident subset with "@ + decimal(
        held as nat,
    ) + " rows"@
}

fn missing_error(id: u32, held: usize) -> (error: crate::ann_result::AnnError)
    ensures
        error.is_index(row_missing(id, held as int)),
{
    index_error(
        with_numbers(
            "Sketch row ",
            id as u64,
            " not present in resident subset with ",
            held as u64,
            " rows",
        ),
    )
}

fn size_error(got: usize, expected: usize) -> (error: crate::ann_result::AnnError)
    ensures
        error.is_index(size_mismatch(got as int, expected as int)),
{
    index_error(
        with_numbers(
            "Resident subset sketch matrix size mismatch: got ",
            got as u64,
            " expected ",
            expected as u64,
            "",
        ),
    )
}

impl ResidentSubsetSketchAccessor {
    /// The ids under which rows are held, in the order of the rows.
    pub closed spec fn ids(&self) -> Seq<u32> {
        self.global_ids@
    }

    pub closed spec fn values(&self) -> Seq<F32> {
        self.data@
    }

    pub closed spec fn row_len(&self) -> int {
        self.width as int
    }

    pub closed spec fn total_rows(&self) -> int {
        self.rows as int
    }

    /// The entries of the tables that ids are looked up in.
    pub closed spec fn lookup_len(&self) -> int {
        if self.lookup_ids@.len() <= self.lookup_rows@.len() {
            self.lookup_ids@.len() as int
        } else {
            self.lookup_rows@.len() as int
        }
    }

    /// The tables that ids are looked up in agree with the ids.
    pub closed spec fn tables_agree(&self) -> bool {
        &&& self.sorted_unique_ids == strictly_increasing(self.global_ids@)
        &&& !self.sorted_unique_ids ==> {
            &&& strictly_increasing(self.lookup_ids@)
            &&& self.lookup_rows@.len() == self.lookup_ids@.len()
            &&& forall|k: int|
                0 <= k < self.lookup_rows@.len() ==> (#[trigger] self.lookup_rows@[k])
                    < self.global_ids@.len() && self.global_ids@[self.lookup_rows@[k] as int]
                    == self.lookup_ids@[k]
            &&& forall|i: int|
                0 <= i < self.global_ids@.len() ==> self.lookup_ids@.contains(
                    #[trigger] self.global_ids@[i],
                )
        }
    }

    pub open spec fn wf(&self) -> bool {
        &&& self.row_len() > 0
        &&& self.values().len() == self.ids().len() * self.row_len()
        &&& self.tables_agree()
    }

    /// Holds `data` as the rows under `global_ids`. Fails where rows would have no
    /// values, or where `data` is not as large as the rows together.
    pub fn new(
        global_ids: Vec<u32>,
        rows: usize,
        width: usize,
        data: Vec<F32>,
    ) -> (result: AnnResult<Self>)
        ensures
            match result {
                Ok(accessor) => {
                    &&& width > 0
                    &&& data@.len() == global_ids@.len() * width
                    &&& accessor.wf()
                    &&& accessor.ids() == global_ids@
                    &&& accessor.values() == data@
                    &&& accessor.row_len() == width
                    &&& accessor.total_rows() == rows
                },
                Err(error) => if width == 0 {
                    error.is_index("Resident subset sketch accessor requires nonzero width"@)
                } else {
                    data@.len() != global_ids@.len() * width && error.is_index(
                        size_mismatch(data@.len() as int, capped(global_ids@.len() * width)),
                    )
                },
            },
    {
        if width == 0 {
            return Err(
                index_error("Resident subset sketch accessor requires nonzero width".to_owned()),
            );
        }
        if !product_is(global_ids.len(), width, data.len()) {
            return Err(size_error(data.len(), sat_mul(global_ids.len(), width)));
        }
        let sorted_unique_ids: bool = is_strictly_increasing_u32(global_ids.as_slice());
        let mut accessor: ResidentSubsetSketchAccessor = ResidentSubsetSketchAccessor {
            global_ids,
            lookup_ids: Vec::new(),
            lookup_rows: Vec::new(),
            data,
            width,
            rows,
            sorted_unique_ids,
        };
        if !sorted_unique_ids {
            accessor.fill_lookup();
        }
        Ok(accessor)
    }
}

impl ResidentSubsetSketchAccessor {
    /// Lists every id once, in ascending order, with the first row under it.
    fn fill_lookup(&mut self)
        requires
            !old(self).sorted_unique_ids,
            !strictly_increasing(old(self).global_ids@),
            old(self).lookup_ids@.len() == 0,
            old(self).lookup_rows@.len() == 0,
        ensures
            final(self).tables_agree(),
            final(self).global_ids@ == old(self).global_ids@,
            final(self).data@ == old(self).data@,
            final(self).width == old(self).width,
            final(self).rows == old(self).rows,
    {
        let mut keys: Vec<u64> = Vec::new();
        for i in 0..self.global_ids.len()
            invariant
                keys@.len() == i,
                forall|k: int| 0 <= k < i ==> #[trigger] keys@[k] == self.global_ids@[k],
        {
            keys.push(self.global_ids[i] as u64);
        }
        let order: Vec<usize> = stable_order(&keys);
        let mut lookup_ids: Vec<u32> = Vec::new();
        let mut lookup_rows: Vec<usize> = Vec::new();
        let count: usize = self.global_ids.len();
        for i in 0..count
            invariant
                count == self.global_ids@.len(),
                keys@.len() == count,
                forall|k: int| 0 <= k < count ==> #[trigger] keys@[k] == self.global_ids@[k],
                sorts(keys@, order@),
                strictly_increasing(lookup_ids@),
                lookup_rows@.len() == lookup_ids@.len(),
                lookup_ids@.len() <= i,
                forall|k: int|
                    0 <= k < lookup_rows@.len() ==> (#[trigger] lookup_rows@[k]) < count
                        && self.global_ids@[lookup_rows@[k] as int] == lookup_ids@[k],
                forall|k: int|
                    0 <= k < i ==> lookup_ids@.contains(
                        self.global_ids@[#[trigger] order@[k] as int],
                    ),
                i > 0 ==> lookup_ids@.len() > 0 && lookup_ids@.last()
                    == self.global_ids@[order@[i - 1] as int],
        {
            let row: usize = order[i];
            let id: u32 = self.global_ids[row];
            let ghost before = lookup_ids@;
            proof {
                if i > 0 {
                    assert(precedes(keys@, order@[i - 1] as int, order@[i as int] as int));
                }
            }
            let fresh: bool = if lookup_ids.len() == 0 {
                true
            } else {
                lookup_ids[lookup_ids.len() - 1] != id
            };
            if fresh {
                lookup_ids.push(id);
                lookup_rows.push(row);
                proof {
                    assert(lookup_ids@.last() == id);
                    assert forall|v: u32| before.contains(v) implies lookup_ids@.contains(v) by {
                        let k = choose|k: int| 0 <= k < before.len() && before[k] == v;
                        assert(lookup_ids@[k] == v);
                    }
                }
            }
            proof {
                assert(lookup_ids@[lookup_ids@.len() - 1] == id);
            }
        }
        self.lookup_ids = lookup_ids;
        self.lookup_rows = lookup_rows;
        proof {
            assert forall|i: int| 0 <= i < self.global_ids@.len() implies self.lookup_ids@.contains(
                #[trigger] self.global_ids@[i],
            ) by {
                assert(listed(order@, i));
                let k = choose|k: int| 0 <= k < order@.len() && order@[k] == i;
                assert(self.lookup_ids@.contains(self.global_ids@[order@[k] as int]));
            }
        }
    }

    /// The row under `id`.
    fn local_row_for_global_id(&self, id: u32) -> (result: AnnResult<usize>)
        requires
            self.wf(),
        ensures
            match result {
                Ok(row) => row < self.ids().len() && self.ids()[row as int] == id,
                Err(error) => !self.ids().contains(id) && error.is_index(
                    row_missing(id, self.ids().len() as int),
                ),
            },
    {
        if self.sorted_unique_ids {
            return match position_in(&self.global_ids, id) {
                Some(row) => Ok(row),
                None => Err(missing_error(id, self.global_ids.len())),
            };
        }
        match position_in(&self.lookup_ids, id) {
            Some(at) => Ok(self.lookup_rows[at]),
            None => {
                proof {
                    if self.ids().contains(id) {
                        let i = choose|i: int| 0 <= i < self.ids().len() && self.ids()[i] == id;
                        assert(self.lookup_ids@.contains(self.global_ids@[i]));
                    }
                }
                Err(missing_error(id, self.global_ids.len()))
            },
        }
    }
}

impl SketchAccessor for ResidentSubsetSketchAccessor {
    open spec fn valid(&self) -> bool {
        self.wf()
    }

    open spec fn row_width(&self) -> int {
        self.row_len()
    }

    open spec fn row_count(&self) -> int {
        self.total_rows()
    }

    open spec fn accepts(&self, id: int) -> bool {
        true
    }

    open spec fn accepts_in_batch(&self, id: int) -> bool {
        true
    }

    open spec fn has_row(&self, id: int) -> bool {
        self.ids().contains(id as u32)
    }

    /// An id that stands several times holds each of its rows.
    open spec fn holds(&self, id: int, row: Seq<F32>) -> bool {
        exists|i: int| #[trigger]
            stands_at(self.ids(), id as u32, i) && row == row_of(self.values(), self.row_len(), i)
    }

    open spec fn tolerates(&self, ids: int, out: int) -> bool {
        true
    }

    open spec fn occupies(&self, bytes: usize) -> bool {
        exists|ids: usize, lookup_ids: usize, lookup_rows: usize, data: usize|
            ids >= self.ids().len() && lookup_ids >= self.lookup_len() && lookup_rows
                >= self.lookup_len() && data >= self.values().len() && bytes == #[trigger]
                subset_bytes(ids as int, lookup_ids as int, lookup_rows as int, data as int)
    }

    fn resident_bytes(&self) -> (bytes: usize) {
        let ids: usize = capacity_of(&self.global_ids);
        let lookup_ids: usize = capacity_of(&self.lookup_ids);
        let lookup_rows: usize = capacity_of(&self.lookup_rows);
        let data: usize = capacity_of(&self.data);
        subset_bytes_with_capacities(ids, lookup_ids, lookup_rows, data)
    }

    fn width(&self) -> (width: usize) {
        self.width
    }

    fn rows(&self) -> (rows: usize) {
        self.rows
    }

    fn row_copy_into(&self, idx: usize, dst: &mut [F32]) -> (result: AnnResult<()>)
        ensures
            result matches Err(error) ==> error.is_index(
                if old(dst)@.len() != self.row_len() {
                    "Sketch row copy width mismatch: dst="@ + decimal(old(dst)@.len() as nat)
                        + " expected="@ + decimal(self.row_len() as nat) + ""@
                } else {
                    row_missing(idx as u32, self.ids().len() as int)
                },
            ),
    {
        if dst.len() != self.width {
            return Err(
                index_error(
                    with_numbers(
                        "Sketch row copy width mismatch: dst=",
                        dst.len() as u64,
                        " expected=",
                        self.width as u64,
                        "",
                    ),
                ),
            );
        }
        let id: u32 = #[verifier::truncate]
        (idx as u32);
        match self.local_row_for_global_id(id) {
            Ok(row) => {
                proof {
                    lemma_row_bounds(row as int, self.ids().len() as int, self.row_len());
                    self.lemma_held(id, row as int);
                }
                assert(self.data.len() == self.data@.len());
                copy_values(self.data.as_slice(), row * self.width, dst, 0, self.width);
                proof {
                    assert(dst@ =~= row_of(self.values(), self.row_len(), row as int));
                }
                Ok(())
            },
            Err(error) => Err(error),
        }
    }

    fn read_rows_into(&self, ids: &[u32], out: &mut [F32]) -> (result: AnnResult<()>)
        ensures
            result is Ok ==> old(out)@.len() == ids@.len() * self.row_len(),
            ids@ == self.ids() && old(out)@.len() == ids@.len() * self.row_len() ==> final(out)@
                == self.values(),
            old(out)@.len() != ids@.len() * self.row_len() ==> final(out)@ == old(out)@ && (
            result matches Err(error) && error.is_index(
                size_mismatch(old(out)@.len() as int, capped(ids@.len() * self.row_len())),
            )),
            old(out)@.len() == ids@.len() * self.row_len() ==> (result matches Err(error)
                ==> exists|k: int|
                0 <= k < ids@.len() && !self.ids().contains(#[trigger] ids@[k]) && rows_read(
                    |id: int, row: Seq<F32>| self.holds(id, row),
                    self.row_len(),
                    ids@,
                    final(out)@,
                    k,
                ) && error.is_index(row_missing(ids@[k], self.ids().len() as int))),
    {
        let expected: usize = sat_mul(ids.len(), self.width);
        if !product_is(ids.len(), self.width, out.len()) {
            return Err(size_error(out.len(), expected));
        }
        if ids.len() == 0 {
            return Ok(());
        }
        if self.same_ids(ids) {
            copy_values(self.data.as_slice(), 0, out, 0, self.data.len());
            proof {
                assert(out@ =~= self.data@);
                assert forall|i: int| 0 <= i < ids@.len() implies (
                |id: int, row: Seq<F32>| self.holds(id, row))(
                    #[trigger] ids@[i] as int,
                    row_of(out@, self.row_len(), i),
                ) by {
                    self.lemma_held(ids@[i], i);
                }
            }
            return Ok(());
        }
        let sorted: bool = self.sorted_unique_ids && is_nondecreasing_u32(ids);
        let ghost held = |id: int, row: Seq<F32>| self.holds(id, row);
        let mut next: usize = 0;
        for i in 0..ids.len()
            invariant
                self.valid(),
                held == (|id: int, row: Seq<F32>| self.holds(id, row)),
                old(out)@.len() == ids@.len() * self.row_len(),
                out@.len() == old(out)@.len(),
                rows_read(held, self.row_len(), ids@, out@, i as int),
                forall|k: int| 0 <= k < i ==> self.ids().contains(#[trigger] ids@[k]),
                sorted ==> strictly_increasing(self.ids()) && nondecreasing(ids@),
                next <= self.ids().len(),
                sorted && i > 0 ==> forall|k: int|
                    0 <= k < next ==> #[trigger] self.ids()[k] < ids@[i as int - 1],
                i == 0 ==> next == 0,
        {
            let id: u32 = ids[i];
            let row: usize = if sorted {
                while next < self.global_ids.len() && self.global_ids[next] < id
                    invariant
                        next <= self.ids().len(),
                        self.ids() == self.global_ids@,
                        forall|k: int| 0 <= k < next ==> #[trigger] self.ids()[k] < id,
                    decreases self.ids().len() - next,
                {
                    next = next + 1;
                }
                if next == self.global_ids.len() || self.global_ids[next] != id {
                    proof {
                        assert(!self.ids().contains(id)) by {
                            if self.ids().contains(id) {
                                let k = choose|k: int|
                                    0 <= k < self.ids().len() && self.ids()[k] == id;
                                assert(next <= k);
                                if next < k {
                                    assert(self.ids()[next as int] < self.ids()[k]);
                                }
                            }
                        }
                        assert(!self.ids().contains(ids@[i as int]));
                    }
                    return Err(missing_error(id, self.global_ids.len()));
                }
                next
            } else {
                match self.local_row_for_global_id(id) {
                    Ok(row) => row,
                    Err(error) => {
                        proof {
                            assert(!self.ids().contains(ids@[i as int]));
                        }
                        return Err(error);
                    },
                }
            };
            proof {
                lemma_row_bounds(row as int, self.ids().len() as int, self.row_len());
                self.lemma_held(id, row as int);
            }
            assert(self.data.len() == self.data@.len());
            put_row(
                ids,
                i,
                self.data.as_slice(),
                row * self.width,
                out,
                self.width,
                Ghost(held),
            );
        }
        Ok(())
    }
}

impl ResidentSubsetSketchAccessor {
    /// Every row under an id is held under it.
    proof fn lemma_held(&self, id: u32, row: int)
        requires
            self.valid(),
            0 <= row < self.ids().len(),
            self.ids()[row] == id,
        ensures
            self.holds(id as int, row_of(self.values(), self.row_len(), row)),
            self.ids().contains(id),
    {
        assert(self.ids().contains(id));
        assert(stands_at(self.ids(), (id as int) as u32, row));
    }

    fn same_ids(&self, ids: &[u32]) -> (result: bool)
        ensures
            result == (ids@ == self.ids()),
    {
        if ids.len() != self.global_ids.len() {
            return false;
        }
        for i in 0..ids.len()
            invariant
                ids@.len() == self.global_ids@.len(),
                ids@.take(i as int) == self.global_ids@.take(i as int),
        {
            if ids[i] != self.global_ids[i] {
                proof {
                    assert(ids@[i as int] != self.global_ids@[i as int]);
                }
                return false;
            }
            proof {
                assert(ids@.take(i as int + 1) =~= ids@.take(i as int).push(ids@[i as int]));
                assert(self.global_ids@.take(i as int + 1) =~= self.global_ids@.take(
                    i as int,
                ).push(self.global_ids@[i as int]));
            }
        }
        proof {
            assert(ids@.take(ids@.len() as int) =~= ids@);
            assert(self.global_ids@.take(ids@.len() as int) =~= self.global_ids@);
        }
        true
    }

    /// The counters of a read of `rows` rows from memory.
    pub open spec fn read_counters(rows: int, width: int) -> WindowedGatherStats {
        if rows == 0 {
            WindowedGatherStats::zero()
        } else {
            WindowedGatherStats {
                rows_requested: rows as u64,
                logical_bytes: capped(rows * capped(width * 4)) as u64,
                scatter_ops: rows as u64,
                windows_submitted: 1,
                rows_per_window_sum: rows as u64,
                ..WindowedGatherStats::zero()
            }
        }
    }

    fn record_read(&self, rows: usize, stats: &mut WindowedGatherStats)
        requires
            old(stats).mergeable(
                ResidentSubsetSketchAccessor::read_counters(rows as int, self.row_len()),
            ),
        ensures
            *final(stats) == old(stats).merged(
                ResidentSubsetSketchAccessor::read_counters(rows as int, self.row_len()),
            ),
    {
        if rows > 0 {
            let row_bytes: usize = sat_mul(self.width, 4);
            let mut counters: WindowedGatherStats = WindowedGatherStats::default();
            counters.rows_requested = rows as u64;
            counters.logical_bytes = sat_mul(rows, row_bytes) as u64;
            counters.scatter_ops = rows as u64;
            counters.windows_submitted = 1;
            counters.rows_per_window_sum = rows as u64;
            stats.merge(&counters);
        }
    }

    /// `read_rows_into`, counted as one window that nothing had to be read for.
    pub fn read_rows_windowed_into_stats(
        &self,
        ids: &[u32],
        out: &mut [F32],
        _options: &WindowedGatherOptions,
        stats: &mut WindowedGatherStats,
    ) -> (result: AnnResult<()>)
        requires
            self.valid(),
            old(stats).mergeable(
                ResidentSubsetSketchAccessor::read_counters(ids@.len() as int, self.row_len()),
            ),
        ensures
            *final(stats) == old(stats).merged(
                ResidentSubsetSketchAccessor::read_counters(ids@.len() as int, self.row_len()),
            ),
            final(out)@.len() == old(out)@.len(),
            result is Ok <==> old(out)@.len() == ids@.len() * self.row_len() && forall|i: int|
                0 <= i < ids@.len() ==> self.ids().contains(#[trigger] ids@[i]),
            result is Ok ==> rows_read(
                |id: int, row: Seq<F32>| self.holds(id, row),
                self.row_len(),
                ids@,
                final(out)@,
                ids@.len() as int,
            ),
    {
        self.record_read(ids.len(), stats);
        let result: AnnResult<()> = self.read_rows_into(ids, out);
        proof {
            if result is Ok {
                assert forall|i: int| 0 <= i < ids@.len() implies self.ids().contains(
                    #[trigger] ids@[i],
                ) by {
                    assert(self.has_row(ids@[i] as int));
                }
            }
        }
        result
    }

    /// As `read_rows_windowed_into_stats`: the bounds do not matter in memory.
    pub fn read_rows_bounded_into_stats(
        &self,
        ids: &[u32],
        out: &mut [F32],
        _max_window_bytes: usize,
        _max_read_amplification: F64,
        stats: &mut WindowedGatherStats,
    ) -> (result: AnnResult<()>)
        requires
            self.valid(),
            old(stats).mergeable(
                ResidentSubsetSketchAccessor::read_counters(ids@.len() as int, self.row_len()),
            ),
        ensures
            *final(stats) == old(stats).merged(
                ResidentSubsetSketchAccessor::read_counters(ids@.len() as int, self.row_len()),
            ),
            final(out)@.len() == old(out)@.len(),
            result is Ok <==> old(out)@.len() == ids@.len() * self.row_len() && forall|i: int|
                0 <= i < ids@.len() ==> self.ids().contains(#[trigger] ids@[i]),
            result is Ok ==> rows_read(
                |id: int, row: Seq<F32>| self.holds(id, row),
                self.row_len(),
                ids@,
                final(out)@,
                ids@.len() as int,
            ),
    {
        self.record_read(ids.len(), stats);
        let result: AnnResult<()> = self.read_rows_into(ids, out);
        proof {
            if result is Ok {
                assert forall|i: int| 0 <= i < ids@.len() implies self.ids().contains(
                    #[trigger] ids@[i],
                ) by {
                    assert(self.has_row(ids@[i] as int));
                }
            }
        }
        result
    }
}

} // verus!
