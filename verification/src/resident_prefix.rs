//! Sketches whose first rows are in memory and whose others are on disk.

use vstd::prelude::*;

use crate::ann_result::{index_error, AnnError, AnnResult};
use crate::arith::{capped, greatest, product_is, sat_mul};
use crate::disk_sketch::DiskSketchStore;
use crate::float_bits::{F32, F64};
use crate::gather::{WindowedGatherOptions, WindowedGatherStats};
use crate::io_runtime::{spread_below, BoundedReadPlan};
use crate::rows::{copy_values, lemma_row_bounds, lemma_with_row, row_of, with_row, zeros};
use crate::sketch::{put_row, rows_read, SketchAccessor, SketchStore};
use crate::sketch_read::{
    bounded_plan, lemma_countable, plan_counters, read_possible, read_room, windowed_plan,
};
use crate::text::{decimal, with_numbers};

verus! {

/// Whether a prefix of `prefix_rows` rows can be taken of `rows` rows.
pub fn check_resident_prefix(prefix_rows: usize, rows: usize) -> (result: AnnResult<()>)
    ensures
        match result {
            Ok(_) => prefix_rows <= rows,
            Err(error) => prefix_rows > rows && error.is_index(
                "Resident sketch prefix rows out of bounds: prefix_rows="@ + decimal(
                    prefix_rows as nat,
                ) + " rows="@ + decimal(rows as nat) + ""@,
            ),
        },
{
    if prefix_rows > rows {
        return Err(
            index_error(
                with_numbers(
                    "Resident sketch prefix rows out of bounds: prefix_rows=",
                    prefix_rows as u64,
                    " rows=",
                    rows as u64,
                    "",
                ),
            ),
        );
    }
    Ok(())
}

/// The ids that a resident prefix of rows serves and those that it does not, each with
/// its position among all ids.
#[derive(Debug)]
pub struct PrefixSplit {
    pub prefix_ids: Vec<u32>,
    pub prefix_positions: Vec<usize>,
    pub tail_ids: Vec<u32>,
    pub tail_positions: Vec<usize>,
}

/// The positions up to `n` whose id lies in front of `prefix_rows`, or the others.
pub open spec fn positions_of(ids: Seq<u32>, prefix_rows: int, inside: bool, n: int) -> Seq<usize>
    decreases n,
{
    if n <= 0 {
        Seq::<usize>::empty()
    } else if (ids[n - 1] < prefix_rows) == inside {
        positions_of(ids, prefix_rows, inside, n - 1).push((n - 1) as usize)
    } else {
        positions_of(ids, prefix_rows, inside, n - 1)
    }
}

pub open spec fn ids_at(ids: Seq<u32>, positions: Seq<usize>) -> Seq<u32> {
    positions.map_values(|p: usize| ids[p as int])
}

/// Takes the ids apart into those that the prefix serves and the others.
pub fn split_prefix_ids(ids: &[u32], prefix_rows: usize) -> (split: PrefixSplit)
    ensures
        split.prefix_positions@ == positions_of(
            ids@,
            prefix_rows as int,
            true,
            ids@.len() as int,
        ),
        split.tail_positions@ == positions_of(ids@, prefix_rows as int, false, ids@.len() as int),
        split.prefix_ids@ == ids_at(ids@, split.prefix_positions@),
        split.tail_ids@ == ids_at(ids@, split.tail_positions@),
{
    let mut split: PrefixSplit = PrefixSplit {
        prefix_ids: Vec::new(),
        prefix_positions: Vec::new(),
        tail_ids: Vec::new(),
        tail_positions: Vec::new(),
    };
    for pos in 0..ids.len()
        invariant
            split.prefix_positions@ == positions_of(ids@, prefix_rows as int, true, pos as int),
            split.tail_positions@ == positions_of(ids@, prefix_rows as int, false, pos as int),
            split.prefix_ids@ == ids_at(ids@, split.prefix_positions@),
            split.tail_ids@ == ids_at(ids@, split.tail_positions@),
    {
        let id: u32 = ids[pos];
        if (id as u64) < prefix_rows as u64 {
            split.prefix_ids.push(id);
            split.prefix_positions.push(pos);
            proof {
                assert(split.prefix_ids@ =~= ids_at(ids@, split.prefix_positions@));
            }
        } else {
            split.tail_ids.push(id);
            split.tail_positions.push(pos);
            proof {
                assert(split.tail_ids@ =~= ids_at(ids@, split.tail_positions@));
            }
        }
    }
    split
}

/// `out` after the rows of a subset went to their positions.
pub open spec fn subset_scattered(
    out: Seq<F32>,
    positions: Seq<usize>,
    subset: Seq<F32>,
    width: int,
    n: int,
) -> Seq<F32>
    decreases n,
{
    if n <= 0 {
        out
    } else {
        with_row(
            subset_scattered(out, positions, subset, width, n - 1),
            width,
            positions[n - 1] as int,
            row_of(subset, width, n - 1),
        )
    }
}

/// Copies the rows of a subset to their positions.
pub fn scatter_subset_rows(positions: &[usize], subset: &[F32], row_width: usize, out: &mut [F32])
    requires
        subset@.len() == positions@.len() * row_width,
        forall|i: int|
            0 <= i < positions@.len() ==> (#[trigger] positions@[i]) * row_width + row_width
                <= old(out)@.len(),
    ensures
        final(out)@ == subset_scattered(
            old(out)@,
            positions@,
            subset@,
            row_width as int,
            positions@.len() as int,
        ),
        final(out)@.len() == old(out)@.len(),
{
    let subset_len: usize = subset.len();
    let out_len: usize = out.len();
    for i in 0..positions.len()
        invariant
            subset_len == subset@.len(),
            out_len == out@.len(),
            out@.len() == old(out)@.len(),
            subset@.len() == positions@.len() * row_width,
            forall|k: int|
                0 <= k < positions@.len() ==> (#[trigger] positions@[k]) * row_width + row_width
                    <= old(out)@.len(),
            out@ == subset_scattered(
                old(out)@,
                positions@,
                subset@,
                row_width as int,
                i as int,
            ),
    {
        proof {
            lemma_row_bounds(i as int, positions@.len() as int, row_width as int);
            assert(positions@[i as int] * row_width + row_width <= out_len);
            assert(0 <= positions@[i as int] * row_width) by (nonlinear_arith);
        }
        copy_values(subset, i * row_width, out, positions[i] * row_width, row_width);
    }
}

/// The positions are increasing, and they are those whose id is on that side.
proof fn lemma_positions(ids: Seq<u32>, prefix_rows: int, inside: bool, n: int)
    requires
        0 <= n <= ids.len() <= usize::MAX,
    ensures
        ({
            let found = positions_of(ids, prefix_rows, inside, n);
            &&& found.len() <= n
            &&& forall|k: int|
                0 <= k < found.len() ==> (#[trigger] found[k]) < n && (ids[found[k] as int]
                    < prefix_rows) == inside
            &&& forall|j: int, k: int|
                0 <= j < k < found.len() ==> #[trigger] found[j] < #[trigger] found[k]
        }),
    decreases n,
{
    if n > 0 {
        lemma_positions(ids, prefix_rows, inside, n - 1);
    }
}

/// Every position is on one of the two sides.
proof fn lemma_positions_split(ids: Seq<u32>, prefix_rows: int, n: int)
    requires
        0 <= n <= ids.len(),
    ensures
        positions_of(ids, prefix_rows, true, n).len() + positions_of(
            ids,
            prefix_rows,
            false,
            n,
        ).len() == n,
    decreases n,
{
    if n > 0 {
        lemma_positions_split(ids, prefix_rows, n - 1);
    }
}

/// A position's rank among those of its side is how many of them stand before it.
proof fn lemma_position_rank(ids: Seq<u32>, prefix_rows: int, inside: bool, n: int, i: int)
    requires
        0 <= i < n <= ids.len() <= usize::MAX,
        (ids[i] < prefix_rows) == inside,
    ensures
        positions_of(ids, prefix_rows, inside, i).len() < positions_of(
            ids,
            prefix_rows,
            inside,
            n,
        ).len(),
        positions_of(ids, prefix_rows, inside, n)[positions_of(
            ids,
            prefix_rows,
            inside,
            i,
        ).len() as int] == i,
    decreases n,
{
    if i < n - 1 {
        lemma_position_rank(ids, prefix_rows, inside, n - 1, i);
    }
}

/// Scattered rows stand at their positions, and all others stay.
proof fn lemma_scattered(
    out: Seq<F32>,
    positions: Seq<usize>,
    subset: Seq<F32>,
    width: int,
    n: int,
    rows: int,
    j: int,
)
    requires
        0 <= n <= positions.len(),
        0 <= width,
        out.len() == rows * width,
        subset.len() == positions.len() * width,
        0 <= j < rows,
        forall|k: int| 0 <= k < positions.len() ==> (#[trigger] positions[k]) < rows,
        forall|a: int, b: int|
            0 <= a < b < positions.len() ==> #[trigger] positions[a] < #[trigger] positions[b],
    ensures
        subset_scattered(out, positions, subset, width, n).len() == out.len(),
        forall|k: int|
            0 <= k < n && #[trigger] positions[k] == j ==> row_of(
                subset_scattered(out, positions, subset, width, n),
                width,
                j,
            ) == row_of(subset, width, k),
        (forall|k: int| 0 <= k < n ==> #[trigger] positions[k] != j) ==> row_of(
            subset_scattered(out, positions, subset, width, n),
            width,
            j,
        ) == row_of(out, width, j),
    decreases n,
{
    if n > 0 {
        lemma_scattered(out, positions, subset, width, n - 1, rows, j);
        lemma_row_bounds(n - 1, positions.len() as int, width);
        lemma_with_row(
            subset_scattered(out, positions, subset, width, n - 1),
            width,
            rows,
            positions[n - 1] as int,
            row_of(subset, width, n - 1),
            j,
        );
    }
}

/// The rows under `ids`: those of the prefix from memory, the others in the order in
/// which they were read.
pub open spec fn rows_joined(
    prefix: Seq<F32>,
    tail: Seq<F32>,
    width: int,
    prefix_rows: int,
    ids: Seq<u32>,
    out: Seq<F32>,
) -> bool {
    forall|i: int|
        #![trigger ids[i]]
        0 <= i < ids.len() ==> row_of(out, width, i) == if ids[i] < prefix_rows {
            row_of(prefix, width, ids[i] as int)
        } else {
            row_of(tail, width, positions_of(ids, prefix_rows, false, i).len() as int)
        }
}

/// The counters of rows that were in memory.
pub open spec fn resident_counters(rows: int, width: int) -> WindowedGatherStats {
    WindowedGatherStats {
        rows_requested: rows as u64,
        logical_bytes: (rows * (width * 4)) as u64,
        scatter_ops: rows as u64,
        ..WindowedGatherStats::zero()
    }
}

/// Joins the rows under `ids`: those of the prefix are copied from memory, and `tail`
/// holds the rows of the other ids, as they were read with `tail_stats`.
pub fn join_prefix_rows(
    prefix: &SketchStore,
    ids: &[u32],
    tail: &[F32],
    tail_stats: &WindowedGatherStats,
    out: &mut [F32],
    stats: &mut WindowedGatherStats,
) -> (result: AnnResult<()>)
    requires
        prefix.row_len() * 4 <= usize::MAX,
        tail@.len() == positions_of(
            ids@,
            prefix.row_total(),
            false,
            ids@.len() as int,
        ).len() * prefix.row_len(),
        ids@.len() * (prefix.row_len() * 4) <= u64::MAX,
        ({
            let resident = resident_counters(
                positions_of(ids@, prefix.row_total(), true, ids@.len() as int).len() as int,
                prefix.row_len(),
            );
            &&& old(stats).mergeable(resident)
            &&& old(stats).merged(resident).mergeable(*tail_stats)
        }),
    ensures
        final(out)@.len() == old(out)@.len(),
        match result {
            Ok(_) => {
                &&& old(out)@.len() == ids@.len() * prefix.row_len()
                &&& rows_joined(
                    prefix.values(),
                    tail@,
                    prefix.row_len(),
                    prefix.row_total(),
                    ids@,
                    final(out)@,
                )
                &&& *final(stats) == old(stats).merged(
                    resident_counters(
                        positions_of(
                            ids@,
                            prefix.row_total(),
                            true,
                            ids@.len() as int,
                        ).len() as int,
                        prefix.row_len(),
                    ),
                ).merged(*tail_stats)
            },
            Err(error) => {
                &&& old(out)@.len() != ids@.len() * prefix.row_len()
                &&& *final(stats) == *old(stats)
                &&& final(out)@ == old(out)@
                &&& error.is_index(
                    prefix_mismatch(
                        old(out)@.len() as int,
                        capped(ids@.len() * prefix.row_len()),
                    ),
                )
            },
        },
{
    let width: usize = prefix.width();
    let prefix_rows: usize = prefix.rows();
    if !product_is(ids.len(), width, out.len()) {
        return Err(prefix_size_error(out.len(), sat_mul(ids.len(), width)));
    }
    let total: usize = ids.len();
    let out_len: usize = out.len();
    let split: PrefixSplit = split_prefix_ids(ids, prefix_rows);
    let found: usize = split.prefix_ids.len();
    proof {
        lemma_positions(ids@, prefix_rows as int, true, total as int);
        lemma_positions(ids@, prefix_rows as int, false, total as int);
        assert(found * width <= total * width) by (nonlinear_arith)
            requires
                found <= total,
        ;
        assert(found * (width * 4) <= total * (width * 4)) by (nonlinear_arith)
            requires
                found <= total,
        ;
        assert forall|k: int| 0 <= k < total implies #[trigger] (k * width) + width <= out_len by {
            lemma_row_bounds(k, total as int, width as int);
        }
    }
    let mut prefix_out: Vec<F32> = zeros(found * width);
    proof {
        assert forall|k: int| 0 <= k < found implies prefix.accepts_in_batch(
            #[trigger] split.prefix_ids@[k] as int,
        ) by {
            let at = split.prefix_positions@[k];
            assert(split.prefix_ids@[k] == ids@[at as int]);
        }
    }
    let copied: AnnResult<()> = prefix.read_rows_into(
        split.prefix_ids.as_slice(),
        prefix_out.as_mut_slice(),
    );
    let ghost before = out@;
    proof {
        assert forall|i: int| 0 <= i < split.prefix_positions@.len() implies (
        #[trigger] split.prefix_positions@[i]) * width + width <= out_len by {
            lemma_row_bounds(split.prefix_positions@[i] as int, total as int, width as int);
        }
        assert forall|i: int| 0 <= i < split.tail_positions@.len() implies (
        #[trigger] split.tail_positions@[i]) * width + width <= out_len by {
            lemma_row_bounds(split.tail_positions@[i] as int, total as int, width as int);
        }
    }
    scatter_subset_rows(split.prefix_positions.as_slice(), prefix_out.as_slice(), width, out);
    let ghost between = out@;
    scatter_subset_rows(split.tail_positions.as_slice(), tail, width, out);
    let resident: WindowedGatherStats = WindowedGatherStats {
        rows_requested: found as u64,
        windows_submitted: 0,
        rows_per_window_sum: 0,
        singleton_windows: 0,
        range_windows: 0,
        range_rows_read: 0,
        logical_bytes: found as u64 * (width as u64 * 4),
        physical_bytes: 0,
        alignment_waste_bytes: 0,
        overread_rows: 0,
        scatter_ops: found as u64,
    };
    stats.merge(&resident);
    stats.merge(tail_stats);
    proof {
        let n = total as int;
        let w = width as int;
        let p = prefix_rows as int;
        let heads = split.prefix_positions@;
        let tails = split.tail_positions@;
        assert forall|i: int| #![trigger ids@[i]] 0 <= i < n implies row_of(out@, w, i)
            == if ids@[i]
            < p {
            row_of(prefix.values(), w, ids@[i] as int)
        } else {
            row_of(tail@, w, positions_of(ids@, p, false, i).len() as int)
        } by {
            lemma_scattered(before, heads, prefix_out@, w, heads.len() as int, n, i);
            lemma_scattered(between, tails, tail@, w, tails.len() as int, n, i);
            if ids@[i] < p {
                lemma_position_rank(ids@, p, true, n, i);
                let k = positions_of(ids@, p, true, i).len() as int;
                assert(heads[k] == i);
                assert(split.prefix_ids@[k] == ids@[i]);
                assert(prefix.holds(split.prefix_ids@[k] as int, row_of(prefix_out@, w, k)));
            } else {
                lemma_position_rank(ids@, p, false, n, i);
                let k = positions_of(ids@, p, false, i).len() as int;
                assert(tails[k] == i);
            }
        }
    }
    Ok(())
}

/// Where the prefix and the rows that were read come from one matrix, the joined rows
/// are the matrix's rows under the ids.
pub proof fn law_prefix_read_gives_requested_rows(
    matrix: Seq<F32>,
    prefix: Seq<F32>,
    tail: Seq<F32>,
    width: int,
    prefix_rows: int,
    ids: Seq<u32>,
    out: Seq<F32>,
    i: int,
)
    requires
        0 <= width,
        0 <= i < ids.len() <= usize::MAX,
        forall|r: int|
            0 <= r < prefix_rows ==> #[trigger] row_of(prefix, width, r) == row_of(
                matrix,
                width,
                r,
            ),
        forall|k: int|
            #![trigger row_of(tail, width, k)]
            0 <= k < positions_of(ids, prefix_rows, false, ids.len() as int).len() ==> row_of(
                tail,
                width,
                k,
            ) == row_of(
                matrix,
                width,
                ids_at(ids, positions_of(ids, prefix_rows, false, ids.len() as int))[k] as int,
            ),
        rows_joined(prefix, tail, width, prefix_rows, ids, out),
    ensures
        row_of(out, width, i) == row_of(matrix, width, ids[i] as int),
{
    assert(ids[i] == ids[i]);
    if ids[i] < prefix_rows {
        assert(row_of(prefix, width, ids[i] as int) == row_of(matrix, width, ids[i] as int));
    } else {
        lemma_position_rank(ids, prefix_rows, false, ids.len() as int, i);
        let k = positions_of(ids, prefix_rows, false, i).len() as int;
        assert(row_of(tail, width, k) == row_of(
            matrix,
            width,
            ids_at(ids, positions_of(ids, prefix_rows, false, ids.len() as int))[k] as int,
        ));
    }
}

/// The sketches of a file, the first of them copied to memory.
pub struct ResidentPrefixSketchAccessor<'a> {
    prefix: SketchStore,
    backing: &'a DiskSketchStore<'a>,
}

impl<'a> ResidentPrefixSketchAccessor<'a> {
    /// The rows in memory.
    pub closed spec fn resident(&self) -> SketchStore {
        self.prefix
    }

    /// The file.
    pub closed spec fn file(&self) -> DiskSketchStore<'a> {
        *self.backing
    }

    /// The rows in memory are the first of the file.
    pub open spec fn wf(&self) -> bool {
        &&& self.file().wf()
        &&& self.resident().row_len() == self.file().row_len()
        &&& self.resident().row_total() <= self.file().row_total()
        &&& self.resident().row_total() <= u32::MAX
        &&& forall|r: int|
            0 <= r < self.resident().row_total() ==> #[trigger] row_of(
                self.resident().values(),
                self.file().row_len(),
                r,
            ) == row_of(self.file().values(), self.file().row_len(), r)
    }

    /// Copies the first rows of a file. Fails where the file has fewer.
    pub fn from_disk_prefix(
        backing: &'a DiskSketchStore<'a>,
        prefix_rows: usize,
    ) -> (result: AnnResult<ResidentPrefixSketchAccessor<'a>>)
        requires
            backing.wf(),
            prefix_rows <= u32::MAX,
        ensures
            match result {
                Ok(accessor) => {
                    &&& prefix_rows <= backing.row_total()
                    &&& accessor.wf()
                    &&& accessor.file() == *backing
                    &&& accessor.resident().row_total() == (if backing.row_len() == 0 {
                        0
                    } else {
                        prefix_rows as int
                    })
                },
                Err(error) => prefix_rows > backing.row_total() && error.is_index(
                    "Resident sketch prefix rows out of bounds: prefix_rows="@ + decimal(
                        prefix_rows as nat,
                    ) + " rows="@ + decimal(backing.row_total() as nat) + ""@,
                ),
            },
    {
        match check_resident_prefix(prefix_rows, backing.rows()) {
            Err(error) => Err(error),
            Ok(_) => {
                let width: usize = backing.width();
                let total: usize = backing.file_bytes();
                proof {
                    backing.lemma_rows(0, prefix_rows as int);
                    assert(0 * backing.row_len() == 0) by (nonlinear_arith);
                }
                let mut data: Vec<F32> = zeros(prefix_rows * width);
                backing.read_sketch_range_into(0, prefix_rows, data.as_mut_slice());
                proof {
                    if width > 0 {
                        vstd::arithmetic::div_mod::lemma_div_multiples_vanish(
                            prefix_rows as int,
                            width as int,
                        );
                        assert(prefix_rows * width == width * prefix_rows) by (nonlinear_arith);
                    }
                    assert forall|r: int| 0 <= r < prefix_rows implies #[trigger] row_of(
                        data@,
                        width as int,
                        r,
                    ) == row_of(backing.values(), width as int, r) by {
                        lemma_row_bounds(r, prefix_rows as int, width as int);
                        assert(row_of(data@, width as int, r) =~= row_of(
                            backing.values(),
                            width as int,
                            r,
                        ));
                    }
                }
                let prefix: SketchStore = SketchStore::from_row_major(data, width);
                Ok(ResidentPrefixSketchAccessor { prefix, backing })
            },
        }
    }
}

impl<'a> SketchAccessor for ResidentPrefixSketchAccessor<'a> {
    open spec fn valid(&self) -> bool {
        self.wf()
    }

    open spec fn row_width(&self) -> int {
        self.file().row_len()
    }

    open spec fn row_count(&self) -> int {
        self.file().row_total()
    }

    open spec fn accepts(&self, id: int) -> bool {
        true
    }

    open spec fn accepts_in_batch(&self, id: int) -> bool {
        true
    }

    open spec fn has_row(&self, id: int) -> bool {
        self.file().has_row(id)
    }

    open spec fn holds(&self, id: int, row: Seq<F32>) -> bool {
        self.file().holds(id, row)
    }

    open spec fn tolerates(&self, ids: int, out: int) -> bool {
        true
    }

    /// The rows of the prefix are in memory, the others are not.
    open spec fn occupies(&self, bytes: usize) -> bool {
        exists|prefix: usize| #[trigger]
            self.resident().takes(prefix) && bytes == capped(
                core::mem::size_of::<ResidentPrefixSketchAccessor<'a>>() + prefix,
            )
    }

    fn resident_bytes(&self) -> (bytes: usize) {
        let prefix: usize = self.prefix.resident_bytes();
        core::mem::size_of::<ResidentPrefixSketchAccessor<'a>>().saturating_add(prefix)
    }

    fn width(&self) -> (width: usize) {
        self.backing.width()
    }

    fn rows(&self) -> (rows: usize) {
        self.backing.rows()
    }

    fn row_copy_into(&self, idx: usize, dst: &mut [F32]) -> (result: AnnResult<()>)
        ensures
            result matches Err(error) ==> error.is_index(
                self.file().row_error(idx as int, old(dst)@.len() as int),
            ),
    {
        if idx < self.prefix.rows() {
            proof {
                assert(row_of(self.prefix.values(), self.file().row_len(), idx as int) == row_of(
                    self.file().values(),
                    self.file().row_len(),
                    idx as int,
                ));
            }
            self.prefix.row_copy_into(idx, dst)
        } else {
            self.backing.row_copy_into(idx, dst)
        }
    }

    fn read_rows_into(&self, ids: &[u32], out: &mut [F32]) -> (result: AnnResult<()>)
        ensures
            result is Ok ==> old(out)@.len() == ids@.len() * self.file().row_len(),
            old(out)@.len() != ids@.len() * self.file().row_len() ==> final(out)@ == old(out)@ && (
            result matches Err(error) && error.is_index(
                prefix_mismatch(
                    old(out)@.len() as int,
                    capped(ids@.len() * self.file().row_len()),
                ),
            )),
            old(out)@.len() == ids@.len() * self.file().row_len() ==> (result matches Err(error)
                ==> exists|k: int|
                0 <= k < ids@.len() && #[trigger] ids@[k] >= self.file().row_total() && rows_read(
                    |id: int, row: Seq<F32>| self.holds(id, row),
                    self.file().row_len(),
                    ids@,
                    final(out)@,
                    k,
                ) && error.is_index(
                    self.file().row_error(ids@[k] as int, self.file().row_len()),
                )),
    {
        let width: usize = self.backing.width();
        if !product_is(ids.len(), width, out.len()) {
            return Err(prefix_size_error(out.len(), sat_mul(ids.len(), width)));
        }
        for i in 0..ids.len()
            invariant
                self.wf(),
                width == self.file().row_len(),
                old(out)@.len() == ids@.len() * width,
                out@.len() == old(out)@.len(),
                rows_read(
                    |id: int, row: Seq<F32>| self.holds(id, row),
                    self.file().row_len(),
                    ids@,
                    out@,
                    i as int,
                ),
        {
            let mut row: Vec<F32> = zeros(width);
            match self.row_copy_into(ids[i] as usize, row.as_mut_slice()) {
                Ok(_) => {
                    proof {
                        assert(row@.subrange(0, 0 + width) =~= row@);
                    }
                    put_row(
                        ids,
                        i,
                        row.as_slice(),
                        0,
                        out,
                        width,
                        Ghost(|id: int, row: Seq<F32>| self.holds(id, row)),
                    );
                },
                Err(error) => {
                    proof {
                        assert(ids@[i as int] >= self.file().row_total());
                    }
                    return Err(error);
                },
            }
        }
        Ok(())
    }
}

impl<'a> ResidentPrefixSketchAccessor<'a> {
    /// The ids of `ids` whose rows are not in memory.
    pub open spec fn tail(&self, ids: Seq<u32>) -> Seq<u32> {
        ids_at(ids, positions_of(ids, self.resident().row_total(), false, ids.len() as int))
    }

    /// The rows under `ids` may be read into counted windows.
    pub open spec fn readable(
        &self,
        ids: Seq<u32>,
        max_window_bytes: int,
        stats: WindowedGatherStats,
    ) -> bool {
        &&& self.wf()
        &&& read_possible(
            ids,
            self.file().row_total(),
            self.file().row_len(),
            max_window_bytes,
            stats,
        )
    }

    /// The counters grew by the rows that were in memory and by those that were read.
    pub open spec fn counted(
        &self,
        before: WindowedGatherStats,
        after: WindowedGatherStats,
        ids: Seq<u32>,
        tail: WindowedGatherStats,
    ) -> bool {
        after == before.merged(
            resident_counters(
                positions_of(
                    ids,
                    self.resident().row_total(),
                    true,
                    ids.len() as int,
                ).len() as int,
                self.file().row_len(),
            ),
        ).merged(tail)
    }

    /// The ids that are read lie in the file, and what is counted fits the counters.
    proof fn lemma_tail(&self, ids: Seq<u32>, max_window_bytes: int, stats: WindowedGatherStats)
        requires
            self.readable(ids, max_window_bytes, stats),
            ids.len() > 0,
            ids.len() <= usize::MAX,
        ensures
            self.file().readable(self.tail(ids), max_window_bytes, WindowedGatherStats::zero()),
            self.tail(ids).len() <= ids.len(),
            self.file().row_len() * 4 <= usize::MAX,
            ids.len() * (self.file().row_len() * 4) <= u64::MAX,
            self.file().row_total() * greatest(self.file().row_len() * 4, 1) <= usize::MAX,
    {
        let n = ids.len() as int;
        let p = self.resident().row_total();
        let tail = self.tail(ids);
        let bytes = greatest(self.file().row_len() * 4, 1);
        lemma_positions(ids, p, false, n);
        assert(ids[0] < self.file().row_total());
        self.file().lemma_rows(0, self.file().row_total());
        self.file().lemma_row_bytes();
        let rows = self.file().row_total();
        assert(n * (self.file().row_len() * 4) <= n * bytes && 0 <= tail.len() * bytes <= n * bytes
            && 0 <= rows * bytes) by (nonlinear_arith)
            requires
                0 <= tail.len() <= n,
                0 <= self.file().row_len() * 4 <= bytes,
                bytes >= 1,
                rows >= 0,
        ;
        assert forall|i: int| 0 <= i < tail.len() implies #[trigger] tail[i]
            < self.file().row_total() by {
            let at = positions_of(ids, p, false, n)[i];
            assert(tail[i] == ids[at as int]);
        }
        if spread_below(ids, u32::MAX as int) {
            assert forall|i: int, j: int| 0 <= i < tail.len() && 0 <= j < tail.len() implies (
            #[trigger] tail[j]) - (#[trigger] tail[i]) < u32::MAX by {
                let a = positions_of(ids, p, false, n)[i];
                let b = positions_of(ids, p, false, n)[j];
                assert(tail[i] == ids[a as int] && tail[j] == ids[b as int]);
            }
        }
    }

    /// What was in memory and what was read fit the counters together.
    proof fn lemma_joined_counters(
        &self,
        ids: Seq<u32>,
        max_window_bytes: int,
        stats: WindowedGatherStats,
        tail: WindowedGatherStats,
    )
        requires
            self.readable(ids, max_window_bytes, stats),
            0 < ids.len() <= usize::MAX,
            tail.at_most(
                read_room(
                    self.tail(ids).len() as int,
                    self.file().row_total(),
                    self.file().row_len(),
                ),
            ),
        ensures
            ({
                let resident = resident_counters(
                    positions_of(
                        ids,
                        self.resident().row_total(),
                        true,
                        ids.len() as int,
                    ).len() as int,
                    self.file().row_len(),
                );
                &&& stats.mergeable(resident)
                &&& stats.merged(resident).mergeable(tail)
            }),
    {
        let n = ids.len() as int;
        let p = self.resident().row_total();
        let w = self.file().row_len();
        let bytes = greatest(w * 4, 1);
        lemma_positions(ids, p, true, n);
        lemma_positions(ids, p, false, n);
        lemma_positions_split(ids, p, n);
        assert(ids[0] < self.file().row_total());
        self.file().lemma_rows(0, self.file().row_total());
        self.file().lemma_row_bytes();
        let heads = positions_of(ids, p, true, n).len() as int;
        let tails = positions_of(ids, p, false, n).len() as int;
        let rows = self.file().row_total();
        assert(heads * (w * 4) + tails * bytes <= n * bytes && 0 <= heads * (w * 4) && 0 <= tails
            * bytes && rows <= rows * bytes) by (nonlinear_arith)
            requires
                heads + tails == n,
                0 <= heads,
                0 <= tails,
                0 <= w * 4 <= bytes,
                1 <= bytes,
                0 <= rows,
        ;
    }

    /// The joined rows are those of the file.
    proof fn lemma_joined(&self, ids: Seq<u32>, tail: Seq<F32>, out: Seq<F32>)
        requires
            self.wf(),
            ids.len() <= usize::MAX,
            forall|i: int| 0 <= i < ids.len() ==> #[trigger] ids[i] < self.file().row_total(),
            self.tail(ids).len() > 0 ==> rows_read(
                |id: int, row: Seq<F32>| self.file().holds(id, row),
                self.file().row_len(),
                self.tail(ids),
                tail,
                self.tail(ids).len() as int,
            ),
            rows_joined(
                self.resident().values(),
                tail,
                self.file().row_len(),
                self.resident().row_total(),
                ids,
                out,
            ),
        ensures
            rows_read(
                |id: int, row: Seq<F32>| self.holds(id, row),
                self.file().row_len(),
                ids,
                out,
                ids.len() as int,
            ),
    {
        let w = self.file().row_len();
        let p = self.resident().row_total();
        let n = ids.len() as int;
        let held = |id: int, row: Seq<F32>| self.holds(id, row);
        lemma_positions(ids, p, false, n);
        assert forall|k: int| 0 <= k < self.tail(ids).len() implies #[trigger] row_of(tail, w, k)
            == row_of(self.file().values(), w, self.tail(ids)[k] as int) by {
            let id = self.tail(ids)[k];
            assert(id == ids[positions_of(ids, p, false, n)[k] as int]);
            assert((|id: int, row: Seq<F32>| self.file().holds(id, row))(
                id as int,
                row_of(tail, w, k),
            ));
        }
        assert forall|i: int| 0 <= i < n implies held(
            #[trigger] ids[i] as int,
            row_of(out, w, i),
        ) by {
            law_prefix_read_gives_requested_rows(
                self.file().values(),
                self.resident().values(),
                tail,
                w,
                p,
                ids,
                out,
                i,
            );
        }
    }

    /// The rows under `ids`: those in memory are copied, the others read in windows that
    /// bridge small gaps. Fails where `out` is not as large as the rows together.
    pub fn read_rows_windowed_into_stats(
        &self,
        ids: &[u32],
        out: &mut [F32],
        options: &WindowedGatherOptions,
        stats: &mut WindowedGatherStats,
    ) -> (result: AnnResult<()>)
        requires
            self.readable(ids@, options.max_window_bytes as int, *old(stats)),
        ensures
            final(out)@.len() == old(out)@.len(),
            ids@.len() == 0 || old(out)@.len() != ids@.len() * self.file().row_len()
                ==> final(out)@ == old(out)@ && *final(stats) == *old(stats),
            match result {
                Ok(_) => ids@.len() == 0 || {
                    &&& old(out)@.len() == ids@.len() * self.file().row_len()
                    &&& rows_read(
                        |id: int, row: Seq<F32>| self.holds(id, row),
                        self.file().row_len(),
                        ids@,
                        final(out)@,
                        ids@.len() as int,
                    )
                    &&& exists|tail: WindowedGatherStats| #[trigger]
                        self.counted(*old(stats), *final(stats), ids@, tail) && (if self.tail(
                            ids@,
                        ).len() == 0 {
                            tail == WindowedGatherStats::zero()
                        } else {
                            exists|plan: BoundedReadPlan| #[trigger]
                                windowed_plan(
                                    self.file().row_len(),
                                    self.tail(ids@),
                                    *options,
                                    plan,
                                )
                                    && tail == plan_counters(plan, self.file().row_len() * 4)
                        })
                },
                Err(error) => ids@.len() > 0 && old(out)@.len() != ids@.len()
                    * self.file().row_len() && error.is_index(
                    prefix_mismatch(
                        old(out)@.len() as int,
                        capped(ids@.len() * self.file().row_len()),
                    ),
                ),
            },
    {
        if ids.len() == 0 {
            return Ok(());
        }
        let width: usize = self.backing.width();
        if !product_is(ids.len(), width, out.len()) {
            return Err(prefix_size_error(out.len(), sat_mul(ids.len(), width)));
        }
        let split: PrefixSplit = split_prefix_ids(ids, self.prefix.rows());
        let count: usize = split.tail_ids.len();
        assert(out.len() == out@.len());
        proof {
            self.lemma_tail(ids@, options.max_window_bytes as int, *stats);
            assert(count * width <= ids@.len() * width) by (nonlinear_arith)
                requires
                    count <= ids@.len(),
            ;
        }
        let mut tail: Vec<F32> = zeros(count * width);
        let mut tail_stats: WindowedGatherStats = WindowedGatherStats::default();
        let read: AnnResult<()> = self.backing.read_rows_windowed_into_stats(
            split.tail_ids.as_slice(),
            tail.as_mut_slice(),
            options,
            &mut tail_stats,
        );
        proof {
            if count > 0 {
                let plan = choose|plan: BoundedReadPlan| #[trigger]
                    windowed_plan(self.file().row_len(), split.tail_ids@, *options, plan)
                        && tail_stats == WindowedGatherStats::zero().merged(
                        plan_counters(plan, self.file().row_len() * 4),
                    );
                lemma_countable(
                    self.file().row_len(),
                    split.tail_ids@,
                    plan,
                    self.file().row_total(),
                );
                assert(tail_stats == plan_counters(plan, self.file().row_len() * 4));
            }
            self.lemma_joined_counters(ids@, options.max_window_bytes as int, *stats, tail_stats);
        }
        let joined: AnnResult<()> = join_prefix_rows(
            &self.prefix,
            ids,
            tail.as_slice(),
            &tail_stats,
            out,
            stats,
        );
        proof {
            self.lemma_joined(ids@, tail@, out@);
            assert(self.counted(*old(stats), *stats, ids@, tail_stats));
        }
        joined
    }

    /// The rows under `ids`: those in memory are copied, the others read in windows that
    /// stay within the bounds. Fails where `out` is not as large as the rows together.
    pub fn read_rows_bounded_into_stats(
        &self,
        ids: &[u32],
        out: &mut [F32],
        max_window_bytes: usize,
        max_read_amplification: F64,
        stats: &mut WindowedGatherStats,
    ) -> (result: AnnResult<()>)
        requires
            self.readable(ids@, max_window_bytes as int, *old(stats)),
        ensures
            final(out)@.len() == old(out)@.len(),
            ids@.len() == 0 || old(out)@.len() != ids@.len() * self.file().row_len()
                ==> final(out)@ == old(out)@ && *final(stats) == *old(stats),
            match result {
                Ok(_) => ids@.len() == 0 || {
                    &&& old(out)@.len() == ids@.len() * self.file().row_len()
                    &&& rows_read(
                        |id: int, row: Seq<F32>| self.holds(id, row),
                        self.file().row_len(),
                        ids@,
                        final(out)@,
                        ids@.len() as int,
                    )
                    &&& exists|tail: WindowedGatherStats| #[trigger]
                        self.counted(*old(stats), *final(stats), ids@, tail) && (if self.tail(
                            ids@,
                        ).len() == 0 {
                            tail == WindowedGatherStats::zero()
                        } else {
                            exists|plan: BoundedReadPlan| #[trigger]
                                bounded_plan(
                                    self.file().row_len(),
                                    self.tail(ids@),
                                    max_window_bytes,
                                    max_read_amplification,
                                    plan,
                                )
                                    && tail == plan_counters(plan, self.file().row_len() * 4)
                        })
                },
                Err(error) => ids@.len() > 0 && old(out)@.len() != ids@.len()
                    * self.file().row_len() && error.is_index(
                    prefix_mismatch(
                        old(out)@.len() as int,
                        capped(ids@.len() * self.file().row_len()),
                    ),
                ),
            },
    {
        if ids.len() == 0 {
            return Ok(());
        }
        let width: usize = self.backing.width();
        if !product_is(ids.len(), width, out.len()) {
            return Err(prefix_size_error(out.len(), sat_mul(ids.len(), width)));
        }
        let split: PrefixSplit = split_prefix_ids(ids, self.prefix.rows());
        let count: usize = split.tail_ids.len();
        assert(out.len() == out@.len());
        proof {
            self.lemma_tail(ids@, max_window_bytes as int, *stats);
            assert(count * width <= ids@.len() * width) by (nonlinear_arith)
                requires
                    count <= ids@.len(),
            ;
        }
        let mut tail: Vec<F32> = zeros(count * width);
        let mut tail_stats: WindowedGatherStats = WindowedGatherStats::default();
        let read: AnnResult<()> = self.backing.read_rows_bounded_into_stats(
            split.tail_ids.as_slice(),
            tail.as_mut_slice(),
            max_window_bytes, max_read_amplification,
            &mut tail_stats,
        );
        proof {
            if count > 0 {
                let plan = choose|plan: BoundedReadPlan| #[trigger]
                    bounded_plan(
                        self.file().row_len(),
                        split.tail_ids@,
                        max_window_bytes,
                        max_read_amplification,
                        plan,
                    )
                        && tail_stats == WindowedGatherStats::zero().merged(
                        plan_counters(plan, self.file().row_len() * 4),
                    );
                lemma_countable(
                    self.file().row_len(),
                    split.tail_ids@,
                    plan,
                    self.file().row_total(),
                );
                assert(tail_stats == plan_counters(plan, self.file().row_len() * 4));
            }
            self.lemma_joined_counters(ids@, max_window_bytes as int, *stats, tail_stats);
        }
        let joined: AnnResult<()> = join_prefix_rows(
            &self.prefix,
            ids,
            tail.as_slice(),
            &tail_stats,
            out,
            stats,
        );
        proof {
            self.lemma_joined(ids@, tail@, out@);
            assert(self.counted(*old(stats), *stats, ids@, tail_stats));
        }
        joined
    }
}

/// The text for an output of the wrong size.
pub open spec fn prefix_mismatch(got: int, expected: int) -> Seq<char> {
    "Resident prefix sketch matrix size mismatch: got "@ + decimal(got as nat) + " expected "@
        + decimal(expected as nat) + ""@
}

fn prefix_size_error(got: usize, expected: usize) -> (error: AnnError)
    ensures
        error.is_index(prefix_mismatch(got as int, expected as int)),
{
    index_error(
        with_numbers(
            "Resident prefix sketch matrix size mismatch: got ",
            got as u64,
            " expected ",
            expected as u64,
            "",
        ),
    )
}

} // verus!
