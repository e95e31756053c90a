//! Sketches in a file whose bytes lie in memory, as those of a mapped file do.

use vstd::prelude::*;
use vstd::slice::slice_subrange;
use vstd::string::*;

use crate::ann_result::{index_error, AnnResult};
use crate::arith::{capped, greatest};
use crate::float_bits::{F32, F64};
use crate::gather::{WindowedGatherOptions, WindowedGatherStats};
use crate::io_runtime::{
    gap_joins, id_keys, lemma_windows_inside, window_rows, BoundedReadPlan, ReadWindow,
};
use crate::le_bytes::{
    byte_values, int_u64, law_value_bytes_round_trip, push_u64, push_values, read_u32, value_bytes,
};
use crate::order::sorts;
use crate::rows::{copy_values, lemma_row_bounds, lemma_rows_apart, row_of, spliced, zeros};
use crate::sketch::{rows_read, SketchAccessor, SketchStore};
use crate::sketch_file::{
    file_size, law_header_round_trip, sketch_file_bytes, SketchFile, HEADER_BYTES,
};
use crate::sketch_read::{
    bounded_plan, bounded_sketch_scatter_ranges, consecutive_runs, continues_run, file_planner,
    gathered, law_windows_add_up, lemma_countable, lemma_planned_rows, lemma_read_possible,
    matrix_mismatch, plan_bounded_read, plan_counters, plan_windowed_read, ranges_end,
    read_possible, record_bounded_sketch_plan_stats, runs_of, scatter_bounded_sketch_window,
    window_range, window_values, windowed_plan,
};
use crate::text::{decimal, with_numbers};

verus! {

/// The sketches of a file whose bytes lie in memory.
pub struct DiskSketchStore<'a> {
    bytes: &'a [u8],
    file: SketchFile,
    sampled_medoid_start: Option<u32>,
}

impl<'a> DiskSketchStore<'a> {
    /// The bytes of the file.
    pub closed spec fn contents(&self) -> Seq<u8> {
        self.bytes@
    }

    /// The shape that the file's header gives.
    pub closed spec fn shape(&self) -> SketchFile {
        self.file
    }

    /// The point that a search may start from, where the build has found one.
    pub closed spec fn start(&self) -> Option<u32> {
        self.sampled_medoid_start
    }

    /// The file has the size of its shape.
    pub open spec fn wf(&self) -> bool {
        &&& self.shape().wf()
        &&& self.contents().len() == file_size(
            self.shape().rows as int,
            self.shape().width as int,
        )
    }

    /// The values behind the header.
    pub open spec fn values(&self) -> Seq<F32> {
        byte_values(self.contents().skip(HEADER_BYTES as int))
    }

    pub open spec fn row_len(&self) -> int {
        self.shape().width as int
    }

    pub open spec fn row_total(&self) -> int {
        self.shape().rows as int
    }

    /// The sketches of a file. Fails where the header's shape is not that of the file.
    pub fn open(bytes: &'a [u8]) -> (result: AnnResult<DiskSketchStore<'a>>)
        requires
            bytes@.len() >= HEADER_BYTES,
        ensures
            ({
                let rows = int_u64(bytes@.subrange(0, 8));
                let width = int_u64(bytes@.subrange(8, 16));
                match result {
                    Ok(store) => {
                        &&& bytes@.len() == file_size(rows, width)
                        &&& store.wf()
                        &&& store.contents() == bytes@
                        &&& store.row_total() == rows
                        &&& store.row_len() == width
                        &&& store.start() is None
                    },
                    Err(error) => if file_size(rows, width) > usize::MAX {
                        error.is_index("Sketch file size overflow"@)
                    } else if bytes@.len() != file_size(rows, width) {
                        error.is_index(
                            crate::sketch_file::size_mismatch(
                                file_size(rows, width),
                                bytes@.len() as int,
                            ),
                        )
                    } else {
                        (rows > usize::MAX || width > usize::MAX) && error.is_index(
                            "Sketch file size overflow"@,
                        )
                    },
                }
            }),
    {
        let header: &[u8] = slice_subrange(bytes, 0, HEADER_BYTES);
        proof {
            assert(header@.subrange(0, 8) =~= bytes@.subrange(0, 8));
            assert(header@.subrange(8, 16) =~= bytes@.subrange(8, 16));
        }
        match SketchFile::open(header, bytes.len()) {
            Ok(file) => Ok(DiskSketchStore { bytes, file, sampled_medoid_start: None }),
            Err(error) => Err(error),
        }
    }

    /// The bytes of a file with the sketches of a store.
    pub fn write_from_memory(sketches: &SketchStore) -> (bytes: Vec<u8>)
        ensures
            bytes@ == sketch_file_bytes(
                sketches.row_total() as usize,
                sketches.row_len() as usize,
                sketches.values(),
            ),
    {
        let mut bytes: Vec<u8> = Vec::new();
        push_u64(&mut bytes, sketches.rows() as u64);
        push_u64(&mut bytes, sketches.width() as u64);
        push_values(&mut bytes, sketches.data());
        proof {
            assert(bytes@ =~= sketch_file_bytes(
                sketches.row_total() as usize,
                sketches.row_len() as usize,
                sketches.values(),
            ));
        }
        bytes
    }

    /// The store with the start point that its build has found.
    pub fn with_sampled_medoid_start(self, start: Option<u32>) -> (store: DiskSketchStore<'a>)
        ensures
            store.contents() == self.contents(),
            store.shape() == self.shape(),
            store.start() == start,
    {
        DiskSketchStore { bytes: self.bytes, file: self.file, sampled_medoid_start: start }
    }

    pub fn sampled_medoid_start(&self) -> (start: Option<u32>)
        ensures
            start == self.start(),
    {
        self.sampled_medoid_start
    }

    /// The size of the file.
    pub fn file_bytes(&self) -> (bytes: usize)
        ensures
            bytes == self.contents().len(),
    {
        self.bytes.len()
    }

    /// The values of the rows lie where the shape has them.
    pub proof fn lemma_rows(&self, start: int, count: int)
        requires
            self.wf(),
            0 <= start,
            0 <= count,
            start + count <= self.row_total(),
        ensures
            0 <= start * self.row_len(),
            start * self.row_len() + count * self.row_len() == (start + count) * self.row_len(),
            0 <= count * self.row_len(),
            (start + count) * self.row_len() <= self.values().len(),
            self.values().len() == self.row_total() * self.row_len(),
            HEADER_BYTES + 4 * ((start + count) * self.row_len()) <= self.contents().len(),
            start + count > 0 ==> self.row_len() * 4 <= usize::MAX,
    {
        let w = self.row_len();
        let n = self.row_total();
        assert(n * w * 4 == 4 * (n * w)) by (nonlinear_arith);
        assert((start + count) * w == start * w + count * w) by (nonlinear_arith);
        assert(0 <= start * w && 0 <= count * w) by (nonlinear_arith)
            requires
                0 <= start,
                0 <= count,
                0 <= w,
        ;
        assert((start + count) * w <= n * w) by (nonlinear_arith)
            requires
                start + count <= n,
                0 <= w,
        ;
        if start + count > 0 {
            assert(w <= n * w) by (nonlinear_arith)
                requires
                    1 <= n,
                    0 <= w,
            ;
        }
    }

    /// The rows' bytes are counted by a `usize`.
    pub proof fn lemma_row_bytes(&self)
        requires
            self.wf(),
        ensures
            self.row_total() * greatest(self.row_len() * 4, 1) <= usize::MAX,
    {
        let w = self.row_len();
        let n = self.row_total();
        assert(n * (w * 4) == n * w * 4 && n * 1 == n) by (nonlinear_arith);
    }

    /// Reads `count` rows from `start` on.
    pub fn read_sketch_range_into(&self, start: usize, count: usize, out: &mut [F32])
        requires
            self.wf(),
            start + count <= self.row_total(),
            old(out)@.len() == count * self.row_len(),
        ensures
            final(out)@.len() == old(out)@.len(),
            final(out)@ == self.values().subrange(
                start * self.row_len(),
                (start + count) * self.row_len(),
            ),
    {
        let len: usize = out.len();
        let total: usize = self.bytes.len();
        proof {
            self.lemma_rows(start as int, count as int);
            if count > 0 {
                assert(start * self.row_len() <= (start + count) * self.row_len());
            }
        }
        if len == 0 {
            proof {
                assert(out@ =~= self.values().subrange(
                    start * self.row_len(),
                    (start + count) * self.row_len(),
                ));
            }
            return;
        }
        let ghost from = start * self.row_len();
        let first: usize = start * self.file.width;
        for i in 0..len
            invariant
                self.wf(),
                total == self.bytes@.len(),
                len == out@.len(),
                from == first,
                0 <= from,
                from + len <= self.values().len(),
                HEADER_BYTES + 4 * (from + len) <= total,
                forall|k: int| 0 <= k < i ==> #[trigger] out@[k] == self.values()[from + k],
        {
            let at: usize = HEADER_BYTES + 4 * (first + i);
            let value: F32 = F32 { bits: read_u32(self.bytes, at) };
            proof {
                let tail = self.contents().skip(HEADER_BYTES as int);
                assert(tail.subrange(4 * (from + i), 4 * (from + i) + 4) =~= self.bytes@.subrange(
                    at as int,
                    at + 4,
                ));
                assert(self.values()[from + i] == value);
            }
            out[i] = value;
        }
        proof {
            assert(out@ =~= self.values().subrange(from, from + len));
        }
    }

    /// Copies a row. Fails where `dst` is not as wide as a row, or the row does not exist.
    fn copy_row(&self, idx: usize, dst: &mut [F32]) -> (result: AnnResult<()>)
        requires
            self.wf(),
        ensures
            final(dst)@.len() == old(dst)@.len(),
            match result {
                Ok(_) => {
                    &&& old(dst)@.len() == self.row_len()
                    &&& idx < self.row_total()
                    &&& final(dst)@ == row_of(self.values(), self.row_len(), idx as int)
                },
                Err(error) => {
                    &&& final(dst)@ == old(dst)@
                    &&& old(dst)@.len() != self.row_len() || idx >= self.row_total()
                    &&& error.is_index(self.row_error(idx as int, old(dst)@.len() as int))
                },
            },
    {
        if dst.len() != self.file.width {
            return Err(
                index_error(
                    with_numbers(
                        "Sketch row copy width mismatch: dst=",
                        dst.len() as u64,
                        " expected=",
                        self.file.width as u64,
                        "",
                    ),
                ),
            );
        }
        match self.file.row_range(idx) {
            Err(error) => Err(error),
            Ok(_) => {
                proof {
                    assert(1 * self.row_len() == self.row_len()) by (nonlinear_arith);
                    assert((idx + 1) * self.row_len() == idx * self.row_len() + self.row_len())
                        by (nonlinear_arith);
                }
                self.read_sketch_range_into(idx, 1, dst);
                Ok(())
            },
        }
    }

    /// What a run's rows are after they were copied behind those read so far.
    proof fn lemma_run_copied(
        &self,
        ids: Seq<u32>,
        before: Seq<F32>,
        part: Seq<F32>,
        after: Seq<F32>,
        from: int,
        to: int,
    )
        requires
            self.wf(),
            0 <= from < to <= ids.len(),
            ids.len() * self.row_len() <= before.len(),
            forall|k: int| from <= k < to ==> #[trigger] ids[k] == ids[from] + (k - from),
            ids[from] + (to - from) <= self.row_total(),
            rows_read(
                |id: int, row: Seq<F32>| self.holds(id, row),
                self.row_len(),
                ids,
                before,
                from,
            ),
            part == self.values().subrange(
                ids[from] * self.row_len(),
                (ids[from] + (to - from)) * self.row_len(),
            ),
            after == spliced(before, from * self.row_len(), part),
        ensures
            rows_read(|id: int, row: Seq<F32>| self.holds(id, row), self.row_len(), ids, after, to),
    {
        let w = self.row_len();
        let held = |id: int, row: Seq<F32>| self.holds(id, row);
        self.lemma_rows(ids[from] as int, to - from);
        assert forall|k: int| 0 <= k < to implies held(
            #[trigger] ids[k] as int,
            row_of(after, w, k),
        ) by {
            lemma_row_bounds(k, ids.len() as int, w);
            lemma_row_bounds(from, ids.len() as int, w);
            if k < from {
                lemma_rows_apart(k, from, w);
                assert(row_of(after, w, k) =~= row_of(before, w, k));
            } else {
                let id = ids[k] as int;
                assert(id * w == ids[from] * w + (k - from) * w && k * w == from * w + (k - from)
                    * w && 0 <= (k - from) * w && (k - from) * w + w <= (to - from) * w)
                    by (nonlinear_arith)
                    requires
                        id == ids[from] + (k - from),
                        from <= k < to,
                        0 <= w,
                ;
                assert(row_of(after, w, k) =~= row_of(self.values(), w, id));
            }
        }
    }

    /// Reads the rows of a run of ids behind those read so far.
    fn read_run(&self, ids: &[u32], from: usize, to: usize, out: &mut [F32])
        requires
            self.wf(),
            from < to <= ids@.len(),
            ids@.len() * self.row_len() <= old(out)@.len(),
            forall|k: int|
                from <= k < to ==> #[trigger] ids@[k] == ids@[from as int] + (k - from),
            ids@[from as int] + (to - from) <= self.row_total(),
            rows_read(
                |id: int, row: Seq<F32>| self.holds(id, row),
                self.row_len(),
                ids@,
                old(out)@,
                from as int,
            ),
        ensures
            final(out)@.len() == old(out)@.len(),
            rows_read(
                |id: int, row: Seq<F32>| self.holds(id, row),
                self.row_len(),
                ids@,
                final(out)@,
                to as int,
            ),
            forall|j: int|
                ids@.len() * self.row_len() <= j < old(out)@.len() ==> #[trigger] final(out)@[j]
                    == old(out)@[j],
    {
        let width: usize = self.file.width;
        assert(out.len() == out@.len());
        proof {
            lemma_row_bounds(to - 1, ids@.len() as int, width as int);
            self.lemma_rows(ids@[from as int] as int, to - from);
            assert(from * width + (to - from) * width == to * width && (to - 1) * width + width
                == to * width && 0 <= from * width) by (nonlinear_arith)
                requires
                    from < to,
            ;
        }
        let mut part: Vec<F32> = zeros((to - from) * width);
        self.read_sketch_range_into(ids[from] as usize, to - from, part.as_mut_slice());
        copy_values(part.as_slice(), 0, out, from * width, (to - from) * width);
        proof {
            assert(part@.subrange(0, (to - from) * width) =~= part@);
            self.lemma_run_copied(ids@, old(out)@, part@, out@, from as int, to as int);
        }
    }

    /// Carries out a plan: reads its windows, and copies their rows to their places.
    fn read_planned(&self, plan: &BoundedReadPlan, ids: &[u32], out: &mut [F32])
        requires
            self.wf(),
            plan.serves(ids@),
            plan.in_window_order(),
            forall|w: int|
                0 <= w < plan.windows@.len() ==> (#[trigger] plan.windows@[w]).start_row
                    + plan.windows@[w].row_count <= self.row_total(),
            old(out)@.len() == ids@.len() * self.row_len(),
        ensures
            final(out)@.len() == old(out)@.len(),
            rows_read(
                |id: int, row: Seq<F32>| self.holds(id, row),
                self.row_len(),
                ids@,
                final(out)@,
                ids@.len() as int,
            ),
    {
        let width: usize = self.file.width;
        let ranges: Vec<(usize, usize)> = bounded_sketch_scatter_ranges(plan);
        let ghost windows = window_values(self.values(), self.row_len(), plan.windows@);
        for w in 0..plan.windows.len()
            invariant
                self.wf(),
                width == self.row_len(),
                windows == window_values(self.values(), self.row_len(), plan.windows@),
                plan.serves(ids@),
                ranges@.len() == plan.windows@.len(),
                forall|k: int|
                    0 <= k < plan.windows@.len() ==> (#[trigger] plan.windows@[k]).start_row
                        + plan.windows@[k].row_count <= self.row_total(),
                forall|k: int|
                    0 <= k < ranges@.len() ==> window_range(*plan, k, #[trigger] ranges@[k]),
                forall|k: int|
                    0 <= k < ranges@.len() ==> (#[trigger] ranges@[k]).0 == ranges_end(ranges@, k),
                old(out)@.len() == ids@.len() * width,
                out@.len() == old(out)@.len(),
                out@ == gathered(
                    old(out)@,
                    plan.scatter@,
                    self.row_len(),
                    windows,
                    ranges_end(ranges@, w as int),
                ),
        {
            let window: ReadWindow = plan.windows[w];
            let (from, to) = ranges[w];
            proof {
                assert(plan.windows@[w as int] == window);
                assert(window_range(*plan, w as int, ranges@[w as int]));
                assert(ranges@[w as int].0 == ranges_end(ranges@, w as int));
                self.lemma_rows(window.start_row as int, window.row_count as int);
                assert forall|i: int| from <= i < to implies {
                    let place = #[trigger] plan.scatter@[i];
                    &&& place.window_idx == w
                    &&& place.row_offset_in_window * width + width <= window.row_count * width
                    &&& place.original_pos * width + width <= out@.len()
                } by {
                    let place = plan.scatter@[i];
                    assert(place.window_idx == w);
                    lemma_row_bounds(
                        place.row_offset_in_window as int,
                        window.row_count as int,
                        width as int,
                    );
                    lemma_row_bounds(place.original_pos as int, ids@.len() as int, width as int);
                }
            }
            assert(self.bytes.len() == self.bytes@.len());
            let mut values: Vec<F32> = zeros(window.row_count as usize * width);
            self.read_sketch_range_into(
                window.start_row as usize,
                window.row_count as usize,
                values.as_mut_slice(),
            );
            proof {
                assert(values@ == windows[w as int]);
                law_windows_add_up(
                    old(out)@,
                    plan.scatter@,
                    width as int,
                    windows,
                    w as int,
                    from as int,
                    to as int,
                );
            }
            scatter_bounded_sketch_window(plan, from, to, width, values.as_slice(), out);
        }
        proof {
            self.lemma_planned(*plan, ids@, old(out)@);
        }
    }

    /// The rows under `ids` may be read into counted windows.
    pub open spec fn readable(
        &self,
        ids: Seq<u32>,
        max_window_bytes: int,
        stats: WindowedGatherStats,
    ) -> bool {
        &&& self.wf()
        &&& read_possible(ids, self.row_total(), self.row_len(), max_window_bytes, stats)
    }

    /// The rows under `ids`, read in windows that bridge small gaps. Fails where `out` is
    /// not as large as the rows together.
    pub fn read_rows_windowed_into_stats(
        &self,
        ids: &[u32],
        out: &mut [F32],
        options: &WindowedGatherOptions,
        stats: &mut WindowedGatherStats,
    ) -> (result: AnnResult<()>)
        requires
            self.readable(ids@, options.max_window_bytes as int, *old(stats)),
        ensures
            final(out)@.len() == old(out)@.len(),
            ids@.len() == 0 || old(out)@.len() != ids@.len() * self.row_len() ==> final(out)@
                == old(out)@ && *final(stats) == *old(stats),
            match result {
                Ok(_) => ids@.len() == 0 || {
                    &&& old(out)@.len() == ids@.len() * self.row_len()
                    &&& rows_read(
                        |id: int, row: Seq<F32>| self.holds(id, row),
                        self.row_len(),
                        ids@,
                        final(out)@,
                        ids@.len() as int,
                    )
                    &&& exists|plan: BoundedReadPlan| #[trigger]
                        windowed_plan(self.row_len(), ids@, *options, plan) && *final(stats) == old(
                            stats,
                        ).merged(plan_counters(plan, self.row_len() * 4))
                },
                Err(error) => ids@.len() > 0 && old(out)@.len() != ids@.len() * self.row_len()
                    && error.is_index(
                    matrix_mismatch(
                        old(out)@.len() as int,
                        capped(ids@.len() * self.row_len()),
                    ),
                ),
            },
    {
        if ids.len() == 0 {
            return Ok(());
        }
        proof {
            assert(ids@[0] < self.row_total());
            self.lemma_rows(0, self.row_total());
            self.lemma_row_bytes();
            lemma_read_possible(
                ids@,
                self.row_total(),
                self.row_len(),
                options.max_window_bytes as int,
                *stats,
            );
        }
        match plan_windowed_read(&self.file, ids, out.len(), options) {
            Err(error) => Err(error),
            Ok(None) => Ok(()),
            Ok(Some(plan)) => {
                proof {
                    let order = choose|order: Seq<usize>| #[trigger]
                        sorts(id_keys(ids@), order) && plan.follows(
                            ids@,
                            order,
                            gap_joins(
                                ids@,
                                order,
                                options.max_gap_rows as int,
                                window_rows(options.max_window_bytes as int, self.row_len() * 4),
                            ),
                            ids@.len() as int,
                        );
                    lemma_windows_inside(
                        plan,
                        ids@,
                        order,
                        gap_joins(
                            ids@,
                            order,
                            options.max_gap_rows as int,
                            window_rows(options.max_window_bytes as int, self.row_len() * 4),
                        ),
                        self.row_total(),
                    );
                    assert(windowed_plan(self.row_len(), ids@, *options, plan));
                    lemma_countable(self.row_len(), ids@, plan, self.row_total());
                }
                record_bounded_sketch_plan_stats(&plan, self.file.width * 4, stats);
                self.read_planned(&plan, ids, out);
                Ok(())
            },
        }
    }

    /// The rows under `ids`, read in windows that stay within the bounds. Fails where
    /// `out` is not as large as the rows together.
    pub fn read_rows_bounded_into_stats(
        &self,
        ids: &[u32],
        out: &mut [F32],
        max_window_bytes: usize,
        max_read_amplification: F64,
        stats: &mut WindowedGatherStats,
    ) -> (result: AnnResult<()>)
        requires
            self.readable(ids@, max_window_bytes as int, *old(stats)),
        ensures
            final(out)@.len() == old(out)@.len(),
            ids@.len() == 0 || old(out)@.len() != ids@.len() * self.row_len() ==> final(out)@
                == old(out)@ && *final(stats) == *old(stats),
            match result {
                Ok(_) => ids@.len() == 0 || {
                    &&& old(out)@.len() == ids@.len() * self.row_len()
                    &&& rows_read(
                        |id: int, row: Seq<F32>| self.holds(id, row),
                        self.row_len(),
                        ids@,
                        final(out)@,
                        ids@.len() as int,
                    )
                    &&& exists|plan: BoundedReadPlan| #[trigger]
                        bounded_plan(
                            self.row_len(),
                            ids@,
                            max_window_bytes,
                            max_read_amplification,
                            plan,
                        )
                            && *final(stats) == old(stats).merged(
                            plan_counters(plan, self.row_len() * 4),
                        )
                },
                Err(error) => ids@.len() > 0 && old(out)@.len() != ids@.len() * self.row_len()
                    && error.is_index(
                    matrix_mismatch(
                        old(out)@.len() as int,
                        capped(ids@.len() * self.row_len()),
                    ),
                ),
            },
    {
        if ids.len() == 0 {
            return Ok(());
        }
        proof {
            assert(ids@[0] < self.row_total());
            self.lemma_rows(0, self.row_total());
            self.lemma_row_bytes();
            lemma_read_possible(
                ids@,
                self.row_total(),
                self.row_len(),
                max_window_bytes as int,
                *stats,
            );
        }
        match plan_bounded_read(
            &self.file,
            None,
            ids,
            out.len(),
            max_window_bytes,
            max_read_amplification,
        ) {
            Err(error) => Err(error),
            Ok(None) => Ok(()),
            Ok(Some(plan)) => {
                proof {
                    let planner = file_planner(
                        self.row_len(),
                        max_window_bytes,
                        max_read_amplification,
                    );
                    let order = choose|order: Seq<usize>| #[trigger]
                        sorts(id_keys(ids@), order) && plan.follows(
                            ids@,
                            order,
                            planner.joins(ids@, order),
                            ids@.len() as int,
                        );
                    lemma_windows_inside(
                        plan,
                        ids@,
                        order,
                        planner.joins(ids@, order),
                        self.row_total(),
                    );
                    assert(bounded_plan(
                        self.row_len(),
                        ids@,
                        max_window_bytes,
                        max_read_amplification,
                        plan,
                    ));
                    lemma_countable(self.row_len(), ids@, plan, self.row_total());
                }
                record_bounded_sketch_plan_stats(&plan, self.file.width * 4, stats);
                self.read_planned(&plan, ids, out);
                Ok(())
            },
        }
    }

    /// What is gathered by way of a plan are the rows under the ids.
    proof fn lemma_planned(&self, plan: BoundedReadPlan, ids: Seq<u32>, before: Seq<F32>)
        requires
            self.wf(),
            plan.serves(ids),
            forall|w: int|
                0 <= w < plan.windows@.len() ==> (#[trigger] plan.windows@[w]).start_row
                    + plan.windows@[w].row_count <= self.row_total(),
            before.len() == ids.len() * self.row_len(),
        ensures
            rows_read(
                |id: int, row: Seq<F32>| self.holds(id, row),
                self.row_len(),
                ids,
                gathered(
                    before,
                    plan.scatter@,
                    self.row_len(),
                    window_values(self.values(), self.row_len(), plan.windows@),
                    plan.scatter@.len() as int,
                ),
                ids.len() as int,
            ),
    {
        let held = |id: int, row: Seq<F32>| self.holds(id, row);
        let windows = window_values(self.values(), self.row_len(), plan.windows@);
        let after = gathered(
            before,
            plan.scatter@,
            self.row_len(),
            windows,
            plan.scatter@.len() as int,
        );
        assert forall|w: int| 0 <= w < plan.windows@.len() implies ((
        #[trigger] plan.windows@[w]).start_row + plan.windows@[w].row_count) * self.row_len()
            <= self.values().len() by {
            let window = plan.windows@[w];
            self.lemma_rows(window.start_row as int, window.row_count as int);
        }
        lemma_planned_rows(plan, ids, self.row_len(), self.values(), before);
        assert forall|p: int| 0 <= p < ids.len() implies held(
            #[trigger] ids[p] as int,
            row_of(after, self.row_len(), p),
        ) by {
            assert(plan.places(p));
            let i = choose|i: int|
                0 <= i < plan.scatter@.len() && #[trigger] plan.scatter@[i].original_pos == p;
            let place = plan.scatter@[i];
            assert(plan.windows@[place.window_idx as int].start_row
                + plan.windows@[place.window_idx as int].row_count <= self.row_total());
        }
    }

    /// The text for a row that cannot be copied.
    pub open spec fn row_error(&self, idx: int, dst: int) -> Seq<char> {
        if dst != self.row_len() {
            "Sketch row copy width mismatch: dst="@ + decimal(dst as nat) + " expected="@
                + decimal(self.row_len() as nat) + ""@
        } else {
            "Sketch row "@ + decimal(idx as nat) + " is out of bounds for "@ + decimal(
                self.row_total() as nat,
            ) + " rows"@
        }
    }

    /// A row's values. Fails where the row does not exist.
    pub fn row(&self, idx: usize) -> (result: AnnResult<Vec<F32>>)
        requires
            self.wf(),
        ensures
            match result {
                Ok(row) => idx < self.row_total() && row@ == row_of(
                    self.values(),
                    self.row_len(),
                    idx as int,
                ),
                Err(error) => idx >= self.row_total() && error.is_index(
                    self.row_error(idx as int, self.row_len()),
                ),
            },
    {
        let mut row: Vec<F32> = zeros(self.file.width);
        match self.copy_row(idx, row.as_mut_slice()) {
            Ok(_) => Ok(row),
            Err(error) => Err(error),
        }
    }
}

impl<'a> SketchAccessor for DiskSketchStore<'a> {
    open spec fn valid(&self) -> bool {
        self.wf()
    }

    open spec fn row_width(&self) -> int {
        self.row_len()
    }

    open spec fn row_count(&self) -> int {
        self.row_total()
    }

    open spec fn accepts(&self, id: int) -> bool {
        true
    }

    open spec fn accepts_in_batch(&self, id: int) -> bool {
        0 <= id < self.row_total()
    }

    open spec fn has_row(&self, id: int) -> bool {
        0 <= id < self.row_total()
    }

    open spec fn holds(&self, id: int, row: Seq<F32>) -> bool {
        self.has_row(id) && row == row_of(self.values(), self.row_len(), id)
    }

    open spec fn tolerates(&self, ids: int, out: int) -> bool {
        ids * self.row_len() <= out
    }

    /// The file's bytes are not in memory.
    open spec fn occupies(&self, bytes: usize) -> bool {
        bytes == core::mem::size_of::<DiskSketchStore<'a>>()
    }

    fn resident_bytes(&self) -> (bytes: usize) {
        core::mem::size_of::<DiskSketchStore<'a>>()
    }

    fn width(&self) -> (width: usize) {
        self.file.width
    }

    fn rows(&self) -> (rows: usize) {
        self.file.rows
    }

    fn row_copy_into(&self, idx: usize, dst: &mut [F32]) -> (result: AnnResult<()>)
        ensures
            result matches Err(error) ==> error.is_index(
                self.row_error(idx as int, old(dst)@.len() as int),
            ),
    {
        self.copy_row(idx, dst)
    }

    /// Reads runs of ids that follow each other by one together.
    fn read_rows_into(&self, ids: &[u32], out: &mut [F32]) -> (result: AnnResult<()>)
        ensures
            result is Ok,
    {
        let width: usize = self.file.width;
        let runs: Vec<(usize, usize)> = consecutive_runs(ids);
        let ghost held = |id: int, row: Seq<F32>| self.holds(id, row);
        for r in 0..runs.len()
            invariant
                self.wf(),
                width == self.row_len(),
                held == (|id: int, row: Seq<F32>| self.holds(id, row)),
                runs_of(ids@, runs@, ids@.len() as int),
                forall|i: int|
                    0 <= i < ids@.len() ==> self.accepts_in_batch(#[trigger] ids@[i] as int),
                ids@.len() * width <= old(out)@.len(),
                out@.len() == old(out)@.len(),
                rows_read(held, self.row_len(), ids@, out@, ranges_end(runs@, r as int)),
                forall|j: int|
                    ids@.len() * width <= j < old(out)@.len() ==> #[trigger] out@[j]
                        == old(out)@[j],
        {
            let (from, to) = runs[r];
            proof {
                if r > 0 {
                    assert(runs@[r - 1].1 == runs@[r as int].0);
                }
                lemma_run(ids@, from as int, to as int, runs@, r as int);
                assert(self.accepts_in_batch(ids@[to - 1] as int));
            }
            self.read_run(ids, from, to, out);
        }
        proof {
            if ids@.len() > 0 {
                assert(ranges_end(runs@, runs@.len() as int) == ids@.len());
            }
        }
        Ok(())
    }
}

/// What is written is read back: a file written from the rows of a store opens, and its
/// rows are those of the store, as far as the file's size fits the machine.
pub proof fn law_disk_sketches_round_trip(
    rows: usize,
    width: usize,
    values: Seq<F32>,
    store: DiskSketchStore,
    idx: int,
)
    requires
        values.len() == rows * width,
        store.contents() == sketch_file_bytes(rows, width, values),
        store.shape().rows == int_u64(store.contents().subrange(0, 8)),
        store.shape().width == int_u64(store.contents().subrange(8, 16)),
        0 <= idx < rows,
    ensures
        store.contents().len() == file_size(rows as int, width as int),
        store.row_total() == rows,
        store.row_len() == width,
        store.values() == values,
        store.holds(idx, row_of(values, width as int, idx)),
{
    law_header_round_trip(rows, width, values);
    law_value_bytes_round_trip(values);
    let header = store.contents().take(HEADER_BYTES as int);
    assert(header.subrange(0, 8) =~= store.contents().subrange(0, 8));
    assert(header.subrange(8, 16) =~= store.contents().subrange(8, 16));
    assert(store.contents().skip(HEADER_BYTES as int) =~= value_bytes(values));
}

/// Ids of a run count up from its first.
proof fn lemma_run(ids: Seq<u32>, from: int, i: int, runs: Seq<(usize, usize)>, r: int)
    requires
        runs_of(ids, runs, ids.len() as int),
        0 <= r < runs.len(),
        runs[r].0 == from,
        from <= i <= runs[r].1,
    ensures
        forall|k: int| from <= k < i ==> #[trigger] ids[k] == ids[from] + (k - from),
    decreases i - from,
{
    if i > from + 1 {
        lemma_run(ids, from, i - 1, runs, r);
        assert(continues_run(ids, i - 1));
        assert(ids[i - 2] == ids[from] + (i - 2 - from));
    }
}

} // verus!
