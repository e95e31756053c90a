//! Sketches: one short row of projections per point.

use vstd::arithmetic::power2::{lemma2_to64, lemma_pow2_strictly_increases, lemma_pow2_unfold, pow2};
use vstd::prelude::*;

use crate::ann_result::{index_error, AnnResult};
use crate::arith::{capped, sat_mul};
use crate::direction::{bit_set, does_not_fall, law_hash_bits_tell_the_direction};
use crate::float_bits::{F32, F32_INFINITY};
use crate::rows::{copy_values, lemma_row_bounds, lemma_rows_apart, row_of, with_row};
use crate::text::{decimal, with_numbers};

verus! {

/// `self - other >= 0` in single precision: unordered values and the difference of
/// equal infinities do not count.
pub open spec fn difference_nonnegative(minuend: F32, subtrahend: F32) -> bool {
    subtrahend.at_most(minuend) && !(minuend.magnitude() == F32_INFINITY && minuend == subtrahend)
}

/// The hash of the direction from `p` to `c`: bit `i` tells whether the `i`-th
/// projection does not decrease.
pub open spec fn direction_hash(p: Seq<F32>, c: Seq<F32>, bits: int) -> int
    decreases bits,
{
    if bits <= 0 {
        0
    } else {
        direction_hash(p, c, bits - 1) + if difference_nonnegative(c[bits - 1], p[bits - 1]) {
            pow2((bits - 1) as nat) as int
        } else {
            0
        }
    }
}

/// The hash of the direction from `sketch_p` to `sketch_c` in `m_bits` bits.
pub fn compute_hash(sketch_p: &[F32], sketch_c: &[F32], m_bits: usize) -> (hash: u16)
    requires
        m_bits <= 16,
        m_bits <= sketch_p@.len(),
        m_bits <= sketch_c@.len(),
    ensures
        hash == direction_hash(sketch_p@, sketch_c@, m_bits as int),
        hash < pow2(m_bits as nat),
        forall|i: int|
            0 <= i < m_bits ==> #[trigger] bit_set(hash as int, i) == does_not_fall(
                sketch_p@[i],
                sketch_c@[i],
            ),
{
    let mut hash: u32 = 0;
    let mut weight: u32 = 1;
    proof {
        lemma2_to64();
    }
    for i in 0..m_bits
        invariant
            m_bits <= 16,
            m_bits <= sketch_p@.len(),
            m_bits <= sketch_c@.len(),
            hash == direction_hash(sketch_p@, sketch_c@, i as int),
            weight == pow2(i as nat),
            hash < weight <= 0x1_0000,
    {
        let c: F32 = sketch_c[i];
        let p: F32 = sketch_p[i];
        proof {
            lemma_pow2_unfold((i + 1) as nat);
            lemma2_to64();
            if i + 1 < 16 {
                lemma_pow2_strictly_increases((i + 1) as nat, 16);
            }
        }
        let infinite: bool = c.bits == F32_INFINITY || c.bits == 0xff80_0000;
        if p.le(c) && !(infinite && c == p) {
            hash = hash + weight;
        }
        weight = 2 * weight;
    }
    proof {
        lemma2_to64();
        if m_bits < 16 {
            lemma_pow2_strictly_increases(m_bits as nat, 16);
        }
        law_hash_bits_tell_the_direction(sketch_p@, sketch_c@, m_bits as int);
    }
    hash as u16
}

/// Rows of sketches that can be read by id.
pub trait SketchAccessor {
    /// The accessor is in order.
    spec fn valid(&self) -> bool;

    /// How many values a row has.
    spec fn row_width(&self) -> int;

    /// How many rows there are.
    spec fn row_count(&self) -> int;

    /// The row may be asked for.
    spec fn accepts(&self, id: int) -> bool;

    /// The row may be asked for among several.
    spec fn accepts_in_batch(&self, id: int) -> bool;

    /// A row is held under the id.
    spec fn has_row(&self, id: int) -> bool;

    /// A row with these values is held under the id.
    spec fn holds(&self, id: int, row: Seq<F32>) -> bool;

    fn width(&self) -> (width: usize)
        requires
            self.valid(),
        ensures
            width == self.row_width(),
    ;

    fn rows(&self) -> (rows: usize)
        requires
            self.valid(),
        ensures
            rows == self.row_count(),
    ;

    /// The accessor may take that many bytes of memory.
    spec fn occupies(&self, bytes: usize) -> bool;

    /// The bytes of memory that the accessor takes.
    fn resident_bytes(&self) -> (bytes: usize)
        requires
            self.valid(),
        ensures
            self.occupies(bytes),
    ;

    /// Copies a row. Fails where `dst` is not as wide as a row, or the row is not held.
    fn row_copy_into(&self, idx: usize, dst: &mut [F32]) -> (result: AnnResult<()>)
        requires
            self.valid(),
            self.accepts(idx as int),
        ensures
            final(dst)@.len() == old(dst)@.len(),
            match result {
                Ok(_) => old(dst)@.len() == self.row_width() && self.has_row(idx as int)
                    && self.holds(idx as int, final(dst)@),
                Err(_) => final(dst)@ == old(dst)@ && (old(dst)@.len() != self.row_width()
                    || !self.has_row(idx as int)),
            },
    ;

    /// Output of this length may be asked for that many ids.
    spec fn tolerates(&self, ids: int, out: int) -> bool;

    /// Copies the rows under `ids`, one behind the other. Fails at the first row
    /// that is not held, or where `out` does not have the size of the rows.
    fn read_rows_into(&self, ids: &[u32], out: &mut [F32]) -> (result: AnnResult<()>)
        requires
            self.valid(),
            forall|i: int|
                0 <= i < ids@.len() ==> self.accepts_in_batch(#[trigger] ids@[i] as int),
            self.tolerates(ids@.len() as int, old(out)@.len() as int),
        ensures
            final(out)@.len() == old(out)@.len(),
            match result {
                Ok(_) => {
                    &&& old(out)@.len() >= ids@.len() * self.row_width()
                    &&& forall|i: int|
                        0 <= i < ids@.len() ==> self.has_row(#[trigger] ids@[i] as int)
                    &&& rows_read(
                        |id: int, row: Seq<F32>| self.holds(id, row),
                        self.row_width(),
                        ids@,
                        final(out)@,
                        ids@.len() as int,
                    )
                    &&& forall|j: int|
                        ids@.len() * self.row_width() <= j < old(out)@.len()
                            ==> #[trigger] final(out)@[j] == old(out)@[j]
                },
                Err(_) => old(out)@.len() != ids@.len() * self.row_width() || exists|k: int|
                    0 <= k < ids@.len() && !self.has_row(#[trigger] ids@[k] as int)
                        && rows_read(
                        |id: int, row: Seq<F32>| self.holds(id, row),
                        self.row_width(),
                        ids@,
                        final(out)@,
                        k,
                    ),
            },
    ;
}

/// The first `n` rows of `out` are those under the first `n` ids.
pub open spec fn rows_read(
    held: spec_fn(int, Seq<F32>) -> bool,
    width: int,
    ids: Seq<u32>,
    out: Seq<F32>,
    n: int,
) -> bool {
    forall|i: int| 0 <= i < n ==> held(#[trigger] ids[i] as int, row_of(out, width, i))
}

/// Two reads of the same ids bring the same values, wherever the rows came from, where
/// every id has one row.
pub proof fn law_reads_agree(
    held: spec_fn(int, Seq<F32>) -> bool,
    width: int,
    ids: Seq<u32>,
    a: Seq<F32>,
    b: Seq<F32>,
)
    requires
        width > 0,
        a.len() == ids.len() * width,
        b.len() == ids.len() * width,
        forall|id: int, r: Seq<F32>, s: Seq<F32>|
            #[trigger] held(id, r) && #[trigger] held(id, s) ==> r == s,
        rows_read(held, width, ids, a, ids.len() as int),
        rows_read(held, width, ids, b, ids.len() as int),
    ensures
        a == b,
{
    assert forall|j: int| 0 <= j < a.len() implies a[j] == b[j] by {
        let i = j / width;
        vstd::arithmetic::div_mod::lemma_fundamental_div_mod(j, width);
        vstd::arithmetic::div_mod::lemma_mod_bound(j, width);
        vstd::arithmetic::div_mod::lemma_div_pos_is_pos(j, width);
        assert(i < ids.len()) by (nonlinear_arith)
            requires
                width * i <= j < ids.len() * width,
                width > 0,
        ;
        lemma_row_bounds(i, ids.len() as int, width);
        assert(width * i == i * width) by (nonlinear_arith);
        assert(held(ids[i] as int, row_of(a, width, i)));
        assert(held(ids[i] as int, row_of(b, width, i)));
        let k = j % width;
        assert(row_of(a, width, i)[k] == a[j]);
        assert(row_of(b, width, i)[k] == b[j]);
    }
    assert(a =~= b);
}

/// Puts `row` into `out` behind the rows read so far.
pub(crate) fn put_row(
    ids: &[u32],
    i: usize,
    row: &[F32],
    from: usize,
    out: &mut [F32],
    width: usize,
    Ghost(held): Ghost<spec_fn(int, Seq<F32>) -> bool>,
)
    requires
        i < ids@.len(),
        from + width <= row@.len(),
        ids@.len() * width <= old(out)@.len(),
        rows_read(held, width as int, ids@, old(out)@, i as int),
        held(ids@[i as int] as int, row@.subrange(from as int, from + width)),
    ensures
        final(out)@ == with_row(
            old(out)@,
            width as int,
            i as int,
            row@.subrange(from as int, from + width),
        ),
        rows_read(held, width as int, ids@, final(out)@, i + 1),
{
    proof {
        lemma_row_bounds(i as int, ids@.len() as int, width as int);
    }
    let out_len: usize = out.len();
    copy_values(row, from, out, i * width, width);
    proof {
        let part = row@.subrange(from as int, from + width);
        assert forall|k: int| 0 <= k < i + 1 implies held(
            #[trigger] ids@[k] as int,
            row_of(out@, width as int, k),
        ) by {
            lemma_row_bounds(k, ids@.len() as int, width as int);
            if k < i {
                lemma_rows_apart(k, i as int, width as int);
                assert(row_of(out@, width as int, k) =~= row_of(old(out)@, width as int, k));
            } else {
                assert(row_of(out@, width as int, k) =~= part);
            }
        }
    }
}

/// Sketches of all points in one row-major matrix.
#[derive(Debug)]
pub struct SketchStore {
    data: Vec<F32>,
    width: usize,
}

/// `Vec::capacity`: what was allocated, which is never less than the length.
#[verifier::external_body]
pub(crate) fn capacity_of<T>(values: &Vec<T>) -> (capacity: usize)
    ensures
        capacity >= values@.len(),
{
    values.capacity()
}

impl SketchStore {
    pub closed spec fn values(&self) -> Seq<F32> {
        self.data@
    }

    pub closed spec fn row_len(&self) -> int {
        self.width as int
    }

    pub open spec fn row_total(&self) -> int {
        if self.row_len() == 0 {
            0
        } else {
            self.values().len() as int / self.row_len()
        }
    }

    pub fn from_row_major(data: Vec<F32>, width: usize) -> (store: Self)
        ensures
            store.values() == data@,
            store.row_len() == width,
    {
        SketchStore { data, width }
    }

    /// The row of point `idx`.
    pub fn row(&self, idx: usize) -> (row: &[F32])
        requires
            idx * self.row_len() + self.row_len() <= self.values().len(),
        ensures
            row@ == row_of(self.values(), self.row_len(), idx as int),
    {
        assert(self.data.len() == self.data@.len());
        proof {
            assert(0 <= idx * self.width) by (nonlinear_arith);
        }
        let start: usize = idx * self.width;
        vstd::slice::slice_subrange(self.data.as_slice(), start, start + self.width)
    }

    /// The bytes are those of a store with room for its values.
    pub open spec fn takes(&self, bytes: usize) -> bool {
        exists|capacity: usize|
            capacity >= self.values().len() && bytes == #[trigger] capped(
                core::mem::size_of::<SketchStore>() + capped(capacity * 4),
            )
    }

    /// The bytes of a store whose matrix has room for `capacity` values.
    pub fn bytes_with_capacity(capacity: usize) -> (bytes: usize)
        ensures
            bytes == capped(core::mem::size_of::<SketchStore>() + capped(capacity * 4)),
    {
        core::mem::size_of::<SketchStore>().saturating_add(sat_mul(capacity, 4))
    }

    /// The bytes that the store takes: at least those of its values.
    pub fn estimate_bytes(&self) -> (bytes: usize)
        ensures
            self.takes(bytes),
    {
        let capacity: usize = capacity_of(&self.data);
        SketchStore::bytes_with_capacity(capacity)
    }

    pub fn data(&self) -> (data: &[F32])
        ensures
            data@ == self.values(),
    {
        self.data.as_slice()
    }
}

/// The rows of a store lie within its values.
proof fn lemma_store_row(store: &SketchStore, id: int)
    requires
        0 <= id < store.row_total(),
    ensures
        store.row_len() > 0 ==> id * store.row_len() + store.row_len() <= store.values().len(),
        0 <= id * store.row_len(),
{
    let n = store.values().len() as int;
    let w = store.row_len();
    if w > 0 {
        vstd::arithmetic::div_mod::lemma_fundamental_div_mod(n, w);
        vstd::arithmetic::div_mod::lemma_mod_bound(n, w);
        let rows = n / w;
        assert(w * rows == rows * w) by (nonlinear_arith);
        lemma_row_bounds(id, rows, w);
    }
    assert(0 <= id * w) by (nonlinear_arith)
        requires
            0 <= id,
            0 <= w,
    ;
}

impl SketchAccessor for SketchStore {
    open spec fn valid(&self) -> bool {
        true
    }

    open spec fn row_width(&self) -> int {
        self.row_len()
    }

    open spec fn row_count(&self) -> int {
        self.row_total()
    }

    open spec fn accepts(&self, id: int) -> bool {
        0 <= id < self.row_total()
    }

    open spec fn accepts_in_batch(&self, id: int) -> bool {
        0 <= id < self.row_total()
    }

    open spec fn has_row(&self, id: int) -> bool {
        true
    }

    open spec fn holds(&self, id: int, row: Seq<F32>) -> bool {
        row == row_of(self.values(), self.row_len(), id)
    }

    open spec fn tolerates(&self, ids: int, out: int) -> bool {
        ids * self.row_len() <= out
    }

    open spec fn occupies(&self, bytes: usize) -> bool {
        self.takes(bytes)
    }

    fn resident_bytes(&self) -> (bytes: usize) {
        self.estimate_bytes()
    }

    fn width(&self) -> (width: usize) {
        self.width
    }

    fn rows(&self) -> (rows: usize) {
        if self.width == 0 {
            0
        } else {
            self.data.len() / self.width
        }
    }

    fn row_copy_into(&self, idx: usize, dst: &mut [F32]) -> (result: AnnResult<()>)
        ensures
            result matches Err(error) ==> error.is_index(
                "Sketch row copy width mismatch: dst="@ + decimal(old(dst)@.len() as nat)
                    + " expected="@ + decimal(self.row_len() as nat) + ""@,
            ),
    {
        if dst.len() != self.width {
            return Err(
                index_error(
                    with_numbers(
                        "Sketch row copy width mismatch: dst=",
                        dst.len() as u64,
                        " expected=",
                        self.width as u64,
                        "",
                    ),
                ),
            );
        }
        proof {
            lemma_store_row(self, idx as int);
        }
        assert(self.data.len() == self.data@.len());
        copy_values(self.data.as_slice(), idx * self.width, dst, 0, self.width);
        proof {
            assert(dst@ =~= row_of(self.values(), self.row_len(), idx as int));
        }
        Ok(())
    }

    fn read_rows_into(&self, ids: &[u32], out: &mut [F32]) -> (result: AnnResult<()>)
        ensures
            result is Ok,
    {
        for i in 0..ids.len()
            invariant
                forall|k: int|
                    0 <= k < ids@.len() ==> self.accepts_in_batch(#[trigger] ids@[k] as int),
                ids@.len() * self.row_len() <= old(out)@.len(),
                out@.len() == old(out)@.len(),
                rows_read(
                    |id: int, row: Seq<F32>| self.holds(id, row),
                    self.row_width(),
                    ids@,
                    out@,
                    i as int,
                ),
                forall|j: int|
                    ids@.len() * self.row_len() <= j < old(out)@.len() ==> #[trigger] out@[j]
                        == old(out)@[j],
        {
            proof {
                lemma_store_row(self, ids@[i as int] as int);
                lemma_row_bounds(i as int, ids@.len() as int, self.row_len());
            }
            assert(self.data.len() == self.data@.len());
            put_row(
                ids,
                i,
                self.data.as_slice(),
                ids[i] as usize * self.width,
                out,
                self.width,
                Ghost(|id: int, row: Seq<F32>| self.holds(id, row)),
            );
        }
        Ok(())
    }
}

} // verus!
