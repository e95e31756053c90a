//! Rows of equal width in one flat sequence.

use vstd::prelude::*;

use crate::float_bits::F32;

verus! {

/// `base` with `part` in place of what stood there from `at` on.
pub open spec fn spliced<T>(base: Seq<T>, at: int, part: Seq<T>) -> Seq<T> {
    Seq::new(
        base.len(),
        |i: int|
            if at <= i < at + part.len() {
                part[i - at]
            } else {
                base[i]
            },
    )
}

/// The `i`-th row.
pub open spec fn row_of<T>(data: Seq<T>, width: int, i: int) -> Seq<T> {
    data.subrange(i * width, i * width + width)
}

/// `data` with `row` as its `i`-th row.
pub open spec fn with_row<T>(data: Seq<T>, width: int, i: int, row: Seq<T>) -> Seq<T> {
    spliced(data, i * width, row)
}

pub proof fn lemma_row_bounds(i: int, n: int, width: int)
    requires
        0 <= i < n,
        0 <= width,
    ensures
        0 <= i * width,
        i * width + width <= n * width,
        (i + 1) * width == i * width + width,
{
    assert(0 <= i * width && i * width + width <= n * width && (i + 1) * width == i * width + width)
        by (nonlinear_arith)
        requires
            0 <= i < n,
            0 <= width,
    ;
}

/// Two different rows do not overlap.
pub proof fn lemma_rows_apart(i: int, j: int, width: int)
    requires
        i < j,
        0 <= width,
    ensures
        i * width + width <= j * width,
{
    assert(i * width + width <= j * width) by (nonlinear_arith)
        requires
            i < j,
            0 <= width,
    ;
}

/// Writing one row gives that row and keeps the others.
pub proof fn lemma_with_row<T>(data: Seq<T>, width: int, n: int, i: int, row: Seq<T>, j: int)
    requires
        0 <= i < n,
        0 <= j < n,
        0 <= width,
        data.len() >= n * width,
        row.len() == width,
    ensures
        with_row(data, width, i, row).len() == data.len(),
        forall|k: int|
            n * width <= k < data.len() ==> #[trigger] with_row(data, width, i, row)[k] == data[k],
        row_of(with_row(data, width, i, row), width, j) == (if i == j {
            row
        } else {
            row_of(data, width, j)
        }),
{
    lemma_row_bounds(i, n, width);
    lemma_row_bounds(j, n, width);
    if i < j {
        lemma_rows_apart(i, j, width);
    }
    if j < i {
        lemma_rows_apart(j, i, width);
    }
    let result = row_of(with_row(data, width, i, row), width, j);
    if i == j {
        assert(result =~= row);
    } else {
        assert(result =~= row_of(data, width, j));
    }
}

/// Copies `len` values from `src` at `from` to `dst` at `to`.
pub fn copy_values(src: &[F32], from: usize, dst: &mut [F32], to: usize, len: usize)
    requires
        from + len <= src@.len(),
        to + len <= old(dst)@.len(),
    ensures
        final(dst)@ == spliced(old(dst)@, to as int, src@.subrange(from as int, from + len)),
{
    let src_len: usize = src.len();
    let dst_len: usize = dst.len();
    for i in 0..len
        invariant
            src_len == src@.len(),
            dst_len == dst@.len(),
            dst@.len() == old(dst)@.len(),
            from + len <= src_len,
            to + len <= dst_len,
            dst@ == spliced(old(dst)@, to as int, src@.subrange(from as int, from + i)),
    {
        dst[to + i] = src[from + i];
        proof {
            assert(
                dst@ =~= spliced(old(dst)@, to as int, src@.subrange(from as int, from + i + 1))
            );
        }
    }
    proof {
        if len == 0 {
            assert(dst@ =~= spliced(old(dst)@, to as int, src@.subrange(from as int, from + len)));
        }
    }
}

/// The values from `from` to in front of `to`.
pub fn values_between(src: &[F32], from: usize, to: usize) -> (part: Vec<F32>)
    requires
        from <= to <= src@.len(),
    ensures
        part@ == src@.subrange(from as int, to as int),
{
    let mut part: Vec<F32> = Vec::with_capacity(to - from);
    for i in from..to
        invariant
            from <= to <= src@.len(),
            part@ == src@.subrange(from as int, i as int),
    {
        part.push(src[i]);
        proof {
            assert(part@ =~= src@.subrange(from as int, i as int + 1));
        }
    }
    part
}

/// `len` zeros.
pub fn zeros(len: usize) -> (values: Vec<F32>)
    ensures
        values@ == Seq::new(len as nat, |i: int| F32 { bits: 0 }),
{
    let mut values: Vec<F32> = Vec::with_capacity(len);
    for i in 0..len
        invariant
            values@ == Seq::new(i as nat, |k: int| F32 { bits: 0 }),
    {
        values.push(F32 { bits: 0 });
        proof {
            assert(values@ =~= Seq::new((i + 1) as nat, |k: int| F32 { bits: 0 }));
        }
    }
    values
}

} // verus!
