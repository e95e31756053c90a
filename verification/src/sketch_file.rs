//! Sketches in a file: a header with the numbers of rows and of values per row, then
//! the values row by row.

use vstd::prelude::*;
use vstd::string::*;

use crate::ann_result::{index_error, AnnResult};
use crate::arith::{lemma_product_bounds, product_is};
use crate::float_bits::F32;
use crate::le_bytes::{
    byte_values, bytes_u64, int_u64, law_u64_bytes_round_trip, law_value_bytes_round_trip,
    lemma_value_bytes_part, push_u64, push_values, read_u64, value_bytes,
};
use crate::text::{decimal, number_text, with_numbers};

verus! {

/// Bytes in front of the first row.
pub const HEADER_BYTES: usize = 16;

/// The shape of a sketch file.
#[derive(Clone, Copy, Debug, PartialEq, Eq, Structural)]
pub struct SketchFile {
    pub rows: usize,
    pub width: usize,
}

/// The bytes of a sketch file.
pub open spec fn sketch_file_bytes(rows: usize, width: usize, values: Seq<F32>) -> Seq<u8> {
    bytes_u64(rows as u64) + bytes_u64(width as u64) + value_bytes(values)
}

/// The text for values that do not fill the rows.
pub open spec fn payload_mismatch(rows: usize, width: usize, values: int) -> Seq<char> {
    "Sketch payload size mismatch: rows="@ + decimal(rows as nat) + " width="@ + decimal(
        width as nat,
    ) + " values="@ + decimal(values as nat)
}

/// The bytes of a sketch file with the given values. Fails where the values do not
/// fill the rows.
pub fn encode_sketch_file(rows: usize, width: usize, values: &[F32]) -> (result: AnnResult<Vec<u8>>)
    ensures
        match result {
            Ok(bytes) => values@.len() == rows * width && bytes@ == sketch_file_bytes(
                rows,
                width,
                values@,
            ),
            Err(error) => values@.len() != rows * width && error.is_index(
                payload_mismatch(rows, width, values@.len() as int),
            ),
        },
{
    if !product_is(rows, width, values.len()) {
        let mut text: String = with_numbers(
            "Sketch payload size mismatch: rows=",
            rows as u64,
            " width=",
            width as u64,
            " values=",
        );
        let count: String = number_text(values.len() as u64);
        text.append(count.as_str());
        return Err(index_error(text));
    }
    let mut bytes: Vec<u8> = Vec::new();
    push_u64(&mut bytes, rows as u64);
    push_u64(&mut bytes, width as u64);
    push_values(&mut bytes, values);
    proof {
        assert(bytes@ =~= sketch_file_bytes(rows, width, values@));
    }
    Ok(bytes)
}

/// The size of a sketch file.
pub open spec fn file_size(rows: int, width: int) -> int {
    HEADER_BYTES + rows * width * 4
}

/// The text for a file of the wrong size.
pub open spec fn size_mismatch(expected: int, found: int) -> Seq<char> {
    "Sketch file size mismatch: expected "@ + decimal(expected as nat) + ", found "@ + decimal(
        found as nat,
    ) + ""@
}

/// The product of three sizes, where it fits beside the header.
fn checked_file_size(rows: u64, width: u64) -> (size: Option<usize>)
    ensures
        size == (if file_size(rows as int, width as int) <= usize::MAX {
            Some(file_size(rows as int, width as int) as usize)
        } else {
            None
        }),
{
    proof {
        lemma_product_bounds(rows as int, width as int, 0xffff_ffff_ffff_ffff);
    }
    let values: u128 = (rows as u128) * (width as u128);
    if values > 0x3fff_ffff_ffff_fffb {
        return None;
    }
    let size: u64 = HEADER_BYTES as u64 + values as u64 * 4;
    if size > usize::MAX as u64 {
        None
    } else {
        Some(size as usize)
    }
}

impl SketchFile {
    /// The shape that a header gives, for a file of `file_bytes` bytes. Fails where the
    /// shape's size does not fit the machine or is not that of the file.
    pub fn open(header: &[u8], file_bytes: usize) -> (result: AnnResult<SketchFile>)
        requires
            header@.len() == HEADER_BYTES,
        ensures
            ({
                let rows = int_u64(header@.subrange(0, 8));
                let width = int_u64(header@.subrange(8, 16));
                match result {
                    Ok(file) => file_bytes == file_size(rows, width) && file_size(rows, width)
                        <= usize::MAX && file.rows == rows && file.width == width,
                    Err(error) => if file_size(rows, width) > usize::MAX {
                        error.is_index("Sketch file size overflow"@)
                    } else if file_bytes != file_size(rows, width) {
                        error.is_index(
                            size_mismatch(file_size(rows, width), file_bytes as int),
                        )
                    } else {
                        (rows > usize::MAX || width > usize::MAX) && error.is_index(
                            "Sketch file size overflow"@,
                        )
                    },
                }
            }),
    {
        let rows: u64 = read_u64(header, 0);
        let width: u64 = read_u64(header, 8);
        let expected: usize = match checked_file_size(rows, width) {
            Some(size) => size,
            None => {
                return Err(index_error("Sketch file size overflow".to_owned()));
            },
        };
        if file_bytes != expected {
            return Err(
                index_error(
                    with_numbers(
                        "Sketch file size mismatch: expected ",
                        expected as u64,
                        ", found ",
                        file_bytes as u64,
                        "",
                    ),
                ),
            );
        }
        if rows > usize::MAX as u64 || width > usize::MAX as u64 {
            return Err(index_error("Sketch file size overflow".to_owned()));
        }
        Ok(SketchFile { rows: rows as usize, width: width as usize })
    }

    /// The file is one that `open` has accepted.
    pub open spec fn wf(self) -> bool {
        file_size(self.rows as int, self.width as int) <= usize::MAX
    }

    /// Where a row starts in the file.
    pub open spec fn row_start(self, row: int) -> int {
        HEADER_BYTES + row * (self.width * 4)
    }

    /// The bytes of a row: from where to where. Fails for a row that does not exist.
    pub fn row_range(&self, idx: usize) -> (result: AnnResult<(usize, usize)>)
        requires
            self.wf(),
        ensures
            match result {
                Ok(range) => idx < self.rows && range.0 == self.row_start(idx as int) && range.1
                    == self.row_start(idx as int + 1),
                Err(error) => idx >= self.rows && error.is_index(
                    "Sketch row "@ + decimal(idx as nat) + " is out of bounds for "@ + decimal(
                        self.rows as nat,
                    ) + " rows"@,
                ),
            },
    {
        if idx >= self.rows {
            return Err(
                index_error(
                    with_numbers(
                        "Sketch row ",
                        idx as u64,
                        " is out of bounds for ",
                        self.rows as u64,
                        " rows",
                    ),
                ),
            );
        }
        proof {
            self.lemma_rows_inside(idx as int, 1);
        }
        let row_bytes: usize = self.width * 4;
        let start: usize = HEADER_BYTES + idx * row_bytes;
        Ok((start, start + row_bytes))
    }

    /// The rows lie inside the file.
    proof fn lemma_rows_inside(self, start: int, count: int)
        requires
            self.wf(),
            0 <= start,
            0 <= count,
            start + count <= self.rows,
        ensures
            self.row_start(start) >= HEADER_BYTES,
            0 <= start * (self.width * 4),
            self.row_start(start + count) == self.row_start(start) + count * (self.width * 4),
            self.row_start(start + count) <= file_size(self.rows as int, self.width as int),
            0 <= count * (self.width * 4),
            start + count > 0 ==> self.width * 4 <= usize::MAX,
    {
        let w = self.width * 4;
        assert(w >= 0);
        assert((start + count) * w == start * w + count * w) by (nonlinear_arith);
        assert(0 <= start * w && 0 <= count * w) by (nonlinear_arith)
            requires
                0 <= start,
                0 <= count,
                0 <= w,
        ;
        assert((start + count) * w <= self.rows * w) by (nonlinear_arith)
            requires
                start + count <= self.rows,
                0 <= w,
        ;
        assert(self.rows * w == self.rows * self.width * 4) by (nonlinear_arith)
            requires
                w == self.width * 4,
        ;
        if start + count > 0 {
            assert(w <= self.rows * w) by (nonlinear_arith)
                requires
                    1 <= self.rows,
                    0 <= w,
            ;
        }
    }

    /// The byte range of `count` rows from `start` on: its offset and its length.
    pub fn range_bytes(&self, start: usize, count: usize) -> (range: (usize, usize))
        requires
            self.wf(),
            start + count <= self.rows,
        ensures
            range.0 == self.row_start(start as int),
            range.1 == count * (self.width * 4),
            range.0 + range.1 == self.row_start(start + count),
    {
        proof {
            self.lemma_rows_inside(start as int, count as int);
        }
        if self.rows == 0 {
            proof {
                assert(0 * (self.width * 4) == 0) by (nonlinear_arith);
            }
            return (HEADER_BYTES, 0);
        }
        proof {
            self.lemma_rows_inside(0, self.rows as int);
        }
        let row_bytes: usize = self.width * 4;
        (HEADER_BYTES + start * row_bytes, count * row_bytes)
    }
}

/// A header that was written is read back: the file opens with the rows and the width
/// that it was written with, as far as its size fits the machine.
pub proof fn law_header_round_trip(rows: usize, width: usize, values: Seq<F32>)
    requires
        values.len() == rows * width,
    ensures
        ({
            let bytes = sketch_file_bytes(rows, width, values);
            let header = bytes.take(HEADER_BYTES as int);
            &&& bytes.len() == file_size(rows as int, width as int)
            &&& int_u64(header.subrange(0, 8)) == rows
            &&& int_u64(header.subrange(8, 16)) == width
        }),
{
    let bytes = sketch_file_bytes(rows, width, values);
    let header = bytes.take(HEADER_BYTES as int);
    law_u64_bytes_round_trip(rows as u64);
    law_u64_bytes_round_trip(width as u64);
    law_value_bytes_round_trip(values);
    assert(header.subrange(0, 8) =~= bytes_u64(rows as u64));
    assert(header.subrange(8, 16) =~= bytes_u64(width as u64));
}

/// Rows that were written are read back: the bytes of rows `start` to `start + count`
/// stand for the values of those rows.
pub proof fn law_rows_round_trip(
    rows: usize,
    width: usize,
    values: Seq<F32>,
    start: int,
    count: int,
)
    requires
        values.len() == rows * width,
        0 <= start,
        0 <= count,
        start + count <= rows,
    ensures
        ({
            let bytes = sketch_file_bytes(rows, width, values);
            let file = SketchFile { rows, width };
            byte_values(bytes.subrange(file.row_start(start), file.row_start(start + count)))
                == values.subrange(start * width, (start + count) * width)
        }),
{
    let bytes = sketch_file_bytes(rows, width, values);
    let file = SketchFile { rows, width };
    law_header_round_trip(rows, width, values);
    law_value_bytes_round_trip(values);
    let from = start * width;
    let to = (start + count) * width;
    assert(0 <= from <= to <= values.len()) by (nonlinear_arith)
        requires
            from == start * width,
            to == (start + count) * width,
            0 <= start,
            0 <= count,
            start + count <= rows,
            values.len() == rows * width,
    ;
    assert(start * (width * 4) == 4 * from) by (nonlinear_arith)
        requires
            from == start * width,
    ;
    assert((start + count) * (width * 4) == 4 * to) by (nonlinear_arith)
        requires
            to == (start + count) * width,
    ;
    lemma_value_bytes_part(values, from, to);
    law_value_bytes_round_trip(values.subrange(from, to));
    assert(bytes.subrange(file.row_start(start), file.row_start(start + count)) =~= value_bytes(
        values,
    ).subrange(4 * from, 4 * to));
}

} // verus!
