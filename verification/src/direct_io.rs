//! Unbuffered file access in aligned blocks.
//!
//! A file opened for direct access moves whole blocks whose offset and length
//! are multiples of an alignment. A request for an arbitrary byte range is
//! served through the smallest span of blocks around it: a read cuts the range
//! out of the span, and a write puts the range into the span that was read
//! before.

use vstd::arithmetic::div_mod::{
    lemma_fundamental_div_mod, lemma_mod_bound, lemma_mod_decreases, lemma_mod_multiples_basic,
};
use vstd::prelude::*;
use vstd::string::*;

use crate::ann_result::{index_error, AnnResult};
use crate::arith::{floored, greatest, max_usize};
use crate::rows::spliced;
use crate::text::{decimal, joined, with_number};

verus! {

pub const DEFAULT_DIRECT_IO_ALIGNMENT: usize = 4096;

/// The first of `power`, `2 * power`, `4 * power`, ... that is at least `n`.
pub open spec fn doubled_to(n: int, power: int) -> int
    decreases floored(n - power),
{
    if power >= n || power <= 0 {
        power
    } else {
        doubled_to(n, 2 * power)
    }
}

/// The least power of two that is at least `n`.
pub open spec fn power_of_two_from(n: int) -> int {
    doubled_to(n, 1)
}

proof fn lemma_doubled_to_at_least(n: int, power: int)
    requires
        power > 0,
    ensures
        doubled_to(n, power) >= n,
        doubled_to(n, power) >= power,
    decreases floored(n - power),
{
    if power < n {
        lemma_doubled_to_at_least(n, 2 * power);
    }
}

/// The least power of two that is at least `n`.
pub fn next_power_of_two(n: usize) -> (result: usize)
    requires
        power_of_two_from(n as int) <= usize::MAX,
    ensures
        result == power_of_two_from(n as int),
        result >= n,
        result >= 1,
{
    let mut power: usize = 1;
    while power < n
        invariant
            power > 0,
            doubled_to(n as int, power as int) == power_of_two_from(n as int),
            power_of_two_from(n as int) <= usize::MAX,
        decreases floored(n - power),
    {
        proof {
            lemma_doubled_to_at_least(n as int, 2 * power as int);
        }
        power = 2 * power;
    }
    power
}

/// How a file is accessed.
#[derive(Clone, Copy, Debug, PartialEq, Eq, Structural)]
pub struct DirectIoConfig {
    pub enabled: bool,
    pub alignment: usize,
}

impl Default for DirectIoConfig {
    fn default() -> (config: Self)
        ensures
            !config.enabled,
            config.alignment == DEFAULT_DIRECT_IO_ALIGNMENT,
    {
        DirectIoConfig { enabled: false, alignment: DEFAULT_DIRECT_IO_ALIGNMENT }
    }
}

impl DirectIoConfig {
    /// The alignment that a configured alignment stands for.
    pub open spec fn alignment_from(alignment: int) -> int {
        power_of_two_from(greatest(alignment, DEFAULT_DIRECT_IO_ALIGNMENT as int))
    }

    pub fn disabled() -> (config: Self)
        ensures
            !config.enabled,
            config.alignment == DEFAULT_DIRECT_IO_ALIGNMENT,
    {
        DirectIoConfig::default()
    }

    pub fn enabled_with_alignment(alignment: usize) -> (config: Self)
        requires
            DirectIoConfig::alignment_from(alignment as int) <= usize::MAX,
        ensures
            config.enabled,
            config.alignment == DirectIoConfig::alignment_from(alignment as int),
    {
        DirectIoConfig {
            enabled: true,
            alignment: next_power_of_two(max_usize(alignment, DEFAULT_DIRECT_IO_ALIGNMENT)),
        }
    }

    pub fn effective_alignment(self) -> (alignment: usize)
        requires
            DirectIoConfig::alignment_from(self.alignment as int) <= usize::MAX,
        ensures
            alignment == DirectIoConfig::alignment_from(self.alignment as int),
            alignment >= DEFAULT_DIRECT_IO_ALIGNMENT,
    {
        next_power_of_two(max_usize(self.alignment, DEFAULT_DIRECT_IO_ALIGNMENT))
    }
}

/// The least multiple of `alignment` that is not below `value`.
pub open spec fn rounded_up(value: int, alignment: int) -> int {
    if value % alignment == 0 {
        value
    } else {
        value + (alignment - value % alignment)
    }
}

/// The greatest multiple of `alignment` that is not above `value`.
pub open spec fn rounded_down(value: int, alignment: int) -> int {
    value / alignment * alignment
}

pub proof fn lemma_rounded(value: int, alignment: int)
    requires
        value >= 0,
        alignment > 0,
    ensures
        rounded_down(value, alignment) == value - value % alignment,
        0 <= rounded_down(value, alignment) <= value < rounded_down(value, alignment) + alignment,
        rounded_down(value, alignment) % alignment == 0,
        value <= rounded_up(value, alignment) < value + alignment,
        rounded_up(value, alignment) % alignment == 0,
{
    lemma_mod_bound(value, alignment);
    lemma_mod_decreases(value as nat, alignment as nat);
    lemma_fundamental_div_mod(value, alignment);
    let quotient = value / alignment;
    assert(alignment * quotient == quotient * alignment) by (nonlinear_arith);
    lemma_mod_multiples_basic(quotient, alignment);
    lemma_mod_multiples_basic(quotient + 1, alignment);
    assert((quotient + 1) * alignment == quotient * alignment + alignment) by (nonlinear_arith);
}

/// Rounds `value` up to a multiple of `alignment`.
pub fn round_up(value: usize, alignment: usize) -> (rounded: usize)
    requires
        alignment > 0,
        rounded_up(value as int, alignment as int) <= usize::MAX,
    ensures
        rounded == rounded_up(value as int, alignment as int),
{
    proof {
        lemma_rounded(value as int, alignment as int);
    }
    let remainder: usize = value % alignment;
    if remainder == 0 {
        value
    } else {
        value + (alignment - remainder)
    }
}

/// The blocks around the byte range that starts at `offset` and holds `len` bytes.
#[derive(Clone, Copy, Debug, PartialEq, Eq, Structural)]
pub struct AlignedSpan {
    /// Where the first block starts in the file.
    pub offset: u64,
    /// How many bytes of the first block precede the range.
    pub prefix: usize,
    /// How many bytes the blocks hold.
    pub len: usize,
}

/// Whether the span around the range fits the machine's sizes.
pub open spec fn span_fits(offset: int, len: int, alignment: int) -> bool {
    rounded_up(offset % alignment + len, alignment) <= usize::MAX
}

impl AlignedSpan {
    /// The span is made of whole blocks, and the range lies in it.
    pub open spec fn covers(self, offset: int, len: int, alignment: int) -> bool {
        &&& self.offset as int % alignment == 0
        &&& self.len as int % alignment == 0
        &&& self.offset + self.prefix == offset
        &&& self.prefix < alignment
        &&& self.prefix + len <= self.len < self.prefix + len + alignment
    }

    pub fn around(offset: u64, len: usize, alignment: usize) -> (span: AlignedSpan)
        requires
            alignment > 0,
            span_fits(offset as int, len as int, alignment as int),
        ensures
            span.offset == rounded_down(offset as int, alignment as int),
            span.prefix == offset as int % alignment as int,
            span.len == rounded_up(offset as int % alignment as int + len, alignment as int),
            span.covers(offset as int, len as int, alignment as int),
    {
        proof {
            lemma_rounded(offset as int, alignment as int);
            lemma_rounded(offset as int % alignment as int + len, alignment as int);
        }
        let step: u64 = alignment as u64;
        let start: u64 = offset - offset % step;
        let prefix: usize = (offset % step) as usize;
        AlignedSpan { offset: start, prefix, len: round_up(prefix + len, alignment) }
    }

    /// Whether a write of `len` bytes leaves some of the span's bytes as they are,
    /// so that the span has to be read before.
    pub fn needs_prefill(&self, len: usize) -> (result: bool)
        ensures
            result == (self.prefix != 0 || self.len != len),
    {
        self.prefix != 0 || self.len != len
    }

    /// The bytes of the range, out of the span's bytes.
    pub fn extract(&self, block: &[u8], len: usize) -> (bytes: Vec<u8>)
        requires
            self.prefix + len <= block@.len(),
        ensures
            bytes@ == block@.subrange(self.prefix as int, self.prefix + len),
    {
        let mut bytes: Vec<u8> = Vec::new();
        let limit: usize = block.len();
        for i in 0..len
            invariant
                block@.len() == limit,
                self.prefix + len <= block@.len(),
                bytes@ == block@.subrange(self.prefix as int, self.prefix + i),
        {
            bytes.push(block[self.prefix + i]);
            proof {
                assert(bytes@ =~= block@.subrange(self.prefix as int, self.prefix + i + 1));
            }
        }
        bytes
    }

    /// Puts the range's bytes into the span's bytes.
    pub fn splice(&self, block: &mut Vec<u8>, bytes: &[u8])
        requires
            self.prefix + bytes@.len() <= old(block)@.len(),
        ensures
            final(block)@ == spliced(old(block)@, self.prefix as int, bytes@),
    {
        let limit: usize = block.len();
        for i in 0..bytes.len()
            invariant
                block@.len() == limit,
                self.prefix + bytes@.len() <= block@.len(),
                block@ == spliced(old(block)@, self.prefix as int, bytes@.take(i as int)),
        {
            block.set(self.prefix + i, bytes[i]);
            proof {
                assert(block@ =~= spliced(
                    old(block)@,
                    self.prefix as int,
                    bytes@.take(i as int + 1),
                ));
            }
        }
        proof {
            assert(bytes@.take(bytes@.len() as int) =~= bytes@);
        }
    }
}

/// What a read of `len` bytes at `offset` finds in a file: past the end, zeros.
pub open spec fn file_read(file: Seq<u8>, offset: int, len: int) -> Seq<u8> {
    Seq::new(
        len as nat,
        |i: int|
            if offset + i < file.len() {
                file[offset + i]
            } else {
                0u8
            },
    )
}

/// The file after `bytes` were written at `offset`: a gap in front is zeros.
pub open spec fn file_written(file: Seq<u8>, offset: int, bytes: Seq<u8>) -> Seq<u8> {
    let end = offset + bytes.len();
    Seq::new(
        greatest(file.len() as int, end) as nat,
        |i: int|
            if offset <= i < end {
                bytes[i - offset]
            } else if i < file.len() {
                file[i]
            } else {
                0u8
            },
    )
}

/// The file after the direct write of `bytes` at `offset`: the span is read
/// where some of it stays, changed, and written back.
pub open spec fn direct_written(
    file: Seq<u8>,
    span: AlignedSpan,
    scratch: Seq<u8>,
    bytes: Seq<u8>,
) -> Seq<u8> {
    let block = if span.prefix != 0 || span.len != bytes.len() {
        file_read(file, span.offset as int, span.len as int)
    } else {
        scratch
    };
    file_written(file, span.offset as int, spliced(block, span.prefix as int, bytes))
}

/// A direct read of a range gives back what a direct write put there, whatever
/// the file and the scratch block held before.
pub proof fn law_direct_read_after_write(
    file: Seq<u8>,
    span: AlignedSpan,
    scratch: Seq<u8>,
    bytes: Seq<u8>,
    offset: int,
    alignment: int,
)
    requires
        span.covers(offset, bytes.len() as int, alignment),
        scratch.len() == span.len,
    ensures
        file_read(
            direct_written(file, span, scratch, bytes),
            span.offset as int,
            span.len as int,
        ).subrange(span.prefix as int, span.prefix + bytes.len()) == bytes,
{
    let written = direct_written(file, span, scratch, bytes);
    assert(file_read(written, span.offset as int, span.len as int).subrange(
        span.prefix as int,
        span.prefix + bytes.len(),
    ) =~= bytes);
}

/// A direct write leaves every byte outside its range as it was: what was in
/// the file keeps its value, and what was not reads as zero.
pub proof fn law_direct_write_keeps_other_bytes(
    file: Seq<u8>,
    span: AlignedSpan,
    scratch: Seq<u8>,
    bytes: Seq<u8>,
    offset: int,
    alignment: int,
    at: int,
)
    requires
        span.covers(offset, bytes.len() as int, alignment),
        scratch.len() == span.len,
        0 <= at,
        at < offset || offset + bytes.len() <= at,
    ensures
        file_read(direct_written(file, span, scratch, bytes), at, 1)[0] == file_read(
            file,
            at,
            1,
        )[0],
{
}

/// A direct read of a range gives back what was written there, after a later write of
/// other bytes too, which may share blocks with the range.
pub proof fn law_direct_read_after_disjoint_write(
    file: Seq<u8>,
    first: AlignedSpan,
    first_scratch: Seq<u8>,
    first_bytes: Seq<u8>,
    first_offset: int,
    second: AlignedSpan,
    second_scratch: Seq<u8>,
    second_bytes: Seq<u8>,
    second_offset: int,
    alignment: int,
)
    requires
        first.covers(first_offset, first_bytes.len() as int, alignment),
        second.covers(second_offset, second_bytes.len() as int, alignment),
        first_scratch.len() == first.len,
        second_scratch.len() == second.len,
        first_offset + first_bytes.len() <= second_offset || second_offset + second_bytes.len()
            <= first_offset,
    ensures
        ({
            let once = direct_written(file, first, first_scratch, first_bytes);
            let twice = direct_written(once, second, second_scratch, second_bytes);
            file_read(twice, first.offset as int, first.len as int).subrange(
                first.prefix as int,
                first.prefix + first_bytes.len(),
            ) == first_bytes
        }),
{
    let once = direct_written(file, first, first_scratch, first_bytes);
    let twice = direct_written(once, second, second_scratch, second_bytes);
    let found = file_read(twice, first.offset as int, first.len as int).subrange(
        first.prefix as int,
        first.prefix + first_bytes.len(),
    );
    law_direct_read_after_write(file, first, first_scratch, first_bytes, first_offset, alignment);
    let before = file_read(once, first.offset as int, first.len as int).subrange(
        first.prefix as int,
        first.prefix + first_bytes.len(),
    );
    assert forall|i: int| 0 <= i < first_bytes.len() implies #[trigger] found[i]
        == first_bytes[i] by {
        law_direct_write_keeps_other_bytes(
            once,
            second,
            second_scratch,
            second_bytes,
            second_offset,
            alignment,
            first_offset + i,
        );
        assert(before[i] == first_bytes[i]);
    }
    assert(found =~= first_bytes);
}

/// What is written as it stands is read back too, after a later write of other bytes.
pub proof fn law_plain_read_after_disjoint_write(
    file: Seq<u8>,
    first_bytes: Seq<u8>,
    first_offset: int,
    second_bytes: Seq<u8>,
    second_offset: int,
)
    requires
        0 <= first_offset,
        0 <= second_offset,
        first_offset + first_bytes.len() <= second_offset || second_offset + second_bytes.len()
            <= first_offset,
    ensures
        file_read(
            file_written(
                file_written(file, first_offset, first_bytes),
                second_offset,
                second_bytes,
            ),
            first_offset,
            first_bytes.len() as int,
        ) == first_bytes,
{
    let once = file_written(file, first_offset, first_bytes);
    let twice = file_written(once, second_offset, second_bytes);
    assert(file_read(twice, first_offset, first_bytes.len() as int) =~= first_bytes);
}

/// A byte range on its way to or from a file, in as many calls as it takes.
#[derive(Clone, Copy, Debug, PartialEq, Eq, Structural)]
pub struct Transfer {
    /// Where the range starts in the file.
    pub offset: u64,
    /// How many bytes the range holds.
    pub len: usize,
    /// How many of them have been moved.
    pub moved: usize,
}

impl Transfer {
    pub open spec fn wf(self) -> bool {
        self.moved <= self.len && self.offset + self.len <= u64::MAX
    }

    pub fn start(offset: u64, len: usize) -> (transfer: Transfer)
        requires
            offset + len <= u64::MAX,
        ensures
            transfer.wf(),
            transfer == (Transfer { offset, len, moved: 0 }),
    {
        Transfer { offset, len, moved: 0 }
    }

    /// Where the next call starts in the file, while bytes are left.
    pub fn next_offset(&self) -> (offset: Option<u64>)
        requires
            self.wf(),
        ensures
            offset == (if self.moved < self.len {
                Some((self.offset + self.moved) as u64)
            } else {
                None
            }),
    {
        if self.moved < self.len {
            Some(self.offset + self.moved as u64)
        } else {
            None
        }
    }

    /// Takes in that a call read `count` bytes. A call that reads nothing while
    /// bytes are left has met the end of the file, which is an error.
    pub fn advance_read(&mut self, count: usize, path: &str) -> (result: AnnResult<()>)
        requires
            old(self).wf(),
            old(self).moved < old(self).len,
            old(self).moved + count <= old(self).len,
        ensures
            final(self).wf(),
            *final(self) == (Transfer { moved: (old(self).moved + count) as usize, ..*old(self) }),
            match result {
                Ok(_) => count > 0,
                Err(error) => count == 0 && error.is_index(
                    "Unexpected EOF while reading "@ + path@ + " at offset "@ + decimal(
                        (old(self).offset + old(self).moved) as nat,
                    ) + ""@,
                ),
            },
    {
        if count == 0 {
            let head: String = joined("Unexpected EOF while reading ", path);
            let head: String = joined(head.as_str(), " at offset ");
            return Err(
                index_error(with_number(head.as_str(), self.offset + self.moved as u64, "")),
            );
        }
        self.moved = self.moved + count;
        Ok(())
    }

    /// Takes in that a call read `count` bytes of a span that may reach past the
    /// end of the file. The result is the end of what the file holds of the
    /// span, once that is known: what follows it counts as zeros.
    pub fn advance_span_read(&mut self, count: usize) -> (filled: Option<usize>)
        requires
            old(self).wf(),
            old(self).moved < old(self).len,
            old(self).moved + count <= old(self).len,
        ensures
            final(self).wf(),
            *final(self) == (Transfer { moved: (old(self).moved + count) as usize, ..*old(self) }),
            filled == (if count == 0 || final(self).moved == final(self).len {
                Some(final(self).moved)
            } else {
                None
            }),
    {
        self.moved = self.moved + count;
        if count == 0 || self.moved == self.len {
            Some(self.moved)
        } else {
            None
        }
    }

    /// Takes in that a call wrote `count` bytes. A call that writes nothing while
    /// bytes are left is an error.
    pub fn advance_write(&mut self, count: usize, path: &str) -> (result: AnnResult<()>)
        requires
            old(self).wf(),
            old(self).moved < old(self).len,
            old(self).moved + count <= old(self).len,
        ensures
            final(self).wf(),
            *final(self) == (Transfer { moved: (old(self).moved + count) as usize, ..*old(self) }),
            match result {
                Ok(_) => count > 0,
                Err(error) => count == 0 && error.is_index(
                    "Short write while writing "@ + path@ + " at offset "@ + decimal(
                        (old(self).offset + old(self).moved) as nat,
                    ) + ""@,
                ),
            },
    {
        if count == 0 {
            let head: String = joined("Short write while writing ", path);
            let head: String = joined(head.as_str(), " at offset ");
            return Err(
                index_error(with_number(head.as_str(), self.offset + self.moved as u64, "")),
            );
        }
        self.moved = self.moved + count;
        Ok(())
    }
}

} // verus!
