//! Little-endian integers in bytes.

use vstd::prelude::*;

use crate::float_bits::F32;

verus! {

/// The bytes of a 32-bit integer, least significant first.
pub open spec fn bytes_u32(x: u32) -> Seq<u8> {
    seq![
        (x % 0x100) as u8,
        (x / 0x100 % 0x100) as u8,
        (x / 0x1_0000 % 0x100) as u8,
        (x / 0x100_0000) as u8,
    ]
}

/// The integer that four bytes stand for, least significant first.
pub open spec fn int_u32(s: Seq<u8>) -> int {
    s[0] + 0x100 * s[1] + 0x1_0000 * s[2] + 0x100_0000 * s[3]
}

/// The bytes of a 64-bit integer, least significant first.
pub open spec fn bytes_u64(x: u64) -> Seq<u8> {
    bytes_u32((x % 0x1_0000_0000) as u32) + bytes_u32((x / 0x1_0000_0000) as u32)
}

/// The integer that eight bytes stand for, least significant first.
pub open spec fn int_u64(s: Seq<u8>) -> int {
    int_u32(s.take(4)) + 0x1_0000_0000 * int_u32(s.skip(4))
}

/// Reading the bytes of an integer gives the integer back.
pub proof fn law_u32_bytes_round_trip(x: u32)
    ensures
        bytes_u32(x).len() == 4,
        int_u32(bytes_u32(x)) == x,
{
}

/// Reading the bytes of an integer gives the integer back.
pub proof fn law_u64_bytes_round_trip(x: u64)
    ensures
        bytes_u64(x).len() == 8,
        int_u64(bytes_u64(x)) == x,
{
    let low = (x % 0x1_0000_0000) as u32;
    let high = (x / 0x1_0000_0000) as u32;
    assert(bytes_u64(x).take(4) =~= bytes_u32(low));
    assert(bytes_u64(x).skip(4) =~= bytes_u32(high));
    law_u32_bytes_round_trip(low);
    law_u32_bytes_round_trip(high);
}

pub fn push_u32(out: &mut Vec<u8>, x: u32)
    ensures
        final(out)@ == old(out)@ + bytes_u32(x),
{
    out.push((x % 0x100) as u8);
    out.push((x / 0x100 % 0x100) as u8);
    out.push((x / 0x1_0000 % 0x100) as u8);
    out.push((x / 0x100_0000) as u8);
    proof {
        assert(out@ =~= old(out)@ + bytes_u32(x));
    }
}

pub fn push_u64(out: &mut Vec<u8>, x: u64)
    ensures
        final(out)@ == old(out)@ + bytes_u64(x),
{
    push_u32(out, (x % 0x1_0000_0000) as u32);
    push_u32(out, (x / 0x1_0000_0000) as u32);
    proof {
        assert(out@ =~= old(out)@ + bytes_u64(x));
    }
}

/// The 32-bit integer that stands at `at`.
pub fn read_u32(bytes: &[u8], at: usize) -> (x: u32)
    requires
        at + 4 <= bytes@.len(),
    ensures
        x == int_u32(bytes@.subrange(at as int, at + 4)),
{
    assert(bytes.len() == bytes@.len());
    bytes[at] as u32 + 0x100 * bytes[at + 1] as u32 + 0x1_0000 * bytes[at + 2] as u32 + 0x100_0000
        * bytes[at + 3] as u32
}

/// The 64-bit integer that stands at `at`.
pub fn read_u64(bytes: &[u8], at: usize) -> (x: u64)
    requires
        at + 8 <= bytes@.len(),
    ensures
        x == int_u64(bytes@.subrange(at as int, at + 8)),
{
    assert(bytes.len() == bytes@.len());
    proof {
        let part = bytes@.subrange(at as int, at + 8);
        assert(part.take(4) =~= bytes@.subrange(at as int, at + 4));
        assert(part.skip(4) =~= bytes@.subrange(at + 4, at + 8));
    }
    let low: u64 = read_u32(bytes, at) as u64;
    let high: u64 = read_u32(bytes, at + 4) as u64;
    low + 0x1_0000_0000 * high
}

/// The bytes of single precision values, one behind the other.
pub open spec fn value_bytes(values: Seq<F32>) -> Seq<u8> {
    Seq::new(values.len() * 4, |i: int| bytes_u32(values[i / 4].bits)[i % 4])
}

/// The values that bytes stand for, four bytes each.
pub open spec fn byte_values(bytes: Seq<u8>) -> Seq<F32> {
    Seq::new(
        bytes.len() / 4,
        |i: int| F32 { bits: int_u32(bytes.subrange(4 * i, 4 * i + 4)) as u32 },
    )
}

/// Reading the bytes of values gives the values back.
pub proof fn law_value_bytes_round_trip(values: Seq<F32>)
    ensures
        value_bytes(values).len() == 4 * values.len(),
        byte_values(value_bytes(values)) == values,
{
    let bytes = value_bytes(values);
    assert(bytes.len() == 4 * values.len());
    assert(byte_values(bytes).len() == values.len());
    assert forall|i: int| 0 <= i < values.len() implies #[trigger] byte_values(bytes)[i]
        == values[i] by {
        lemma_value_bytes_at(values, i);
        law_u32_bytes_round_trip(values[i].bits);
    }
    assert(byte_values(bytes) =~= values);
}

/// The bytes of the `i`-th value.
proof fn lemma_value_bytes_at(values: Seq<F32>, i: int)
    requires
        0 <= i < values.len(),
    ensures
        value_bytes(values).subrange(4 * i, 4 * i + 4) == bytes_u32(values[i].bits),
{
    let part = value_bytes(values).subrange(4 * i, 4 * i + 4);
    let expected = bytes_u32(values[i].bits);
    assert forall|k: int| 0 <= k < 4 implies #[trigger] part[k] == expected[k] by {
        assert((4 * i + k) / 4 == i);
        assert((4 * i + k) % 4 == k);
    }
    assert(part =~= expected);
}

/// The bytes of a part of the values are the part of the bytes.
pub proof fn lemma_value_bytes_part(values: Seq<F32>, from: int, to: int)
    requires
        0 <= from <= to <= values.len(),
    ensures
        value_bytes(values).subrange(4 * from, 4 * to) == value_bytes(values.subrange(from, to)),
{
    assert(value_bytes(values).subrange(4 * from, 4 * to) =~= value_bytes(
        values.subrange(from, to),
    ));
}

/// Appends the bytes of values.
pub fn push_values(out: &mut Vec<u8>, values: &[F32])
    ensures
        final(out)@ == old(out)@ + value_bytes(values@),
{
    for i in 0..values.len()
        invariant
            out@ == old(out)@ + value_bytes(values@.take(i as int)),
    {
        push_u32(out, values[i].bits);
        proof {
            assert(value_bytes(values@.take(i as int + 1)) =~= value_bytes(values@.take(i as int))
                + bytes_u32(values@[i as int].bits));
            assert(out@ =~= old(out)@ + value_bytes(values@.take(i as int + 1)));
        }
    }
    proof {
        assert(values@.take(values@.len() as int) =~= values@);
    }
}

/// The values that bytes stand for.
pub fn read_values(bytes: &[u8]) -> (values: Vec<F32>)
    ensures
        values@ == byte_values(bytes@),
{
    let count: usize = bytes.len() / 4;
    let total: usize = bytes.len();
    let mut values: Vec<F32> = Vec::with_capacity(count);
    for i in 0..count
        invariant
            total == bytes@.len(),
            count == total / 4,
            values@.len() == i,
            forall|k: int| 0 <= k < i ==> #[trigger] values@[k] == byte_values(bytes@)[k],
    {
        values.push(F32 { bits: read_u32(bytes, 4 * i) });
    }
    proof {
        assert(values@ =~= byte_values(bytes@));
    }
    values
}

} // verus!
