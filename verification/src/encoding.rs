//! Variable-length unsigned integers, little-endian.
//!
//! An integer is one discriminant byte `d`, followed by nothing when
//! `d <= 250` (the value is `d`), by two little-endian bytes when `d == 251`,
//! by four when `d == 252` and by eight when `d == 253`. No other
//! discriminant is an integer.

use bytes::BytesMut;
use vstd::prelude::*;

use crate::buffer::{
    contents, get_u16_le, get_u32_le, get_u64_le, get_u8, put_u16_le, put_u32_le, put_u64_le,
    put_u8, remaining, unread,
};

verus! {

/// The largest value that is its own discriminant.
pub const SINGLE_BYTE_MAX: u8 = 250;

/// The discriminant before two bytes.
pub const U16_BYTE: u8 = 251;

/// The discriminant before four bytes.
pub const U32_BYTE: u8 = 252;

/// The discriminant before eight bytes.
pub const U64_BYTE: u8 = 253;

/// 256 to the power of `width`.
pub open spec fn pow256(width: nat) -> nat
    decreases width,
{
    if width == 0 {
        1
    } else {
        256 * pow256((width - 1) as nat)
    }
}

/// The number that `bytes` spell, least significant byte first.
pub open spec fn le_value(bytes: Seq<u8>) -> nat
    decreases bytes.len(),
{
    if bytes.len() == 0 {
        0
    } else {
        bytes[0] as nat + 256 * le_value(bytes.skip(1))
    }
}

/// The `width` low bytes of `value`, least significant first.
pub open spec fn le_bytes(value: nat, width: nat) -> Seq<u8>
    decreases width,
{
    if width == 0 {
        Seq::empty()
    } else {
        seq![(value % 256) as u8] + le_bytes(value / 256, (width - 1) as nat)
    }
}

/// The powers of 256 that the scheme uses.
pub proof fn lemma_pow256_values()
    ensures
        pow256(0) == 1,
        pow256(1) == 0x100,
        pow256(2) == 0x1_0000,
        pow256(4) == 0x1_0000_0000,
        pow256(8) == 0x1_0000_0000_0000_0000,
{
    reveal_with_fuel(pow256, 9);
}

/// A number written in `width` bytes takes `width` bytes.
pub proof fn lemma_le_bytes_len(value: nat, width: nat)
    ensures
        le_bytes(value, width).len() == width,
    decreases width,
{
    if width > 0 {
        lemma_le_bytes_len(value / 256, (width - 1) as nat);
    }
}

/// A little-endian byte string of `n` bytes spells a number below `256^n`.
pub proof fn lemma_le_value_bound(bytes: Seq<u8>)
    ensures
        le_value(bytes) < pow256(bytes.len()),
    decreases bytes.len(),
{
    if bytes.len() > 0 {
        lemma_le_value_bound(bytes.skip(1));
    }
}

/// Reading back the `width` little-endian bytes of a number that fits in
/// them gives the number.
pub proof fn lemma_le_value_of_bytes(value: nat, width: nat)
    requires
        value < pow256(width),
    ensures
        le_value(le_bytes(value, width)) == value,
    decreases width,
{
    if width > 0 {
        let tail = le_bytes(value / 256, (width - 1) as nat);
        let all = le_bytes(value, width);
        lemma_le_bytes_len(value / 256, (width - 1) as nat);
        assert(all.skip(1) =~= tail);
        lemma_le_value_of_bytes(value / 256, (width - 1) as nat);
    }
}

/// The bytes of `value` as a variable-length integer.
pub open spec fn varint_bytes(value: u64) -> Seq<u8> {
    if value <= SINGLE_BYTE_MAX {
        seq![value as u8]
    } else if value <= u16::MAX {
        seq![U16_BYTE] + le_bytes(value as nat, 2)
    } else if value <= u32::MAX {
        seq![U32_BYTE] + le_bytes(value as nat, 4)
    } else {
        seq![U64_BYTE] + le_bytes(value as nat, 8)
    }
}

/// How many bytes follow the discriminant `d`.
pub open spec fn varint_tail_len(d: u8) -> nat {
    if d <= SINGLE_BYTE_MAX {
        0
    } else if d == U16_BYTE {
        2
    } else if d == U32_BYTE {
        4
    } else {
        8
    }
}

/// What the front of a byte string is, read as a variable-length integer.
pub enum VarintParse {
    /// An integer, and the number of bytes that spell it.
    Value { value: u64, len: nat },
    /// The string ends before the integer does.
    Incomplete,
    /// The first byte is no discriminant.
    Invalid { discriminant: u8 },
}

/// Reads the front of `bytes` as a variable-length integer.
pub open spec fn varint_parse(bytes: Seq<u8>) -> VarintParse {
    if bytes.len() == 0 {
        VarintParse::Incomplete
    } else if bytes[0] > U64_BYTE {
        VarintParse::Invalid { discriminant: bytes[0] }
    } else if bytes.len() < 1 + varint_tail_len(bytes[0]) {
        VarintParse::Incomplete
    } else if bytes[0] <= SINGLE_BYTE_MAX {
        VarintParse::Value { value: bytes[0] as u64, len: 1 }
    } else {
        let n = varint_tail_len(bytes[0]);
        VarintParse::Value { value: le_value(bytes.subrange(1, 1 + n as int)) as u64, len: 1 + n }
    }
}

/// An encoded integer is its discriminant and what the discriminant
/// announces: one byte to nine.
pub proof fn lemma_varint_bytes_len(value: u64)
    ensures
        1 <= varint_bytes(value).len() <= 9,
        varint_bytes(value).len() == 1 + varint_tail_len(varint_bytes(value)[0]),
        varint_bytes(value)[0] <= U64_BYTE,
{
    lemma_le_bytes_len(value as nat, 2);
    lemma_le_bytes_len(value as nat, 4);
    lemma_le_bytes_len(value as nat, 8);
}

/// Decoding undoes encoding: an encoded integer, whatever follows it, is read
/// back as that integer and as exactly the bytes that were written for it.
pub proof fn lemma_varint_roundtrip(value: u64, rest: Seq<u8>)
    ensures
        varint_parse(varint_bytes(value) + rest) == (VarintParse::Value {
            value,
            len: varint_bytes(value).len(),
        }),
{
    let enc = varint_bytes(value);
    let all = enc + rest;
    lemma_varint_bytes_len(value);
    lemma_pow256_values();
    assert(all[0] == enc[0]);
    if value > SINGLE_BYTE_MAX {
        let n = varint_tail_len(enc[0]);
        lemma_le_bytes_len(value as nat, n);
        assert(all.subrange(1, 1 + n as int) =~= le_bytes(value as nat, n));
        lemma_le_value_of_bytes(value as nat, n);
    }
}

/// The number that eight bytes or fewer spell fits in 64 bits.
pub proof fn lemma_varint_tail_value(bytes: Seq<u8>)
    requires
        bytes.len() <= 8,
    ensures
        le_value(bytes) <= u64::MAX,
{
    lemma_le_value_bound(bytes);
    reveal_with_fuel(pow256, 9);
}

/// Why an integer could not be read.
#[derive(Debug, Clone, Copy, PartialEq, Eq, Structural)]
pub enum VarintError {
    /// The first byte is none of the discriminants of the scheme.
    InvalidDiscriminant(u8),
    /// The buffer ends before the integer does.
    UnexpectedEnd,
}

/// Reads one variable-length integer from the front of `src` and consumes it.
///
/// On an invalid discriminant that byte alone is consumed. Where the buffer
/// ends before the integer does, nothing is consumed.
pub fn get_varint_le(src: &mut BytesMut) -> (result: Result<u64, VarintError>)
    ensures
        match varint_parse(contents(*old(src))) {
            VarintParse::Value { value, len } => {
                &&& result == Ok::<u64, VarintError>(value)
                &&& contents(*final(src)) == contents(*old(src)).skip(len as int)
            },
            VarintParse::Incomplete => {
                &&& result == Err::<u64, VarintError>(VarintError::UnexpectedEnd)
                &&& contents(*final(src)) == contents(*old(src))
            },
            VarintParse::Invalid { discriminant } => {
                &&& result == Err::<u64, VarintError>(VarintError::InvalidDiscriminant(discriminant))
                &&& contents(*final(src)) == contents(*old(src)).skip(1)
            },
        },
{
    let available: usize = remaining(src);
    if available == 0 {
        return Err(VarintError::UnexpectedEnd);
    }
    let first: u8 = unread(src)[0];
    let tail: usize = if first <= SINGLE_BYTE_MAX {
        0
    } else if first == U16_BYTE {
        2
    } else if first == U32_BYTE {
        4
    } else if first == U64_BYTE {
        8
    } else {
        0
    };
    if first <= U64_BYTE && available - 1 < tail {
        return Err(VarintError::UnexpectedEnd);
    }
    let ghost before = contents(*src);
    let discriminant: u8 = get_u8(src);
    let ghost after = contents(*src);
    proof {
        assert(after.len() == before.len() - 1);
        if first > SINGLE_BYTE_MAX && first <= U64_BYTE {
            assert(after.take(tail as int) =~= before.subrange(1, 1 + tail));
            lemma_varint_tail_value(after.take(tail as int));
        }
    }
    if discriminant <= SINGLE_BYTE_MAX {
        Ok(discriminant as u64)
    } else if discriminant == U16_BYTE {
        let value: u16 = get_u16_le(src);
        assert(contents(*src) =~= before.skip(3));
        Ok(value as u64)
    } else if discriminant == U32_BYTE {
        let value: u32 = get_u32_le(src);
        assert(contents(*src) =~= before.skip(5));
        Ok(value as u64)
    } else if discriminant == U64_BYTE {
        let value: u64 = get_u64_le(src);
        assert(contents(*src) =~= before.skip(9));
        Ok(value)
    } else {
        Err(VarintError::InvalidDiscriminant(discriminant))
    }
}

/// Appends `val` to `dst` as a variable-length integer, in the shortest of
/// the four forms that holds it.
pub fn put_varint_le(dst: &mut BytesMut, val: u64)
    requires
        contents(*old(dst)).len() + 9 <= isize::MAX,
    ensures
        contents(*final(dst)) == contents(*old(dst)) + varint_bytes(val),
{
    let ghost before = contents(*dst);
    if val <= SINGLE_BYTE_MAX as u64 {
        put_u8(dst, val as u8);
        assert(contents(*dst) =~= before + varint_bytes(val));
    } else if val <= u16::MAX as u64 {
        put_u8(dst, U16_BYTE);
        put_u16_le(dst, val as u16);
        assert(contents(*dst) =~= before + varint_bytes(val));
    } else if val <= u32::MAX as u64 {
        put_u8(dst, U32_BYTE);
        put_u32_le(dst, val as u32);
        assert(contents(*dst) =~= before + varint_bytes(val));
    } else {
        put_u8(dst, U64_BYTE);
        put_u64_le(dst, val);
        assert(contents(*dst) =~= before + varint_bytes(val));
    }
}

} // verus!
