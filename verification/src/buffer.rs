//! The byte buffer that frames are read from and written to.
//!
//! The buffer is `bytes::BytesMut`. Verus does not look inside it: what it
//! holds is named by [`contents`], and every operation on it that the codec
//! uses is stated here over that name, without proof.

use bytes::{Buf, BufMut, BytesMut};
use vstd::prelude::*;

use crate::encoding::{le_bytes, le_value};

verus! {

/// `bytes::BytesMut`, as a type whose inside is not looked at.
#[verifier::external_type_specification]
#[verifier::external_body]
pub struct ExBytesMut(BytesMut);

/// The unread bytes of a buffer, in the order in which they will be read.
pub uninterp spec fn contents(buf: BytesMut) -> Seq<u8>;

/// `Buf::remaining` on `BytesMut`: the number of unread bytes.
#[verifier::external_body]
pub(crate) fn remaining(buf: &BytesMut) -> (n: usize)
    ensures
        n == contents(*buf).len(),
{
    buf.remaining()
}

/// `Deref::deref` on `BytesMut`: the unread bytes as a slice, nothing
/// consumed.
#[verifier::external_body]
pub(crate) fn unread(buf: &BytesMut) -> (bytes: &[u8])
    ensures
        bytes@ == contents(*buf),
{
    &buf[..]
}

/// `Buf::advance` on `BytesMut`: drops the first `cnt` unread bytes. The
/// outside function panics when fewer are left, which `requires` excludes.
#[verifier::external_body]
pub(crate) fn advance(buf: &mut BytesMut, cnt: usize)
    requires
        cnt <= contents(*old(buf)).len(),
    ensures
        contents(*final(buf)) == contents(*old(buf)).skip(cnt as int),
{
    buf.advance(cnt)
}

/// `Buf::get_u8`: reads and consumes one byte. Panics on an empty buffer,
/// which `requires` excludes.
#[verifier::external_body]
pub(crate) fn get_u8(buf: &mut BytesMut) -> (value: u8)
    requires
        contents(*old(buf)).len() >= 1,
    ensures
        value == contents(*old(buf))[0],
        contents(*final(buf)) == contents(*old(buf)).skip(1),
{
    buf.get_u8()
}

/// `Buf::get_u16_le`: reads and consumes two bytes as a little-endian
/// integer. Panics when fewer than two are left, which `requires` excludes.
#[verifier::external_body]
pub(crate) fn get_u16_le(buf: &mut BytesMut) -> (value: u16)
    requires
        contents(*old(buf)).len() >= 2,
    ensures
        value == le_value(contents(*old(buf)).take(2)),
        contents(*final(buf)) == contents(*old(buf)).skip(2),
{
    buf.get_u16_le()
}

/// `Buf::get_u32_le`: reads and consumes four bytes as a little-endian
/// integer. Panics when fewer than four are left, which `requires` excludes.
#[verifier::external_body]
pub(crate) fn get_u32_le(buf: &mut BytesMut) -> (value: u32)
    requires
        contents(*old(buf)).len() >= 4,
    ensures
        value == le_value(contents(*old(buf)).take(4)),
        contents(*final(buf)) == contents(*old(buf)).skip(4),
{
    buf.get_u32_le()
}

/// `Buf::get_u64_le`: reads and consumes eight bytes as a little-endian
/// integer. Panics when fewer than eight are left, which `requires` excludes.
#[verifier::external_body]
pub(crate) fn get_u64_le(buf: &mut BytesMut) -> (value: u64)
    requires
        contents(*old(buf)).len() >= 8,
    ensures
        value == le_value(contents(*old(buf)).take(8)),
        contents(*final(buf)) == contents(*old(buf)).skip(8),
{
    buf.get_u64_le()
}

/// `BufMut::put_u8` on `BytesMut`: appends one byte, growing the buffer as
/// needed. It panics only when the new length cannot be allocated, which
/// `requires` excludes.
#[verifier::external_body]
pub(crate) fn put_u8(buf: &mut BytesMut, value: u8)
    requires
        contents(*old(buf)).len() + 1 <= isize::MAX,
    ensures
        contents(*final(buf)) == contents(*old(buf)).push(value),
{
    buf.put_u8(value)
}

/// `BufMut::put_u16_le` on `BytesMut`: appends the two little-endian bytes
/// of `value`.
#[verifier::external_body]
pub(crate) fn put_u16_le(buf: &mut BytesMut, value: u16)
    requires
        contents(*old(buf)).len() + 2 <= isize::MAX,
    ensures
        contents(*final(buf)) == contents(*old(buf)) + le_bytes(value as nat, 2),
{
    buf.put_u16_le(value)
}

/// `BufMut::put_u32_le` on `BytesMut`: appends the four little-endian bytes
/// of `value`.
#[verifier::external_body]
pub(crate) fn put_u32_le(buf: &mut BytesMut, value: u32)
    requires
        contents(*old(buf)).len() + 4 <= isize::MAX,
    ensures
        contents(*final(buf)) == contents(*old(buf)) + le_bytes(value as nat, 4),
{
    buf.put_u32_le(value)
}

/// `BufMut::put_u64_le` on `BytesMut`: appends the eight little-endian bytes
/// of `value`.
#[verifier::external_body]
pub(crate) fn put_u64_le(buf: &mut BytesMut, value: u64)
    requires
        contents(*old(buf)).len() + 8 <= isize::MAX,
    ensures
        contents(*final(buf)) == contents(*old(buf)) + le_bytes(value as nat, 8),
{
    buf.put_u64_le(value)
}

/// `BufMut::put_slice` on `BytesMut`: appends `src`, growing the buffer as
/// needed.
#[verifier::external_body]
pub(crate) fn put_slice(buf: &mut BytesMut, src: &[u8])
    requires
        contents(*old(buf)).len() + src@.len() <= isize::MAX,
    ensures
        contents(*final(buf)) == contents(*old(buf)) + src@,
{
    buf.put_slice(src)
}

} // verus!
