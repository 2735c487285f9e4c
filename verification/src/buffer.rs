//! The buffers of the `bytes` crate as seen by the verified code: their
//! contents are named, and each method that the codec calls has a wrapper
//! whose contract states what the method does to those contents.

use bytes::{Buf, BufMut, Bytes, BytesMut};
use vstd::prelude::*;

verus! {

#[verifier::external_type_specification]
#[verifier::external_body]
pub struct ExBytes(bytes::Bytes);

#[verifier::external_type_specification]
#[verifier::external_body]
pub struct ExBytesMut(bytes::BytesMut);

/// The bytes that a `Bytes` holds, first to last.
pub uninterp spec fn bytes_view(b: Bytes) -> Seq<u8>;

/// The bytes that a `BytesMut` holds, first to last.
pub uninterp spec fn bytes_mut_view(b: BytesMut) -> Seq<u8>;

/// Largest length that a `BytesMut` can grow to (its allocation is capped at
/// `isize::MAX` bytes).
pub open spec fn max_buffer_len() -> int {
    isize::MAX as int
}

/// Big-endian bytes of a 16-bit integer.
pub open spec fn be_u16_bytes(n: u16) -> Seq<u8> {
    seq![(n / 256) as u8, (n % 256) as u8]
}

/// The 16-bit integer whose big-endian bytes are `s[0]`, `s[1]`.
pub open spec fn be_u16_value(s: Seq<u8>) -> int {
    s[0] * 256 + s[1]
}

/// The 32-bit integer whose big-endian bytes are `s[0]` to `s[3]`.
pub open spec fn be_u32_value(s: Seq<u8>) -> int {
    s[0] * 16777216 + s[1] * 65536 + s[2] * 256 + s[3]
}

/// `BytesMut::new`: an empty buffer.
#[verifier::external_body]
fn bytes_mut_new() -> (res: BytesMut)
    ensures
        bytes_mut_view(res) == Seq::<u8>::empty(),
{
    BytesMut::new()
}

/// `BytesMut::len`: the number of bytes held.
#[verifier::external_body]
fn bytes_mut_len(buf: &BytesMut) -> (res: usize)
    ensures
        res == bytes_mut_view(*buf).len(),
{
    buf.len()
}

/// A new, empty buffer to write packets into.
pub fn empty_buffer() -> (res: BytesMut)
    ensures
        bytes_mut_view(res) == Seq::<u8>::empty(),
{
    bytes_mut_new()
}

/// The number of bytes a buffer holds.
pub fn buffer_len(buf: &BytesMut) -> (res: usize)
    ensures
        res == bytes_mut_view(*buf).len(),
{
    bytes_mut_len(buf)
}

/// `BytesMut`'s `Deref` to `[u8]`: the slice holds the buffer's bytes.
#[verifier::external_body]
pub(crate) fn bytes_mut_as_slice(buf: &BytesMut) -> (res: &[u8])
    ensures
        res@ == bytes_mut_view(*buf),
{
    &buf[..]
}

/// `BytesMut::split_to`: the first `at` bytes move into the result, the
/// rest stay. It panics when `at` exceeds the length.
#[verifier::external_body]
pub(crate) fn bytes_mut_split_to(buf: &mut BytesMut, at: usize) -> (res: BytesMut)
    requires
        at <= bytes_mut_view(*old(buf)).len(),
    ensures
        bytes_mut_view(res) == bytes_mut_view(*old(buf)).take(at as int),
        bytes_mut_view(*final(buf)) == bytes_mut_view(*old(buf)).skip(at as int),
{
    buf.split_to(at)
}

/// `BufMut::put_slice` on a `BytesMut`: appends `src`, growing the buffer.
#[verifier::external_body]
pub(crate) fn bytes_mut_put_slice(buf: &mut BytesMut, src: &[u8])
    requires
        bytes_mut_view(*old(buf)).len() + src@.len() <= max_buffer_len(),
    ensures
        bytes_mut_view(*final(buf)) == bytes_mut_view(*old(buf)) + src@,
{
    buf.put_slice(src)
}

/// `BytesMut::extend_from_slice`: appends `src`, growing the buffer.
#[verifier::external_body]
pub(crate) fn bytes_mut_extend_from_slice(buf: &mut BytesMut, src: &[u8])
    requires
        bytes_mut_view(*old(buf)).len() + src@.len() <= max_buffer_len(),
    ensures
        bytes_mut_view(*final(buf)) == bytes_mut_view(*old(buf)) + src@,
{
    buf.extend_from_slice(src)
}

/// `BufMut::put_u8` on a `BytesMut`: appends one byte.
#[verifier::external_body]
pub(crate) fn bytes_mut_put_u8(buf: &mut BytesMut, n: u8)
    requires
        bytes_mut_view(*old(buf)).len() + 1 <= max_buffer_len(),
    ensures
        bytes_mut_view(*final(buf)) == bytes_mut_view(*old(buf)).push(n),
{
    buf.put_u8(n)
}

/// `BufMut::put_u16` on a `BytesMut`: appends the two big-endian bytes of `n`.
#[verifier::external_body]
pub(crate) fn bytes_mut_put_u16(buf: &mut BytesMut, n: u16)
    requires
        bytes_mut_view(*old(buf)).len() + 2 <= max_buffer_len(),
    ensures
        bytes_mut_view(*final(buf)) == bytes_mut_view(*old(buf)) + be_u16_bytes(n),
{
    buf.put_u16(n)
}

/// `Bytes::len`: the number of bytes held.
#[verifier::external_body]
pub(crate) fn bytes_len(buf: &Bytes) -> (res: usize)
    ensures
        res == bytes_view(*buf).len(),
{
    buf.len()
}

/// `Bytes::is_empty`: whether no byte is held.
#[verifier::external_body]
pub(crate) fn bytes_is_empty(buf: &Bytes) -> (res: bool)
    ensures
        res == (bytes_view(*buf).len() == 0),
{
    buf.is_empty()
}

/// `Bytes`'s `Deref` to `[u8]`: the slice holds the buffer's bytes.
#[verifier::external_body]
pub(crate) fn bytes_as_slice(buf: &Bytes) -> (res: &[u8])
    ensures
        res@ == bytes_view(*buf),
{
    &buf[..]
}

/// `Bytes::split_to`: the first `at` bytes move into the result, the rest
/// stay. It panics when `at` exceeds the length.
#[verifier::external_body]
pub(crate) fn bytes_split_to(buf: &mut Bytes, at: usize) -> (res: Bytes)
    requires
        at <= bytes_view(*old(buf)).len(),
    ensures
        bytes_view(res) == bytes_view(*old(buf)).take(at as int),
        bytes_view(*final(buf)) == bytes_view(*old(buf)).skip(at as int),
{
    buf.split_to(at)
}

/// `Buf::get_u8` on `Bytes`: takes the first byte off. It panics on an
/// empty buffer.
#[verifier::external_body]
pub(crate) fn bytes_get_u8(buf: &mut Bytes) -> (res: u8)
    requires
        bytes_view(*old(buf)).len() >= 1,
    ensures
        res == bytes_view(*old(buf))[0],
        bytes_view(*final(buf)) == bytes_view(*old(buf)).skip(1),
{
    buf.get_u8()
}

/// `Buf::get_u16` on `Bytes`: takes two bytes off and reads them as a
/// big-endian integer. It panics when fewer than two bytes are held.
#[verifier::external_body]
pub(crate) fn bytes_get_u16(buf: &mut Bytes) -> (res: u16)
    requires
        bytes_view(*old(buf)).len() >= 2,
    ensures
        res == be_u16_value(bytes_view(*old(buf))),
        bytes_view(*final(buf)) == bytes_view(*old(buf)).skip(2),
{
    buf.get_u16()
}

/// `Buf::get_u32` on `Bytes`: takes four bytes off and reads them as a
/// big-endian integer. It panics when fewer than four bytes are held.
#[verifier::external_body]
pub(crate) fn bytes_get_u32(buf: &mut Bytes) -> (res: u32)
    requires
        bytes_view(*old(buf)).len() >= 4,
    ensures
        res == be_u32_value(bytes_view(*old(buf))),
        bytes_view(*final(buf)) == bytes_view(*old(buf)).skip(4),
{
    buf.get_u32()
}

} // verus!
