//! The fields inside MQTT packets: big-endian integers, and binary data and
//! strings written as a two-byte big-endian length followed by the bytes.

use crate::buffer::{
    be_u16_bytes, be_u16_value, be_u32_value, bytes_as_slice, bytes_get_u16, bytes_get_u32,
    bytes_get_u8, bytes_is_empty, bytes_len, bytes_mut_extend_from_slice, bytes_mut_put_u16,
    bytes_mut_view, bytes_split_to, bytes_view, max_buffer_len,
};
use crate::error::Error;
use bytes::{Bytes, BytesMut};
use vstd::prelude::*;
use vstd::utf8::{decode_utf8, encode_utf8, valid_utf8};

verus! {

/// Largest number of bytes that a two-byte length prefix can announce.
pub const MAX_BINARY_LEN: usize = 65535;

/// `std::str::from_utf8`: the bytes as a string slice when they are valid
/// UTF-8, and `None` (in place of the `Utf8Error`) when they are not.
#[verifier::external_body]
fn str_from_utf8(v: &[u8]) -> (res: Option<&str>)
    ensures
        res is Some <==> valid_utf8(v@),
        res matches Some(s) ==> s@ == decode_utf8(v@),
{
    std::str::from_utf8(v).ok()
}

/// A buffer result seen through the buffer's contents.
pub open spec fn bytes_result_view(r: Result<Bytes, Error>) -> Result<Seq<u8>, Error> {
    match r {
        Ok(b) => Ok(bytes_view(b)),
        Err(e) => Err(e),
    }
}

/// A string result seen through the string's characters.
pub open spec fn string_result_view(r: Result<String, Error>) -> Result<Seq<char>, Error> {
    match r {
        Ok(s) => Ok(s@),
        Err(e) => Err(e),
    }
}

/// How binary data is written: its length as two big-endian bytes, then
/// the data.
pub open spec fn mqtt_bytes_encoding(b: Seq<u8>) -> Seq<u8> {
    be_u16_bytes(b.len() as u16) + b
}

/// Reading length-prefixed binary data from `s`: the data read (or why
/// not) and what stays in the stream. A stream too short for the prefix is
/// malformed and stays as it is; a prefix announcing more bytes than follow
/// crosses the promised boundary, and the prefix is consumed.
pub open spec fn read_mqtt_bytes_spec(s: Seq<u8>) -> (Result<Seq<u8>, Error>, Seq<u8>) {
    if s.len() < 2 {
        (Err(Error::MalformedPacket), s)
    } else {
        let len = be_u16_value(s);
        let rest = s.skip(2);
        if len > rest.len() {
            (Err(Error::BoundaryCrossed(len as usize)), rest)
        } else {
            (Ok(rest.take(len)), rest.skip(len))
        }
    }
}

/// Reading a length-prefixed string from `s`: the binary data, decoded as
/// UTF-8.
pub open spec fn read_mqtt_string_spec(s: Seq<u8>) -> (Result<Seq<char>, Error>, Seq<u8>) {
    let (r, rest) = read_mqtt_bytes_spec(s);
    match r {
        Err(e) => (Err(e), rest),
        Ok(b) => if valid_utf8(b) {
            (Ok(decode_utf8(b)), rest)
        } else {
            (Err(Error::TopicNotUtf8), rest)
        },
    }
}

/// After collecting enough bytes to frame a packet (packet's `frame()`)
/// , It's possible that content itself in the stream is wrong. Like expected
/// packet id or qos not being present. In cases where `read_mqtt_string` or
/// `read_mqtt_bytes` exhausted remaining length but packet framing expects to
/// parse qos next, these pre checks will prevent `bytes` crashes
pub fn read_u16(stream: &mut Bytes) -> (res: Result<u16, Error>)
    ensures
        bytes_view(*old(stream)).len() < 2 ==> res == Err::<u16, Error>(Error::MalformedPacket)
            && bytes_view(*final(stream)) == bytes_view(*old(stream)),
        bytes_view(*old(stream)).len() >= 2 ==> res == Ok::<u16, Error>(
            be_u16_value(bytes_view(*old(stream))) as u16,
        ) && bytes_view(*final(stream)) == bytes_view(*old(stream)).skip(2),
{
    if bytes_len(stream) < 2 {
        return Err(Error::MalformedPacket);
    }

    Ok(bytes_get_u16(stream))
}

/// Takes one byte off the stream, or reports a malformed packet when none
/// is left.
pub fn read_u8(stream: &mut Bytes) -> (res: Result<u8, Error>)
    ensures
        bytes_view(*old(stream)).len() == 0 ==> res == Err::<u8, Error>(Error::MalformedPacket)
            && bytes_view(*final(stream)) == bytes_view(*old(stream)),
        bytes_view(*old(stream)).len() >= 1 ==> res == Ok::<u8, Error>(
            bytes_view(*old(stream))[0],
        ) && bytes_view(*final(stream)) == bytes_view(*old(stream)).skip(1),
{
    if bytes_is_empty(stream) {
        return Err(Error::MalformedPacket);
    }

    Ok(bytes_get_u8(stream))
}

/// Takes a big-endian 32-bit integer off the stream, or reports a malformed
/// packet when fewer than four bytes are left.
pub fn read_u32(stream: &mut Bytes) -> (res: Result<u32, Error>)
    ensures
        bytes_view(*old(stream)).len() < 4 ==> res == Err::<u32, Error>(Error::MalformedPacket)
            && bytes_view(*final(stream)) == bytes_view(*old(stream)),
        bytes_view(*old(stream)).len() >= 4 ==> res == Ok::<u32, Error>(
            be_u32_value(bytes_view(*old(stream))) as u32,
        ) && bytes_view(*final(stream)) == bytes_view(*old(stream)).skip(4),
{
    if bytes_len(stream) < 4 {
        return Err(Error::MalformedPacket);
    }

    Ok(bytes_get_u32(stream))
}

/// Reads a series of bytes with a length from a byte stream
pub fn read_mqtt_bytes(stream: &mut Bytes) -> (res: Result<Bytes, Error>)
    ensures
        bytes_result_view(res) == read_mqtt_bytes_spec(bytes_view(*old(stream))).0,
        bytes_view(*final(stream)) == read_mqtt_bytes_spec(bytes_view(*old(stream))).1,
{
    let len = match read_u16(stream) {
        Ok(len) => len as usize,
        Err(e) => return Err(e),
    };

    // Prevent attacks with wrong remaining length. This method is used in
    // `packet.assembly()` with (enough) bytes to frame packet. Ensures that
    // reading variable len string or bytes doesn't cross promised boundary
    // with `read_fixed_header()`
    if len > bytes_len(stream) {
        return Err(Error::BoundaryCrossed(len));
    }

    Ok(bytes_split_to(stream, len))
}

/// Reads a string from bytes stream
pub fn read_mqtt_string(stream: &mut Bytes) -> (res: Result<String, Error>)
    ensures
        string_result_view(res) == read_mqtt_string_spec(bytes_view(*old(stream))).0,
        bytes_view(*final(stream)) == read_mqtt_string_spec(bytes_view(*old(stream))).1,
{
    let bytes = match read_mqtt_bytes(stream) {
        Ok(b) => b,
        Err(e) => return Err(e),
    };
    match str_from_utf8(bytes_as_slice(&bytes)) {
        Some(v) => Ok(v.to_owned()),
        None => Err(Error::TopicNotUtf8),
    }
}

/// Serializes bytes to stream (including length)
pub fn write_mqtt_bytes(stream: &mut BytesMut, bytes: &[u8]) -> (res: Result<(), Error>)
    requires
        bytes@.len() <= MAX_BINARY_LEN ==> bytes_mut_view(*old(stream)).len() + 2 + bytes@.len()
            <= max_buffer_len(),
    ensures
        bytes@.len() > MAX_BINARY_LEN ==> res == Err::<(), Error>(Error::BinaryDataTooLong)
            && bytes_mut_view(*final(stream)) == bytes_mut_view(*old(stream)),
        bytes@.len() <= MAX_BINARY_LEN ==> res == Ok::<(), Error>(()) && bytes_mut_view(
            *final(stream),
        ) == bytes_mut_view(*old(stream)) + mqtt_bytes_encoding(bytes@),
{
    let len = match u16::try_from(bytes.len()) {
        Ok(len) => len,
        Err(_) => return Err(Error::BinaryDataTooLong),
    };
    bytes_mut_put_u16(stream, len);
    bytes_mut_extend_from_slice(stream, bytes);
    proof {
        assert(bytes_mut_view(*final(stream)) =~= bytes_mut_view(*old(stream))
            + mqtt_bytes_encoding(bytes@));
    }
    Ok(())
}

/// Serializes a string to stream
pub fn write_mqtt_string(stream: &mut BytesMut, string: &String) -> (res: Result<(), Error>)
    requires
        encode_utf8(string@).len() <= MAX_BINARY_LEN ==> bytes_mut_view(*old(stream)).len() + 2
            + encode_utf8(string@).len() <= max_buffer_len(),
    ensures
        encode_utf8(string@).len() > MAX_BINARY_LEN ==> res == Err::<(), Error>(
            Error::BinaryDataTooLong,
        ) && bytes_mut_view(*final(stream)) == bytes_mut_view(*old(stream)),
        encode_utf8(string@).len() <= MAX_BINARY_LEN ==> res == Ok::<(), Error>(())
            && bytes_mut_view(*final(stream)) == bytes_mut_view(*old(stream))
            + mqtt_bytes_encoding(encode_utf8(string@)),
{
    write_mqtt_bytes(stream, string.as_str().as_bytes())
}

/// The string that a literal stands for, as the library keeps strings.
pub fn mqtt_string_new(str: &'static str) -> (res: String)
    ensures
        res@ == str@,
{
    str.to_owned()
}

proof fn lemma_be_u16_roundtrip(n: u16)
    ensures
        be_u16_value(be_u16_bytes(n)) == n,
{
}

/// Reading back written binary data: reading length-prefixed data from its
/// encoding, whatever follows, gives the data and leaves what follows.
pub proof fn lemma_mqtt_bytes_roundtrip(b: Seq<u8>, rest: Seq<u8>)
    requires
        b.len() <= MAX_BINARY_LEN,
    ensures
        read_mqtt_bytes_spec(mqtt_bytes_encoding(b) + rest) == (
            Ok::<Seq<u8>, Error>(b),
            rest,
        ),
{
    let s = mqtt_bytes_encoding(b) + rest;
    lemma_be_u16_roundtrip(b.len() as u16);
    assert(s[0] == be_u16_bytes(b.len() as u16)[0]);
    assert(s[1] == be_u16_bytes(b.len() as u16)[1]);
    assert(be_u16_value(s) == b.len());
    assert(s.skip(2) =~= b + rest);
    assert((b + rest).take(b.len() as int) =~= b);
    assert((b + rest).skip(b.len() as int) =~= rest);
}

/// Reading back a written string: reading a length-prefixed string from
/// the encoding of a string's UTF-8 bytes, whatever follows, gives the
/// string and leaves what follows.
pub proof fn lemma_mqtt_string_roundtrip(chars: Seq<char>, rest: Seq<u8>)
    requires
        encode_utf8(chars).len() <= MAX_BINARY_LEN,
    ensures
        read_mqtt_string_spec(mqtt_bytes_encoding(encode_utf8(chars)) + rest) == (
            Ok::<Seq<char>, Error>(chars),
            rest,
        ),
{
    lemma_mqtt_bytes_roundtrip(encode_utf8(chars), rest);
    vstd::utf8::encode_utf8_valid_utf8(chars);
    vstd::utf8::encode_utf8_decode_utf8(chars);
}

} // verus!
