//! The fixed header that starts every MQTT packet: its first byte (packet
//! type and flags) and the remaining length, a variable byte integer of one
//! to four bytes, seven bits per byte, least significant group first, with
//! the top bit of a byte set when another byte follows.

use crate::buffer::{bytes_mut_put_u8, bytes_mut_view, max_buffer_len};
use crate::error::Error;
use bytes::BytesMut;
use vstd::prelude::*;
use std::slice::Iter;
use vstd::slice::slice_subrange;
use vstd::std_specs::iter::IteratorSpec;

verus! {

/// Largest remaining length that four bytes can encode.
pub const MAX_REMAINING_LENGTH: usize = 268_435_455;

/// `128` raised to the `i`-th power: the weight of the `i`-th seven-bit
/// group of a variable byte integer.
pub open spec fn pow128(i: nat) -> nat
    decreases i,
{
    if i == 0 {
        1
    } else {
        128 * pow128((i - 1) as nat)
    }
}

/// The number that the first `n` bytes of `s` encode as a variable byte
/// integer: the low seven bits of byte `i` weigh `128^i`.
pub open spec fn vbi_value(s: Seq<u8>, n: nat) -> nat
    decreases n,
{
    if n == 0 {
        0
    } else {
        vbi_value(s, (n - 1) as nat) + (s[n - 1] % 128) as nat * pow128((n - 1) as nat)
    }
}

/// Decoding of a remaining length from `s`, looking at byte `i` onward,
/// where every byte before `i` had its continuation bit set.
/// The byte that ends the number has the top bit clear; a fourth byte with
/// the top bit set makes the length malformed; a stream that ends first
/// needs one more byte.
pub open spec fn decode_remaining_length_from(s: Seq<u8>, i: nat) -> Result<(usize, usize), Error>
    decreases 4 - i,
{
    if i >= s.len() {
        Err(Error::InsufficientBytes(1))
    } else if s[i as int] < 128 {
        Ok(((i + 1) as usize, vbi_value(s, i + 1) as usize))
    } else if i >= 3 {
        Err(Error::MalformedRemainingLength)
    } else {
        decode_remaining_length_from(s, i + 1)
    }
}

/// Decoding of the remaining length at the start of `s`: on success, the
/// number of bytes it takes and its value.
pub open spec fn decode_remaining_length(s: Seq<u8>) -> Result<(usize, usize), Error> {
    decode_remaining_length_from(s, 0)
}

/// The encoding of a remaining length: seven bits per byte, least
/// significant group first, the top bit set on every byte but the last.
pub open spec fn encode_remaining_length(n: nat) -> Seq<u8>
    decreases n,
{
    if n < 128 {
        seq![n as u8]
    } else {
        seq![(n % 128 + 128) as u8] + encode_remaining_length(n / 128)
    }
}

proof fn lemma_vbi_value_bound(s: Seq<u8>, n: nat)
    ensures
        vbi_value(s, n) < pow128(n),
    decreases n,
{
    if n > 0 {
        lemma_vbi_value_bound(s, (n - 1) as nat);
        let d = (s[n - 1] % 128) as nat;
        let p = pow128((n - 1) as nat);
        assert(d * p + p <= 128 * p) by (nonlinear_arith)
            requires
                d < 128,
        ;
    }
}

/// Parses variable byte integer in the stream and returns the length
/// and number of bytes that make it. Used for remaining length calculation
/// as well as for calculating property lengths
fn length(stream: &[u8]) -> (res: Result<(usize, usize), Error>)
    ensures
        res == decode_remaining_length(stream@),
{
    let mut len: usize = 0;
    let mut len_len: usize = 0;
    let mut weight: usize = 1;

    // Use continuation bit at position 7 to continue reading next
    // byte to frame 'length'.
    while len_len < stream.len()
        invariant
            len_len <= 3,
            weight == pow128(len_len as nat),
            len == vbi_value(stream@, len_len as nat),
            decode_remaining_length(stream@) == decode_remaining_length_from(
                stream@,
                len_len as nat,
            ),
        decreases stream.len() - len_len,
    {
        let byte = stream[len_len];
        proof {
            lemma_vbi_value_bound(stream@, len_len as nat);
            reveal_with_fuel(pow128, 4);
            assert((byte % 128) as nat * weight + len < 128 * weight) by (nonlinear_arith)
                requires
                    len < weight,
                    byte % 128 < 128,
            ;
        }
        len = len + (byte % 128) as usize * weight;
        len_len = len_len + 1;

        // stop when continue bit is 0
        if byte < 128 {
            return Ok((len_len, len));
        }
        // Only a max of 4 bytes allowed for remaining length
        if len_len >= 4 {
            return Err(Error::MalformedRemainingLength);
        }
        weight = weight * 128;
    }

    // Not enough bytes to frame remaining length. wait for
    // one more byte
    Err(Error::InsufficientBytes(1))
}


/// MQTT packet type
#[derive(Debug, Clone, Copy, PartialEq, Eq)]
pub enum PacketType {
    Connect,
    ConnAck,
    Publish,
    PubAck,
    PubRec,
    PubRel,
    PubComp,
    Subscribe,
    SubAck,
    Unsubscribe,
    UnsubAck,
    PingReq,
    PingResp,
    Disconnect,
}

/// The MQTT control packet type number of a packet type (1 to 14).
pub open spec fn packet_type_number(t: PacketType) -> u8 {
    match t {
        PacketType::Connect => 1,
        PacketType::ConnAck => 2,
        PacketType::Publish => 3,
        PacketType::PubAck => 4,
        PacketType::PubRec => 5,
        PacketType::PubRel => 6,
        PacketType::PubComp => 7,
        PacketType::Subscribe => 8,
        PacketType::SubAck => 9,
        PacketType::Unsubscribe => 10,
        PacketType::UnsubAck => 11,
        PacketType::PingReq => 12,
        PacketType::PingResp => 13,
        PacketType::Disconnect => 14,
    }
}

impl PacketType {
    /// The MQTT control packet type number of this type, as it stands in
    /// the high four bits of a packet's first byte.
    pub fn number(self) -> (n: u8)
        ensures
            n == packet_type_number(self),
            packet_type_from_number(n) == Some(self),
    {
        match self {
            PacketType::Connect => 1,
            PacketType::ConnAck => 2,
            PacketType::Publish => 3,
            PacketType::PubAck => 4,
            PacketType::PubRec => 5,
            PacketType::PubRel => 6,
            PacketType::PubComp => 7,
            PacketType::Subscribe => 8,
            PacketType::SubAck => 9,
            PacketType::Unsubscribe => 10,
            PacketType::UnsubAck => 11,
            PacketType::PingReq => 12,
            PacketType::PingResp => 13,
            PacketType::Disconnect => 14,
        }
    }
}

/// The packet type that the number `num` (the high four bits of the first
/// byte) stands for, if any.
pub open spec fn packet_type_from_number(num: u8) -> Option<PacketType> {
    match num {
        1 => Some(PacketType::Connect),
        2 => Some(PacketType::ConnAck),
        3 => Some(PacketType::Publish),
        4 => Some(PacketType::PubAck),
        5 => Some(PacketType::PubRec),
        6 => Some(PacketType::PubRel),
        7 => Some(PacketType::PubComp),
        8 => Some(PacketType::Subscribe),
        9 => Some(PacketType::SubAck),
        10 => Some(PacketType::Unsubscribe),
        11 => Some(PacketType::UnsubAck),
        12 => Some(PacketType::PingReq),
        13 => Some(PacketType::PingResp),
        14 => Some(PacketType::Disconnect),
        _ => None,
    }
}

/// A packet type's number identifies it: the type that a number stands for
/// has that number.
pub proof fn lemma_packet_type_number_inverse(t: PacketType, num: u8)
    ensures
        packet_type_from_number(packet_type_number(t)) == Some(t),
        packet_type_from_number(num) matches Some(u) ==> packet_type_number(u) == num,
{
}

/// The packet type of a packet whose first byte is `byte1`, or the error
/// that names the type number when it stands for none.
pub open spec fn packet_type_of(byte1: u8) -> Result<PacketType, Error> {
    match packet_type_from_number(byte1 / 16) {
        Some(t) => Ok(t),
        None => Err(Error::InvalidPacketType(byte1 / 16)),
    }
}

/// Packet type from a byte
///
/// ```ignore
///          7                          3                          0
///          +--------------------------+--------------------------+
/// byte 1   | MQTT Control Packet Type | Flags for each type      |
///          +--------------------------+--------------------------+
///          |         Remaining Bytes Len  (1/2/3/4 bytes)        |
///          +-----------------------------------------------------+
///
/// <https://docs.oasis-open.org/mqtt/mqtt/v3.1.1/os/mqtt-v3.1.1-os.html#_Toc385349207>
/// ```
#[derive(Debug, Clone, Copy, PartialEq, Eq, PartialOrd)]
pub struct FixedHeader {
    /// First byte of the stream. Used to identify packet types and
    /// several flags
    byte1: u8,
    /// Length of fixed header. Byte 1 + (1..4) bytes. So fixed header
    /// len can vary from 2 bytes to 5 bytes
    /// 1..4 bytes are variable length encoded to represent remaining length
    fixed_header_len: usize,
    /// Remaining length of the packet. Doesn't include fixed header bytes
    /// Represents variable header + payload size
    remaining_len: usize,
}

/// What a fixed header holds: its first byte, its own length in bytes
/// and the remaining length of the packet.
pub type FixedHeaderView = (u8, usize, usize);

impl View for FixedHeader {
    type V = FixedHeaderView;

    closed spec fn view(&self) -> FixedHeaderView {
        (self.byte1, self.fixed_header_len, self.remaining_len)
    }
}

/// Size of a full frame (fixed header, variable header and payload).
pub open spec fn frame_length_of(h: FixedHeaderView) -> int {
    h.1 + h.2
}

impl FixedHeader {
    pub fn new(byte1: u8, remaining_len_len: usize, remaining_len: usize) -> (h: FixedHeader)
        requires
            remaining_len_len < usize::MAX,
        ensures
            h@ == (byte1, (remaining_len_len + 1) as usize, remaining_len),
    {
        FixedHeader { byte1, fixed_header_len: remaining_len_len + 1, remaining_len }
    }

    pub fn packet_type(&self) -> (res: Result<PacketType, Error>)
        ensures
            res == packet_type_of(self@.0),
            res matches Ok(t) ==> packet_type_number(t) == self@.0 / 16,
            res is Err ==> res == Err::<PacketType, Error>(Error::InvalidPacketType(self@.0 / 16)),
    {
        proof {
            lemma_packet_type_is_high_nibble(self@.0);
        }
        let byte1 = self.byte1;
        let num = byte1 >> 4;
        assert(num == byte1 / 16) by (bit_vector)
            requires
                num == byte1 >> 4,
        ;
        match num {
            1 => Ok(PacketType::Connect),
            2 => Ok(PacketType::ConnAck),
            3 => Ok(PacketType::Publish),
            4 => Ok(PacketType::PubAck),
            5 => Ok(PacketType::PubRec),
            6 => Ok(PacketType::PubRel),
            7 => Ok(PacketType::PubComp),
            8 => Ok(PacketType::Subscribe),
            9 => Ok(PacketType::SubAck),
            10 => Ok(PacketType::Unsubscribe),
            11 => Ok(PacketType::UnsubAck),
            12 => Ok(PacketType::PingReq),
            13 => Ok(PacketType::PingResp),
            14 => Ok(PacketType::Disconnect),
            _ => Err(Error::InvalidPacketType(num)),
        }
    }

    /// Returns the size of full packet (fixed header + variable header + payload)
    /// Fixed header is enough to get the size of a frame in the stream
    pub fn frame_length(&self) -> (n: usize)
        requires
            frame_length_of(self@) <= usize::MAX,
        ensures
            n == frame_length_of(self@),
    {
        self.fixed_header_len + self.remaining_len
    }

    /// The remaining length: size of variable header and payload.
    pub(crate) fn remaining_len(&self) -> (n: usize)
        ensures
            n == self@.2,
    {
        self.remaining_len
    }
}

/// Parsing of the fixed header at the start of `s`: at least two bytes, the
/// first byte, then the remaining length.
pub open spec fn parse_fixed_header_spec(s: Seq<u8>) -> Result<FixedHeaderView, Error> {
    if s.len() < 2 {
        Err(Error::InsufficientBytes((2 - s.len()) as usize))
    } else {
        match decode_remaining_length(s.drop_first()) {
            Ok((len_len, len)) => Ok((s[0], (len_len + 1) as usize, len)),
            Err(e) => Err(e),
        }
    }
}

/// What [`check`] answers on the stream `s`: the fixed header when a full
/// frame of a size within `max_packet_size` is there, else why not.
pub open spec fn check_spec(s: Seq<u8>, max_packet_size: Option<usize>) -> Result<
    FixedHeaderView,
    Error,
> {
    match parse_fixed_header_spec(s) {
        Err(e) => Err(e),
        Ok(h) => {
            if max_packet_size is Some && h.2 > max_packet_size->0 {
                Err(Error::PayloadSizeLimitExceeded { pkt_size: h.2, max: max_packet_size->0 })
            } else if s.len() < frame_length_of(h) {
                Err(Error::InsufficientBytes((frame_length_of(h) - s.len()) as usize))
            } else {
                Ok(h)
            }
        },
    }
}

/// A fixed header's result seen through its view.
pub open spec fn header_result_view(r: Result<FixedHeader, Error>) -> Result<FixedHeaderView, Error> {
    match r {
        Ok(h) => Ok(h@),
        Err(e) => Err(e),
    }
}

proof fn lemma_decoded_length_bounds(s: Seq<u8>, i: nat)
    requires
        i <= 3,
    ensures
        decode_remaining_length_from(s, i) matches Ok((len_len, len)) ==> 1 <= len_len <= 4
            && len <= MAX_REMAINING_LENGTH,
    decreases 4 - i,
{
    if i < s.len() && s[i as int] < 128 {
        lemma_vbi_value_bound(s, i + 1);
        reveal_with_fuel(pow128, 5);
    } else if i < s.len() && i < 3 {
        lemma_decoded_length_bounds(s, i + 1);
    }
}

/// What a parsed fixed header holds: a header length of two to five bytes
/// and a remaining length that four bytes can encode.
pub proof fn lemma_parsed_header_bounds(s: Seq<u8>)
    ensures
        parse_fixed_header_spec(s) matches Ok(h) ==> 2 <= h.1 <= 5 && h.2
            <= MAX_REMAINING_LENGTH,
{
    lemma_decoded_length_bounds(s.drop_first(), 0);
}

/// Parses fixed header
pub(crate) fn parse_fixed_header(stream: &[u8]) -> (res: Result<FixedHeader, Error>)
    ensures
        header_result_view(res) == parse_fixed_header_spec(stream@),
{
    // At least 2 bytes are necessary to frame a packet
    let stream_len = stream.len();
    if stream_len < 2 {
        return Err(Error::InsufficientBytes(2 - stream_len));
    }
    let byte1 = stream[0];
    let rest = slice_subrange(stream, 1, stream_len);
    assert(rest@ == stream@.drop_first());
    proof {
        lemma_decoded_length_bounds(rest@, 0);
    }
    let (len_len, len) = match length(rest) {
        Ok(v) => v,
        Err(e) => return Err(e),
    };
    Ok(FixedHeader::new(byte1, len_len, len))
}

/// `std::slice::Iter::as_slice`: the bytes the iterator has yet to yield.
#[verifier::external_body]
fn iter_as_slice<'a>(stream: &Iter<'a, u8>) -> (res: &'a [u8])
    ensures
        res@ == stream.remaining().unref(),
{
    stream.as_slice()
}

/// Checks if the stream has enough bytes to frame a packet and returns fixed header
/// only if a packet can be framed with existing bytes in the `stream`.
/// The passed stream doesn't modify parent stream's cursor. If this function
/// returned an error, next `check` on the same parent stream is forced start
/// with cursor at 0 again
pub fn check(stream: Iter<u8>, max_packet_size: Option<usize>) -> (res: Result<FixedHeader, Error>)
    ensures
        header_result_view(res) == check_spec(stream.remaining().unref(), max_packet_size),
{
    let stream = iter_as_slice(&stream);
    // Create fixed header if there are enough bytes in the stream
    // to frame full packet
    let stream_len = stream.len();
    let fixed_header = match parse_fixed_header(stream) {
        Ok(h) => h,
        Err(e) => return Err(e),
    };
    proof {
        lemma_parsed_header_bounds(stream@);
    }

    // Don't let rogue connections attack with huge payloads.
    // Disconnect them before reading all that data
    if let Some(max_size) = max_packet_size {
        if fixed_header.remaining_len > max_size {
            return Err(
                Error::PayloadSizeLimitExceeded {
                    pkt_size: fixed_header.remaining_len,
                    max: max_size,
                },
            );
        }
    }

    // If the current call fails due to insufficient bytes in the stream,
    // after calculating remaining length, we extend the stream
    let frame_length = fixed_header.frame_length();
    if stream_len < frame_length {
        return Err(Error::InsufficientBytes(frame_length - stream_len));
    }

    Ok(fixed_header)
}

/// Number of bytes that the remaining length `len` takes: 4 for any
/// length from 2097152 up, since no longer encoding exists.
pub open spec fn len_len_spec(len: int) -> int {
    if len >= 2_097_152 {
        4
    } else if len >= 16_384 {
        3
    } else if len >= 128 {
        2
    } else {
        1
    }
}

/// The encoding of a remaining length takes as many bytes as
/// `len_len_spec` says, for every length that four bytes can encode.
pub proof fn lemma_encode_remaining_length_len(n: nat)
    requires
        n <= MAX_REMAINING_LENGTH,
    ensures
        encode_remaining_length(n).len() == len_len_spec(n as int),
{
    reveal_with_fuel(encode_remaining_length, 5);
    assert(n >= 128 ==> n / 128 < 2_097_152);
    assert(n >= 16_384 ==> n / 128 / 128 < 16_384);
    assert(n >= 2_097_152 ==> n / 128 / 128 / 128 < 128);
}

/// Return number of remaining length bytes required for encoding length
pub fn len_len(len: usize) -> (n: usize)
    ensures
        n == len_len_spec(len as int),
        len <= MAX_REMAINING_LENGTH ==> n == encode_remaining_length(len as nat).len(),
{
    proof {
        if len <= MAX_REMAINING_LENGTH {
            lemma_encode_remaining_length_len(len as nat);
        }
    }
    if len >= 2_097_152 {
        4
    } else if len >= 16_384 {
        3
    } else if len >= 128 {
        2
    } else {
        1
    }
}

/// Writes remaining length to stream and returns number of bytes for remaining length
pub fn write_remaining_length(stream: &mut BytesMut, len: usize) -> (res: Result<usize, Error>)
    requires
        len <= MAX_REMAINING_LENGTH ==> bytes_mut_view(*old(stream)).len() + len_len_spec(
            len as int,
        ) <= max_buffer_len(),
    ensures
        len > MAX_REMAINING_LENGTH ==> res == Err::<usize, Error>(Error::PayloadTooLong)
            && bytes_mut_view(*final(stream)) == bytes_mut_view(*old(stream)),
        len <= MAX_REMAINING_LENGTH ==> encode_remaining_length(len as nat).len() == len_len_spec(
            len as int,
        ),
        len <= MAX_REMAINING_LENGTH ==> res == Ok::<usize, Error>(
            encode_remaining_length(len as nat).len() as usize,
        ) && bytes_mut_view(*final(stream)) == bytes_mut_view(*old(stream))
            + encode_remaining_length(len as nat),
{
    if len > MAX_REMAINING_LENGTH {
        return Err(Error::PayloadTooLong);
    }
    proof {
        lemma_encode_remaining_length_len(len as nat);
    }
    let ghost start = bytes_mut_view(*stream);
    let ghost whole = encode_remaining_length(len as nat);

    let mut done = false;
    let mut x = len;
    let mut count: usize = 0;

    while !done
        invariant
            whole == encode_remaining_length(len as nat),
            whole.len() <= 4,
            count <= 4,
            start.len() + whole.len() <= max_buffer_len(),
            !done ==> bytes_mut_view(*stream) + encode_remaining_length(x as nat) == start
                + whole,
            !done ==> count + encode_remaining_length(x as nat).len() == whole.len(),
            done ==> bytes_mut_view(*stream) == start + whole,
            done ==> count == whole.len(),
            bytes_mut_view(*stream).len() == start.len() + count,
        decreases x + (if done { 0int } else { 1int }),
    {
        let ghost before = bytes_mut_view(*stream);
        let ghost enc = encode_remaining_length(x as nat);
        let mut byte = (x % 128) as u8;
        x = x / 128;
        if x > 0 {
            assert(byte < 128 ==> byte | 128 == byte + 128) by (bit_vector);
            byte = byte | 128;
        }
        proof {
            reveal_with_fuel(encode_remaining_length, 2);
            assert(enc[0] == byte);
            assert(x > 0 ==> enc == seq![byte] + encode_remaining_length(x as nat));
            assert(x == 0 ==> enc == seq![byte]);
        }
        bytes_mut_put_u8(stream, byte);
        count = count + 1;
        done = x == 0;
        proof {
            assert(bytes_mut_view(*stream) == before.push(byte));
            if done {
                assert(bytes_mut_view(*stream) =~= before + enc);
            } else {
                assert(bytes_mut_view(*stream) + encode_remaining_length(x as nat) =~= before
                    + enc);
            }
        }
    }

    Ok(count)
}

proof fn lemma_vbi_value_front(s: Seq<u8>, m: nat)
    requires
        1 <= m <= s.len(),
    ensures
        vbi_value(s, m) == (s[0] % 128) as nat + 128 * vbi_value(s.drop_first(), (m - 1) as nat),
    decreases m,
{
    if m > 1 {
        lemma_vbi_value_front(s, (m - 1) as nat);
        let t = s.drop_first();
        let d = (t[m - 2] % 128) as nat;
        let p = pow128((m - 2) as nat);
        assert(s[m - 1] == t[m - 2]);
        assert(pow128((m - 1) as nat) == 128 * p);
        assert(vbi_value(t, (m - 1) as nat) == vbi_value(t, (m - 2) as nat) + d * p);
        let a = vbi_value(t, (m - 2) as nat);
        assert(128 * a + d * (128 * p) == 128 * (a + d * p)) by (nonlinear_arith);
        assert(vbi_value(s, m) == vbi_value(s, (m - 1) as nat) + d * (128 * p));
        assert(vbi_value(s, (m - 1) as nat) == (s[0] % 128) as nat + 128 * a);
        assert(vbi_value(s, m) == (s[0] % 128) as nat + 128 * (a + d * p));
    } else {
        assert(pow128(0) == 1);
        assert(vbi_value(s, 1) == vbi_value(s, 0) + (s[0] % 128) as nat * pow128(0));
        assert(vbi_value(s, 0) == 0);
        assert(vbi_value(s.drop_first(), 0) == 0);
        assert(vbi_value(s, 1) == (s[0] % 128) as nat);
    }
}

proof fn lemma_vbi_value_extend(s: Seq<u8>, t: Seq<u8>, n: nat)
    requires
        n <= s.len(),
    ensures
        vbi_value(s + t, n) == vbi_value(s, n),
    decreases n,
{
    if n > 0 {
        lemma_vbi_value_extend(s, t, (n - 1) as nat);
        assert((s + t)[n - 1] == s[n - 1]);
    }
}

proof fn lemma_encode_shape(n: nat)
    ensures
        encode_remaining_length(n).len() >= 1,
        encode_remaining_length(n)[encode_remaining_length(n).len() - 1] < 128,
        forall|j: int|
            0 <= j < encode_remaining_length(n).len() - 1 ==> encode_remaining_length(n)[j]
                >= 128,
    decreases n,
{
    if n >= 128 {
        lemma_encode_shape(n / 128);
        let e = encode_remaining_length(n);
        let r = encode_remaining_length(n / 128);
        assert(e == seq![(n % 128 + 128) as u8] + r);
        assert forall|j: int| 0 <= j < e.len() - 1 implies e[j] >= 128 by {
            if j > 0 {
                assert(e[j] == r[j - 1]);
            }
        }
    }
}

proof fn lemma_encode_value(n: nat, rest: Seq<u8>)
    ensures
        vbi_value(encode_remaining_length(n) + rest, encode_remaining_length(n).len()) == n,
    decreases n,
{
    lemma_encode_shape(n);
    let e = encode_remaining_length(n);
    let s = e + rest;
    lemma_vbi_value_front(s, e.len());
    if n < 128 {
        assert(s[0] == n as u8);
        assert(vbi_value(s.drop_first(), 0) == 0);
        assert(vbi_value(s, 1) == (s[0] % 128) as nat);
    } else {
        let r = encode_remaining_length(n / 128);
        lemma_encode_value(n / 128, rest);
        assert(e == seq![(n % 128 + 128) as u8] + r);
        assert(s.drop_first() =~= r + rest);
        assert(s[0] == (n % 128 + 128) as u8);
    }
}

proof fn lemma_decode_from_ends_at(s: Seq<u8>, i: nat, k: nat)
    requires
        i < k <= 4,
        k <= s.len(),
        s[k - 1] < 128,
        forall|j: int| i <= j < k - 1 ==> s[j] >= 128,
    ensures
        decode_remaining_length_from(s, i) == Ok::<(usize, usize), Error>(
            (k as usize, vbi_value(s, k) as usize),
        ),
    decreases k - i,
{
    if i + 1 < k {
        lemma_decode_from_ends_at(s, i + 1, k);
    }
}

/// Reading back a written remaining length: decoding the encoding of any
/// length that four bytes can hold, whatever follows it, gives that length
/// and the number of bytes the encoding took.
pub proof fn lemma_remaining_length_roundtrip(n: nat, rest: Seq<u8>)
    requires
        n <= MAX_REMAINING_LENGTH,
    ensures
        decode_remaining_length(encode_remaining_length(n) + rest) == Ok::<(usize, usize), Error>(
            (encode_remaining_length(n).len() as usize, n as usize),
        ),
{
    let e = encode_remaining_length(n);
    let s = e + rest;
    lemma_encode_shape(n);
    lemma_encode_remaining_length_len(n);
    lemma_encode_value(n, rest);
    assert forall|j: int| 0 <= j < e.len() - 1 implies s[j] >= 128 by {
        assert(s[j] == e[j]);
    }
    assert(s[e.len() - 1] == e[e.len() - 1]);
    lemma_decode_from_ends_at(s, 0, e.len());
}

proof fn lemma_decode_from_extend(s: Seq<u8>, t: Seq<u8>, i: nat)
    requires
        i <= 3,
        decode_remaining_length_from(s, i) is Ok,
    ensures
        decode_remaining_length_from(s + t, i) == decode_remaining_length_from(s, i),
    decreases 4 - i,
{
    assert((s + t)[i as int] == s[i as int]);
    if s[i as int] < 128 {
        lemma_vbi_value_extend(s, t, i + 1);
    } else {
        lemma_decode_from_extend(s, t, i + 1);
    }
}

proof fn lemma_parse_fixed_header_extend(s: Seq<u8>, t: Seq<u8>)
    requires
        parse_fixed_header_spec(s) is Ok,
    ensures
        parse_fixed_header_spec(s + t) == parse_fixed_header_spec(s),
{
    assert((s + t).drop_first() =~= s.drop_first() + t);
    lemma_decode_from_extend(s.drop_first(), t, 0);
}

/// A frame once found stays found: when `check` finds a frame at the start
/// of a stream, it finds the same fixed header after more bytes arrive.
pub proof fn lemma_check_prefix_stable(s: Seq<u8>, t: Seq<u8>, max_packet_size: Option<usize>)
    requires
        check_spec(s, max_packet_size) is Ok,
    ensures
        check_spec(s + t, max_packet_size) == check_spec(s, max_packet_size),
{
    lemma_parse_fixed_header_extend(s, t);
}

/// `InsufficientBytes(k)` names the minimum number of bytes still missing:
/// with fewer than `k` more bytes, `check` still fails; and `k` is never 0.
pub proof fn lemma_insufficient_bytes_is_minimum(
    s: Seq<u8>,
    t: Seq<u8>,
    max_packet_size: Option<usize>,
    k: usize,
)
    requires
        check_spec(s, max_packet_size) == Err::<FixedHeaderView, Error>(
            Error::InsufficientBytes(k),
        ),
        t.len() < k,
    ensures
        k >= 1,
        check_spec(s + t, max_packet_size) is Err,
{
    if s.len() < 2 {
    } else if parse_fixed_header_spec(s) is Err {
        lemma_decoded_insufficient_is_one(s.drop_first(), 0);
        assert(s + t =~= s);
    } else {
        lemma_parse_fixed_header_extend(s, t);
    }
}

proof fn lemma_decoded_insufficient_is_one(s: Seq<u8>, i: nat)
    requires
        i <= 3,
    ensures
        decode_remaining_length_from(s, i) matches Err(Error::InsufficientBytes(k)) ==> k == 1,
    decreases 4 - i,
{
    if i < s.len() && s[i as int] >= 128 && i < 3 {
        lemma_decoded_insufficient_is_one(s, i + 1);
    }
}

/// A fixed header is returned only when the whole frame is in the stream
/// and its remaining length is within the limit given.
pub proof fn lemma_check_ok_frame_fits(s: Seq<u8>, max_packet_size: Option<usize>)
    ensures
        check_spec(s, max_packet_size) matches Ok(h) ==> {
            &&& frame_length_of(h) <= s.len()
            &&& 2 <= h.1 <= 5
            &&& h.2 <= MAX_REMAINING_LENGTH
            &&& (max_packet_size matches Some(m) ==> h.2 <= m)
            &&& h.0 == s[0]
        },
{
    lemma_parsed_header_bounds(s);
}

/// The packet type is told by the high four bits of the first byte alone:
/// a type is found exactly when that number is the type's MQTT number, an
/// invalid number is reported as such, and the flag bits (the low four)
/// never change the answer.
pub proof fn lemma_packet_type_is_high_nibble(byte1: u8)
    ensures
        packet_type_of(byte1) matches Ok(t) ==> packet_type_number(t) == byte1 / 16,
        packet_type_of(byte1) is Err ==> packet_type_of(byte1) == Err::<PacketType, Error>(
            Error::InvalidPacketType(byte1 / 16),
        ),
        1 <= byte1 / 16 <= 14 ==> packet_type_of(byte1) is Ok,
        forall|f: u8|
            f < 16 ==> #[trigger] packet_type_of(((byte1 / 16) * 16 + f) as u8) == packet_type_of(
                byte1,
            ),
{
    assert forall|f: u8| f < 16 implies #[trigger] packet_type_of(((byte1 / 16) * 16 + f) as u8)
        == packet_type_of(byte1) by {
        let b2 = ((byte1 / 16) * 16 + f) as u8;
        assert(b2 / 16 == byte1 / 16);
    }
}

/// Every packet type, whatever flags its first byte carries, is told back
/// from that byte.
pub proof fn lemma_packet_type_of_number(t: PacketType, flags: u8)
    requires
        flags < 16,
    ensures
        packet_type_of((packet_type_number(t) * 16 + flags) as u8) == Ok::<PacketType, Error>(t),
{
    let b = (packet_type_number(t) * 16 + flags) as u8;
    assert(b / 16 == packet_type_number(t));
}

/// Framing is complete: when the fixed header parses, its remaining length
/// is within the limit and the whole frame is in the stream, `check`
/// returns that header; `InsufficientBytes` after a parsed header means the
/// stream is shorter than the frame.
pub proof fn lemma_check_complete(s: Seq<u8>, max_packet_size: Option<usize>)
    ensures
        parse_fixed_header_spec(s) matches Ok(h) ==> (
        (max_packet_size matches Some(m) ==> h.2 <= m) && frame_length_of(h) <= s.len()
            ==> check_spec(s, max_packet_size) == Ok::<FixedHeaderView, Error>(h)),
        parse_fixed_header_spec(s) matches Ok(h) ==> (check_spec(s, max_packet_size) matches Err(
            Error::InsufficientBytes(k),
        ) ==> s.len() < frame_length_of(h) && k == frame_length_of(h) - s.len()),
        parse_fixed_header_spec(s) matches Ok(h) ==> (max_packet_size is Some && h.2
            > max_packet_size->0 ==> check_spec(s, max_packet_size) == Err::<FixedHeaderView, Error>(
            Error::PayloadSizeLimitExceeded { pkt_size: h.2, max: max_packet_size->0 },
        )),
        parse_fixed_header_spec(s) matches Err(e) ==> check_spec(s, max_packet_size) == Err::<
            FixedHeaderView,
            Error,
        >(e),
{
    lemma_parsed_header_bounds(s);
}

/// How a remaining length is read from any bytes: the first byte with its
/// top bit clear, among the first four, ends it, and its value is the sum of
/// the low seven bits of each byte weighted by `128^i`; four bytes with the
/// top bit set are malformed; fewer such bytes and the end of the stream
/// ask for one more byte.
pub proof fn lemma_decode_remaining_length_cases(s: Seq<u8>, k: nat)
    ensures
        1 <= k <= 4 && k <= s.len() && s[k - 1] < 128 && (forall|j: int|
            0 <= j < k - 1 ==> s[j] >= 128) ==> decode_remaining_length(s) == Ok::<
            (usize, usize),
            Error,
        >((k as usize, vbi_value(s, k) as usize)),
        s.len() >= 4 && (forall|j: int| 0 <= j < 4 ==> s[j] >= 128) ==> decode_remaining_length(s)
            == Err::<(usize, usize), Error>(Error::MalformedRemainingLength),
        s.len() < 4 && (forall|j: int| 0 <= j < s.len() ==> s[j] >= 128)
            ==> decode_remaining_length(s) == Err::<(usize, usize), Error>(
            Error::InsufficientBytes(1),
        ),
{
    if 1 <= k <= 4 && k <= s.len() && s[k - 1] < 128 && (forall|j: int|
        0 <= j < k - 1 ==> s[j] >= 128) {
        lemma_decode_from_ends_at(s, 0, k);
    }
    reveal_with_fuel(decode_remaining_length_from, 5);
}

/// A written frame is found: a first byte, the encoding of a remaining
/// length `n`, then `n` bytes of body, with anything after them, gives the
/// fixed header of that byte, a header length of one more than the
/// encoding, and `n` — as soon as the body's last byte is there.
pub proof fn lemma_check_finds_written_frame(
    byte1: u8,
    n: nat,
    body: Seq<u8>,
    rest: Seq<u8>,
    max_packet_size: Option<usize>,
)
    requires
        n <= MAX_REMAINING_LENGTH,
        body.len() == n,
        max_packet_size matches Some(m) ==> n <= m,
    ensures
        check_spec(seq![byte1] + encode_remaining_length(n) + body + rest, max_packet_size)
            == Ok::<FixedHeaderView, Error>(
            (byte1, (encode_remaining_length(n).len() + 1) as usize, n as usize),
        ),
{
    let e = encode_remaining_length(n);
    let s = seq![byte1] + e + body + rest;
    lemma_encode_shape(n);
    lemma_encode_remaining_length_len(n);
    assert(s.drop_first() =~= e + (body + rest));
    lemma_remaining_length_roundtrip(n, body + rest);
    assert(s[0] == byte1);
    assert(s.len() == 1 + e.len() + n + rest.len());
}

} // verus!
