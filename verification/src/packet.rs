//! Whole MQTT packets: reading one from the front of a stream of bytes and
//! writing one to the end of a buffer.

use crate::buffer::{bytes_mut_as_slice, bytes_mut_split_to, bytes_mut_view, max_buffer_len};
use crate::error::Error;
use crate::header::{
    check, check_spec, decode_remaining_length, frame_length_of, pow128, vbi_value, packet_type_of, FixedHeaderView, PacketType,
};
use crate::ping::{ping_req_bytes, ping_resp_bytes, PingReq, PingResp};
use bytes::BytesMut;
use vstd::prelude::*;

verus! {

#[derive(Debug, Clone, PartialEq, Eq)]
pub enum Packet {
    PingReq(PingReq),
    PingResp(PingResp),
}

/// The bytes that a packet is written as.
pub open spec fn packet_bytes(p: Packet) -> Seq<u8> {
    match p {
        Packet::PingReq(_) => ping_req_bytes(),
        Packet::PingResp(_) => ping_resp_bytes(),
    }
}

/// The packet that a complete frame with the fixed header `h` holds. A ping
/// is read whatever the remaining length (its remaining bytes are ignored);
/// any other type with no remaining bytes, but a disconnect, needs a payload.
pub open spec fn packet_from_header(h: FixedHeaderView) -> Result<Packet, Error> {
    match packet_type_of(h.0) {
        Err(e) => Err(e),
        Ok(PacketType::PingReq) => Ok(Packet::PingReq(PingReq)),
        Ok(PacketType::PingResp) => Ok(Packet::PingResp(PingResp)),
        Ok(t) => if h.2 == 0 && t != PacketType::Disconnect {
            Err(Error::PayloadRequired)
        } else {
            Err(Error::UnsupportedPacketType(t))
        },
    }
}

/// Reading a packet from the front of `s`: the packet (or why not) and what
/// stays in the stream. Without a complete frame the stream is left as it
/// is; once a frame is there, it is taken off whatever its content.
pub open spec fn read_spec(s: Seq<u8>, max_size: Option<usize>) -> (Result<Packet, Error>, Seq<u8>) {
    match check_spec(s, max_size) {
        Err(e) => (Err(e), s),
        Ok(h) => (packet_from_header(h), s.skip(frame_length_of(h))),
    }
}

impl Packet {
    /// Reads a stream of bytes and extracts next MQTT packet out of it.
    ///
    /// Only the ping request and response are decoded. A complete frame of
    /// any other valid type is taken off the stream and answered with
    /// `Error::UnsupportedPacketType` (or `Error::PayloadRequired` when it
    /// has no remaining bytes and is not a disconnect): this crate holds no
    /// decoder for their bodies.
    pub fn read(stream: &mut BytesMut, max_size: Option<usize>) -> (res: Result<Packet, Error>)
        ensures
            (res, bytes_mut_view(*final(stream))) == read_spec(
                bytes_mut_view(*old(stream)),
                max_size,
            ),
    {
        let frame = bytes_mut_as_slice(stream);
        let stream_len = frame.len();
        proof {
            vstd::std_specs::slice::axiom_spec_slice_iter(frame);
            assert(frame@.as_ref().unref() =~= frame@);
        }
        let fixed_header = match check(frame.iter(), max_size) {
            Ok(h) => h,
            Err(e) => return Err(e),
        };
        assert(frame_length_of(fixed_header@) <= stream_len);

        // Test with a stream with exactly the size to check border panics
        let _packet = bytes_mut_split_to(stream, fixed_header.frame_length());
        let packet_type = match fixed_header.packet_type() {
            Ok(t) => t,
            Err(e) => return Err(e),
        };

        let is_disconnect = match packet_type {
            PacketType::Disconnect => true,
            _ => false,
        };
        if fixed_header.remaining_len() == 0 && !is_disconnect {
            return match packet_type {
                PacketType::PingReq => Ok(Packet::PingReq(PingReq)),
                PacketType::PingResp => Ok(Packet::PingResp(PingResp)),
                _ => Err(Error::PayloadRequired),
            };
        }

        let packet = match packet_type {
            PacketType::PingReq => Packet::PingReq(PingReq),
            PacketType::PingResp => Packet::PingResp(PingResp),
            _ => return Err(Error::UnsupportedPacketType(packet_type)),
        };

        Ok(packet)
    }

    pub fn write(&self, write: &mut BytesMut) -> (res: Result<usize, Error>)
        requires
            bytes_mut_view(*old(write)).len() + 2 <= max_buffer_len(),
        ensures
            res == Ok::<usize, Error>(packet_bytes(*self).len() as usize),
            bytes_mut_view(*final(write)) == bytes_mut_view(*old(write)) + packet_bytes(*self),
    {
        match self {
            Self::PingReq(_) => PingReq::write(write),
            Self::PingResp(_) => PingResp::write(write),
        }
    }
}

/// What a packet reads back as: reading from a stream that starts with the
/// bytes a packet is written as gives that packet back and leaves exactly
/// the bytes that followed, whatever the size limit.
pub proof fn lemma_write_read_roundtrip(p: Packet, rest: Seq<u8>, max_size: Option<usize>)
    ensures
        read_spec(packet_bytes(p) + rest, max_size) == (Ok::<Packet, Error>(p), rest),
{
    let s = packet_bytes(p) + rest;
    let t = s.drop_first();
    assert(t[0] == 0u8);
    assert(pow128(0) == 1);
    assert(vbi_value(t, 1) == vbi_value(t, 0) + (t[0] % 128) as nat * pow128(0));
    assert(vbi_value(t, 1) == 0);
    assert(decode_remaining_length(t) == Ok::<(usize, usize), Error>((1usize, 0usize)));
    assert(s.skip(2) =~= rest);
    match p {
        Packet::PingReq(_) => {
            assert(s[0] == 0xC0u8);
            assert(0xC0u8 / 16 == 12u8);
        },
        Packet::PingResp(_) => {
            assert(s[0] == 0xD0u8);
            assert(0xD0u8 / 16 == 13u8);
        },
    }
}

} // verus!
