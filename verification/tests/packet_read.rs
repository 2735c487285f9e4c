use bytes::BytesMut;
use mqttbytes5::{Error, Packet, PacketType, PingReq, PingResp};

fn buf(bytes: &[u8]) -> BytesMut {
    BytesMut::from(bytes)
}

#[test]
fn read_incomplete_frame_leaves_stream() {
    let mut b = buf(&[0xC0]);
    assert_eq!(Packet::read(&mut b, None), Err(Error::InsufficientBytes(1)));
    assert_eq!(&b[..], &[0xC0]);

    let mut b = buf(&[]);
    assert_eq!(Packet::read(&mut b, None), Err(Error::InsufficientBytes(2)));

    let mut b = buf(&[0x30, 0x05, 0x00, 0x01]);
    assert_eq!(Packet::read(&mut b, None), Err(Error::InsufficientBytes(3)));
    assert_eq!(b.len(), 4);
}

#[test]
fn read_zero_length_frame_needing_payload() {
    let mut b = buf(&[0x30, 0x00, 0xC0, 0x00]);
    assert_eq!(Packet::read(&mut b, None), Err(Error::PayloadRequired));
    assert_eq!(&b[..], &[0xC0, 0x00]);
}

#[test]
fn read_invalid_packet_type_consumes_frame() {
    let mut b = buf(&[0xF0, 0x01, 0xAA, 0x01]);
    assert_eq!(Packet::read(&mut b, None), Err(Error::InvalidPacketType(15)));
    assert_eq!(&b[..], &[0x01]);

    let mut b = buf(&[0x05, 0x00]);
    assert_eq!(Packet::read(&mut b, None), Err(Error::InvalidPacketType(0)));
    assert_eq!(b.len(), 0);
}

#[test]
fn read_ping_with_body_ignores_it() {
    let mut b = buf(&[0xC0, 0x02, 0xAA, 0xBB, 0xD0]);
    assert_eq!(Packet::read(&mut b, None), Ok(Packet::PingReq(PingReq)));
    assert_eq!(&b[..], &[0xD0]);

    let mut b = buf(&[0xD3, 0x01, 0xAA]);
    assert_eq!(Packet::read(&mut b, None), Ok(Packet::PingResp(PingResp)));
    assert_eq!(b.len(), 0);
}

#[test]
fn read_other_packet_types_report_unsupported() {
    let mut b = buf(&[0x30, 0x01, 0x00]);
    assert_eq!(
        Packet::read(&mut b, None),
        Err(Error::UnsupportedPacketType(PacketType::Publish))
    );
    assert_eq!(b.len(), 0);

    let mut b = buf(&[0xE0, 0x00]);
    assert_eq!(
        Packet::read(&mut b, None),
        Err(Error::UnsupportedPacketType(PacketType::Disconnect))
    );
    assert_eq!(b.len(), 0);
}

#[test]
fn read_respects_size_limit() {
    let mut b = buf(&[0xC0, 0x03, 0x00, 0x00, 0x00]);
    assert_eq!(
        Packet::read(&mut b, Some(2)),
        Err(Error::PayloadSizeLimitExceeded { pkt_size: 3, max: 2 })
    );
    assert_eq!(b.len(), 5);
    assert_eq!(Packet::read(&mut b, Some(3)), Ok(Packet::PingReq(PingReq)));
    assert_eq!(b.len(), 0);
}

#[test]
fn read_malformed_remaining_length() {
    let mut b = buf(&[0xC0, 0x80, 0x80, 0x80, 0x80, 0x01]);
    assert_eq!(Packet::read(&mut b, None), Err(Error::MalformedRemainingLength));
    assert_eq!(b.len(), 6);
}
