use bytes::BytesMut;
use mqttbytes5::buffer::{buffer_len, empty_buffer};
use mqttbytes5::{Packet, PingReq, PingResp};

fn read_write_packets(packets: Vec<Packet>) {
    for out in packets {
        let mut buf = BytesMut::new();
        out.write(&mut buf).unwrap();
        let incoming = Packet::read(&mut buf, None).unwrap();
        assert_eq!(incoming, out);
        assert_eq!(buf.len(), 0);
    }
}

fn write_read_provider() -> Vec<Packet> {
    vec![Packet::PingReq(PingReq {}), Packet::PingResp(PingResp {})]
}

#[test]
fn test_write_read() {
    read_write_packets(write_read_provider());
}

#[test]
fn ping_req_bytes_on_the_wire() {
    let mut buf = BytesMut::new();
    assert_eq!(PingReq::write(&mut buf), Ok(2));
    assert_eq!(&buf[..], &[0xC0, 0x00]);
}

#[test]
fn ping_resp_bytes_on_the_wire() {
    let mut buf = BytesMut::from(&[0x01u8][..]);
    assert_eq!(PingResp::write(&mut buf), Ok(2));
    assert_eq!(&buf[..], &[0x01, 0xD0, 0x00]);
}

#[test]
fn packet_write_appends_and_reads_back_in_order() {
    let mut buf = BytesMut::new();
    assert_eq!(Packet::PingResp(PingResp).write(&mut buf), Ok(2));
    assert_eq!(Packet::PingReq(PingReq).write(&mut buf), Ok(2));
    assert_eq!(&buf[..], &[0xD0, 0x00, 0xC0, 0x00]);
    assert_eq!(Packet::read(&mut buf, Some(0)), Ok(Packet::PingResp(PingResp)));
    assert_eq!(&buf[..], &[0xC0, 0x00]);
    assert_eq!(Packet::read(&mut buf, Some(0)), Ok(Packet::PingReq(PingReq)));
    assert_eq!(buf.len(), 0);
}

#[test]
fn roundtrip_leaves_following_bytes() {
    let mut buf = BytesMut::new();
    Packet::PingReq(PingReq).write(&mut buf).unwrap();
    buf.extend_from_slice(&[0x30, 0x07]);
    assert_eq!(Packet::read(&mut buf, None), Ok(Packet::PingReq(PingReq)));
    assert_eq!(&buf[..], &[0x30, 0x07]);
}

#[test]
fn empty_buffer_then_write_grows_by_frame() {
    let mut buf = empty_buffer();
    assert_eq!(buffer_len(&buf), 0);
    Packet::PingResp(PingResp).write(&mut buf).unwrap();
    assert_eq!(buffer_len(&buf), 2);
    assert_eq!(&buf[..], &[0xD0, 0x00]);
}
