use bytes::BytesMut;
use mqttbytes5::header::{len_len, write_remaining_length};
use mqttbytes5::{check, Error, FixedHeader, PacketType};

#[test]
fn check_finds_complete_frame() {
    let stream = [0x10u8, 0x02, 0xAA, 0xBB, 0xCC];
    assert_eq!(check(stream.iter(), None), Ok(FixedHeader::new(0x10, 1, 2)));
    let header = check(stream.iter(), None).unwrap();
    assert_eq!(header.frame_length(), 4);
    assert_eq!(header.packet_type(), Ok(PacketType::Connect));
}

#[test]
fn check_reports_missing_bytes() {
    assert_eq!(check([].iter(), None), Err(Error::InsufficientBytes(2)));
    assert_eq!(check([0x30].iter(), None), Err(Error::InsufficientBytes(1)));
    assert_eq!(check([0x30, 0x80].iter(), None), Err(Error::InsufficientBytes(1)));
    assert_eq!(check([0x30, 0x80, 0x80, 0x80].iter(), None), Err(Error::InsufficientBytes(1)));
    assert_eq!(check([0x30, 0x05, 0x01].iter(), None), Err(Error::InsufficientBytes(4)));
}

#[test]
fn check_rejects_fifth_length_byte() {
    assert_eq!(
        check([0x30, 0xFF, 0xFF, 0xFF, 0xFF, 0x01].iter(), None),
        Err(Error::MalformedRemainingLength)
    );
}

#[test]
fn check_applies_size_limit_before_waiting() {
    assert_eq!(
        check([0x30, 0x05].iter(), Some(4)),
        Err(Error::PayloadSizeLimitExceeded { pkt_size: 5, max: 4 })
    );
    assert_eq!(check([0x30, 0x05].iter(), Some(5)), Err(Error::InsufficientBytes(5)));
}

#[test]
fn check_decodes_four_byte_length() {
    // 0xFF 0xFF 0xFF 0x7F encodes 268_435_455
    assert_eq!(
        check([0x30, 0xFF, 0xFF, 0xFF, 0x7F].iter(), None),
        Err(Error::InsufficientBytes(268_435_455))
    );
    // 0x80 0x01 encodes 128
    assert_eq!(check([0x30, 0x80, 0x01].iter(), None), Err(Error::InsufficientBytes(128)));
}

#[test]
fn check_is_stable_under_more_bytes() {
    let stream = [0xC0u8, 0x00, 0x30, 0x05];
    assert_eq!(check(stream[..2].iter(), None), check(stream.iter(), None));
}

#[test]
fn packet_type_of_each_number() {
    let expected = [
        PacketType::Connect,
        PacketType::ConnAck,
        PacketType::Publish,
        PacketType::PubAck,
        PacketType::PubRec,
        PacketType::PubRel,
        PacketType::PubComp,
        PacketType::Subscribe,
        PacketType::SubAck,
        PacketType::Unsubscribe,
        PacketType::UnsubAck,
        PacketType::PingReq,
        PacketType::PingResp,
        PacketType::Disconnect,
    ];
    for (i, t) in expected.iter().enumerate() {
        let byte1 = ((i as u8) + 1) << 4 | 0x0F;
        assert_eq!(FixedHeader::new(byte1, 1, 0).packet_type(), Ok(*t));
    }
    assert_eq!(FixedHeader::new(0x00, 1, 0).packet_type(), Err(Error::InvalidPacketType(0)));
    assert_eq!(FixedHeader::new(0xF2, 1, 0).packet_type(), Err(Error::InvalidPacketType(15)));
}

#[test]
fn frame_length_adds_header_and_remaining() {
    assert_eq!(FixedHeader::new(0x30, 2, 200).frame_length(), 203);
    assert_eq!(FixedHeader::new(0x30, 4, 268_435_455).frame_length(), 268_435_460);
}

#[test]
fn len_len_thresholds() {
    assert_eq!(len_len(0), 1);
    assert_eq!(len_len(127), 1);
    assert_eq!(len_len(128), 2);
    assert_eq!(len_len(16_383), 2);
    assert_eq!(len_len(16_384), 3);
    assert_eq!(len_len(2_097_151), 3);
    assert_eq!(len_len(2_097_152), 4);
    assert_eq!(len_len(268_435_455), 4);
    assert_eq!(len_len(usize::MAX), 4);
}

#[test]
fn write_remaining_length_encodings() {
    let cases: [(usize, &[u8]); 8] = [
        (0, &[0x00]),
        (127, &[0x7F]),
        (128, &[0x80, 0x01]),
        (16_383, &[0xFF, 0x7F]),
        (16_384, &[0x80, 0x80, 0x01]),
        (2_097_151, &[0xFF, 0xFF, 0x7F]),
        (2_097_152, &[0x80, 0x80, 0x80, 0x01]),
        (268_435_455, &[0xFF, 0xFF, 0xFF, 0x7F]),
    ];
    for (len, bytes) in cases.iter() {
        let mut stream = BytesMut::new();
        assert_eq!(write_remaining_length(&mut stream, *len), Ok(bytes.len()));
        assert_eq!(&stream[..], *bytes);
        assert_eq!(len_len(*len), bytes.len());
    }
}

#[test]
fn write_remaining_length_too_long() {
    let mut stream = BytesMut::from(&[0x30u8][..]);
    assert_eq!(write_remaining_length(&mut stream, 268_435_456), Err(Error::PayloadTooLong));
    assert_eq!(&stream[..], &[0x30]);
}

#[test]
fn remaining_length_roundtrip_through_check() {
    for len in [1usize, 127, 128, 300, 16_384, 2_097_152, 268_435_455] {
        let mut stream = BytesMut::from(&[0x30u8][..]);
        let n = write_remaining_length(&mut stream, len).unwrap();
        assert_eq!(check(stream.iter(), None), Err(Error::InsufficientBytes(len)));
        assert_eq!(n, len_len(len));
    }
}

#[test]
fn insufficient_bytes_names_what_is_missing() {
    let full = [0x30u8, 0x03, 0x0A, 0x0B, 0x0C];
    assert_eq!(check(full[..2].iter(), None), Err(Error::InsufficientBytes(3)));
    assert!(check(full[..3].iter(), None).is_err());
    assert!(check(full[..4].iter(), None).is_err());
    assert_eq!(check(full.iter(), None), Ok(FixedHeader::new(0x30, 1, 3)));
}

#[test]
fn check_reads_from_iterator_position() {
    let stream = [0xFFu8, 0xC0, 0x00];
    let mut it = stream.iter();
    it.next();
    assert_eq!(check(it, None), Ok(FixedHeader::new(0xC0, 1, 0)));
}

#[test]
fn packet_type_numbers() {
    assert_eq!(PacketType::Connect.number(), 1);
    assert_eq!(PacketType::Publish.number(), 3);
    assert_eq!(PacketType::PingReq.number(), 12);
    assert_eq!(PacketType::Disconnect.number(), 14);
    for n in 1u8..=14 {
        let t = FixedHeader::new(n << 4, 1, 0).packet_type().unwrap();
        assert_eq!(t.number(), n);
    }
}
