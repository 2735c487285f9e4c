use bytes::{Bytes, BytesMut};
use mqttbytes5::codec::{
    read_mqtt_bytes, read_mqtt_string, read_u16, read_u32, read_u8, write_mqtt_bytes,
    write_mqtt_string,
};
use mqttbytes5::{mqtt_string_new, Error};

#[test]
fn read_integers_big_endian() {
    let mut s = Bytes::from_static(&[0x12, 0x34, 0x56, 0x78, 0x9A, 0xBC, 0xDE]);
    assert_eq!(read_u8(&mut s), Ok(0x12));
    assert_eq!(read_u16(&mut s), Ok(0x3456));
    assert_eq!(read_u32(&mut s), Ok(0x789A_BCDE));
    assert_eq!(s.len(), 0);
    assert_eq!(read_u8(&mut s), Err(Error::MalformedPacket));
}

#[test]
fn read_integers_short_stream_untouched() {
    let mut s = Bytes::from_static(&[0x01]);
    assert_eq!(read_u16(&mut s), Err(Error::MalformedPacket));
    assert_eq!(&s[..], &[0x01]);
    let mut s = Bytes::from_static(&[0x01, 0x02, 0x03]);
    assert_eq!(read_u32(&mut s), Err(Error::MalformedPacket));
    assert_eq!(s.len(), 3);
}

#[test]
fn read_mqtt_bytes_takes_prefixed_data() {
    let mut s = Bytes::from_static(&[0x00, 0x03, b'a', b'b', b'c', 0xFF]);
    assert_eq!(read_mqtt_bytes(&mut s), Ok(Bytes::from_static(b"abc")));
    assert_eq!(&s[..], &[0xFF]);
}

#[test]
fn read_mqtt_bytes_boundary_crossed() {
    let mut s = Bytes::from_static(&[0x01, 0x00, b'a']);
    assert_eq!(read_mqtt_bytes(&mut s), Err(Error::BoundaryCrossed(256)));
    assert_eq!(&s[..], b"a");
    let mut s = Bytes::from_static(&[0x01]);
    assert_eq!(read_mqtt_bytes(&mut s), Err(Error::MalformedPacket));
    assert_eq!(s.len(), 1);
}

#[test]
fn read_mqtt_string_decodes_utf8() {
    let mut s = Bytes::from_static(&[0x00, 0x04, b'h', 0xC3, 0xA9, b'!', 0x07]);
    assert_eq!(read_mqtt_string(&mut s), Ok(String::from("hé!")));
    assert_eq!(&s[..], &[0x07]);
}

#[test]
fn read_mqtt_string_rejects_invalid_utf8() {
    let mut s = Bytes::from_static(&[0x00, 0x02, 0xC3, 0x28, 0x07]);
    assert_eq!(read_mqtt_string(&mut s), Err(Error::TopicNotUtf8));
    assert_eq!(&s[..], &[0x07]);
}

#[test]
fn write_mqtt_bytes_prefixes_length() {
    let mut s = BytesMut::new();
    assert_eq!(write_mqtt_bytes(&mut s, &[1, 2, 3]), Ok(()));
    assert_eq!(&s[..], &[0x00, 0x03, 1, 2, 3]);
    let data = vec![7u8; 300];
    assert_eq!(write_mqtt_bytes(&mut s, &data), Ok(()));
    assert_eq!(&s[5..7], &[0x01, 0x2C]);
    assert_eq!(s.len(), 5 + 2 + 300);
}

#[test]
fn write_mqtt_bytes_too_long() {
    let mut s = BytesMut::from(&[9u8][..]);
    let data = vec![0u8; 65_536];
    assert_eq!(write_mqtt_bytes(&mut s, &data), Err(Error::BinaryDataTooLong));
    assert_eq!(&s[..], &[9]);
    let data = vec![0u8; 65_535];
    assert_eq!(write_mqtt_bytes(&mut s, &data), Ok(()));
    assert_eq!(&s[1..3], &[0xFF, 0xFF]);
}

#[test]
fn string_roundtrip() {
    let mut out = BytesMut::new();
    let topic = mqtt_string_new("a/ü/topic");
    assert_eq!(write_mqtt_string(&mut out, &topic), Ok(()));
    assert_eq!(&out[..2], &[0x00, 0x0A]);
    let mut input = out.freeze();
    assert_eq!(read_mqtt_string(&mut input), Ok(topic));
    assert_eq!(input.len(), 0);
}

#[test]
fn bytes_roundtrip_leaves_rest() {
    let mut out = BytesMut::new();
    write_mqtt_bytes(&mut out, &[0xDE, 0xAD]).unwrap();
    out.extend_from_slice(&[0x42]);
    let mut input = out.freeze();
    assert_eq!(read_mqtt_bytes(&mut input), Ok(Bytes::from_static(&[0xDE, 0xAD])));
    assert_eq!(&input[..], &[0x42]);
}

#[test]
fn mqtt_string_new_copies_literal() {
    assert_eq!(mqtt_string_new("hello"), String::from("hello"));
    assert_eq!(mqtt_string_new(""), String::new());
}
