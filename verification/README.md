# mqttbytes5

Verified serialization and deserialization of MQTT 5 packets over the
`bytes` crate's buffers.

- `src/header.rs`: the fixed header, the variable byte integer that encodes
  the remaining length, `check`, and the laws that reading back a written
  length gives it back and that `check` is stable as bytes arrive.
- `src/codec.rs`: big-endian integers and length-prefixed binary data and
  strings, with their read-back laws.
- `src/ping.rs`, `src/packet.rs`: the ping packets and `Packet::read` /
  `Packet::write`, with the law that a written packet reads back.
- `src/property.rs`, `src/qos.rs`, `src/error.rs`: identifiers and errors.
- `src/buffer.rs`: the `Bytes` / `BytesMut` methods the code calls, each
  behind a wrapper whose contract states what it does to the buffer.
- `app/lib.rs`: the error type with its `thiserror` messages.

Packet types other than the ping request and response are framed and
consumed by `Packet::read`, which reports them as
`Error::UnsupportedPacketType`: their body decoders are not part of this
crate.

Enum variants carry no explicit numbers; `PacketType::number` gives a packet
type's MQTT number (1 to 14).
