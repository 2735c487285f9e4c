//! Assembly and disassembly of MQTT 5 packets: the fixed header with its
//! variable-length remaining length, the length-prefixed binary and string
//! fields, and the ping packets, over the buffers of the `bytes` crate.

pub mod buffer;
pub mod codec;
pub mod error;
pub mod header;
pub mod packet;
pub mod ping;
pub mod property;
pub mod qos;

pub use codec::mqtt_string_new;
pub use error::Error;
pub use header::{check, FixedHeader, PacketType};
pub use packet::Packet;
pub use ping::{PingReq, PingResp};
pub use qos::{qos, QoS};
