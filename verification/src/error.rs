use crate::header::PacketType;
use vstd::prelude::*;

verus! {

/// The error of a failed UTF-8 check, as std reports it.
#[verifier::external_type_specification]
#[verifier::external_body]
pub struct ExUtf8Error(std::str::Utf8Error);

/// Error during serialization and deserialization
#[derive(Debug, Clone, Copy, PartialEq, Eq)]
pub enum Error {
    InvalidConnectReturnCode(u8),
    InvalidReason(u8),
    InvalidRemainingLength(usize),
    InvalidProtocol,
    InvalidProtocolLevel(u8),
    IncorrectPacketFormat,
    InvalidPacketType(u8),
    InvalidRetainForwardRule(u8),
    InvalidQoS(u8),
    InvalidSubscribeReasonCode(u8),
    PacketIdZero,
    EmptySubscription,
    SubscriptionIdZero,
    PayloadSizeIncorrect,
    PayloadTooLong,
    BinaryDataTooLong,
    PayloadSizeLimitExceeded { pkt_size: usize, max: usize },
    PayloadRequired,
    PayloadNotUtf8(std::str::Utf8Error),
    TopicNotUtf8,
    BoundaryCrossed(usize),
    MalformedPacket,
    MalformedRemainingLength,
    InvalidPropertyType(u8),
    /// More bytes required to frame packet. Argument
    /// implies minimum additional bytes required to
    /// proceed further
    InsufficientBytes(usize),
    /// A well-framed packet of a type whose body this crate does not decode
    UnsupportedPacketType(PacketType),
}

impl From<std::str::Utf8Error> for Error {
    fn from(e: std::str::Utf8Error) -> (res: Self) {
        Error::PayloadNotUtf8(e)
    }
}

impl vstd::std_specs::convert::FromSpecImpl<std::str::Utf8Error> for Error {
    open spec fn obeys_from_spec() -> bool {
        true
    }

    open spec fn from_spec(e: std::str::Utf8Error) -> Self {
        Error::PayloadNotUtf8(e)
    }
}

} // verus!
