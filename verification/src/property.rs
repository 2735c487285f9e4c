//! The property identifiers of MQTT 5.

use crate::error::Error;
use vstd::prelude::*;

verus! {

/// Identifier of a property in the properties of a packet.
#[derive(Debug, Clone, Copy, PartialEq, Eq)]
pub enum PropertyType {
    PayloadFormatIndicator,
    MessageExpiryInterval,
    ContentType,
    ResponseTopic,
    CorrelationData,
    SubscriptionIdentifier,
    SessionExpiryInterval,
    AssignedClientIdentifier,
    ServerKeepAlive,
    AuthenticationMethod,
    AuthenticationData,
    RequestProblemInformation,
    WillDelayInterval,
    RequestResponseInformation,
    ResponseInformation,
    ServerReference,
    ReasonString,
    ReceiveMaximum,
    TopicAliasMaximum,
    TopicAlias,
    MaximumQos,
    RetainAvailable,
    UserProperty,
    MaximumPacketSize,
    WildcardSubscriptionAvailable,
    SubscriptionIdentifierAvailable,
    SharedSubscriptionAvailable,
}

/// The number that identifies a property on the wire.
pub open spec fn property_number(p: PropertyType) -> u8 {
    match p {
        PropertyType::PayloadFormatIndicator => 1,
        PropertyType::MessageExpiryInterval => 2,
        PropertyType::ContentType => 3,
        PropertyType::ResponseTopic => 8,
        PropertyType::CorrelationData => 9,
        PropertyType::SubscriptionIdentifier => 11,
        PropertyType::SessionExpiryInterval => 17,
        PropertyType::AssignedClientIdentifier => 18,
        PropertyType::ServerKeepAlive => 19,
        PropertyType::AuthenticationMethod => 21,
        PropertyType::AuthenticationData => 22,
        PropertyType::RequestProblemInformation => 23,
        PropertyType::WillDelayInterval => 24,
        PropertyType::RequestResponseInformation => 25,
        PropertyType::ResponseInformation => 26,
        PropertyType::ServerReference => 28,
        PropertyType::ReasonString => 31,
        PropertyType::ReceiveMaximum => 33,
        PropertyType::TopicAliasMaximum => 34,
        PropertyType::TopicAlias => 35,
        PropertyType::MaximumQos => 36,
        PropertyType::RetainAvailable => 37,
        PropertyType::UserProperty => 38,
        PropertyType::MaximumPacketSize => 39,
        PropertyType::WildcardSubscriptionAvailable => 40,
        PropertyType::SubscriptionIdentifierAvailable => 41,
        PropertyType::SharedSubscriptionAvailable => 42,
    }
}

/// The property that the number `num` identifies, if any.
pub open spec fn property_from_number(num: u8) -> Option<PropertyType> {
    match num {
        1 => Some(PropertyType::PayloadFormatIndicator),
        2 => Some(PropertyType::MessageExpiryInterval),
        3 => Some(PropertyType::ContentType),
        8 => Some(PropertyType::ResponseTopic),
        9 => Some(PropertyType::CorrelationData),
        11 => Some(PropertyType::SubscriptionIdentifier),
        17 => Some(PropertyType::SessionExpiryInterval),
        18 => Some(PropertyType::AssignedClientIdentifier),
        19 => Some(PropertyType::ServerKeepAlive),
        21 => Some(PropertyType::AuthenticationMethod),
        22 => Some(PropertyType::AuthenticationData),
        23 => Some(PropertyType::RequestProblemInformation),
        24 => Some(PropertyType::WillDelayInterval),
        25 => Some(PropertyType::RequestResponseInformation),
        26 => Some(PropertyType::ResponseInformation),
        28 => Some(PropertyType::ServerReference),
        31 => Some(PropertyType::ReasonString),
        33 => Some(PropertyType::ReceiveMaximum),
        34 => Some(PropertyType::TopicAliasMaximum),
        35 => Some(PropertyType::TopicAlias),
        36 => Some(PropertyType::MaximumQos),
        37 => Some(PropertyType::RetainAvailable),
        38 => Some(PropertyType::UserProperty),
        39 => Some(PropertyType::MaximumPacketSize),
        40 => Some(PropertyType::WildcardSubscriptionAvailable),
        41 => Some(PropertyType::SubscriptionIdentifierAvailable),
        42 => Some(PropertyType::SharedSubscriptionAvailable),
        _ => None,
    }
}

/// Maps a number to the property it identifies, or reports it as invalid.
pub fn property(num: u8) -> (res: Result<PropertyType, Error>)
    ensures
        res == match property_from_number(num) {
            Some(p) => Ok::<PropertyType, Error>(p),
            None => Err(Error::InvalidPropertyType(num)),
        },
{
    let property = match num {
        1 => PropertyType::PayloadFormatIndicator,
        2 => PropertyType::MessageExpiryInterval,
        3 => PropertyType::ContentType,
        8 => PropertyType::ResponseTopic,
        9 => PropertyType::CorrelationData,
        11 => PropertyType::SubscriptionIdentifier,
        17 => PropertyType::SessionExpiryInterval,
        18 => PropertyType::AssignedClientIdentifier,
        19 => PropertyType::ServerKeepAlive,
        21 => PropertyType::AuthenticationMethod,
        22 => PropertyType::AuthenticationData,
        23 => PropertyType::RequestProblemInformation,
        24 => PropertyType::WillDelayInterval,
        25 => PropertyType::RequestResponseInformation,
        26 => PropertyType::ResponseInformation,
        28 => PropertyType::ServerReference,
        31 => PropertyType::ReasonString,
        33 => PropertyType::ReceiveMaximum,
        34 => PropertyType::TopicAliasMaximum,
        35 => PropertyType::TopicAlias,
        36 => PropertyType::MaximumQos,
        37 => PropertyType::RetainAvailable,
        38 => PropertyType::UserProperty,
        39 => PropertyType::MaximumPacketSize,
        40 => PropertyType::WildcardSubscriptionAvailable,
        41 => PropertyType::SubscriptionIdentifierAvailable,
        42 => PropertyType::SharedSubscriptionAvailable,
        num => return Err(Error::InvalidPropertyType(num)),
    };

    Ok(property)
}

/// A property's number identifies it: the property that a number stands
/// for has that number, and each property is found again from its number.
pub proof fn lemma_property_number_inverse(p: PropertyType, num: u8)
    ensures
        property_from_number(property_number(p)) == Some(p),
        property_from_number(num) matches Some(q) ==> property_number(q) == num,
{
}

} // verus!
