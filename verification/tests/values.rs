use mqttbytes5::property::{property, PropertyType};
use mqttbytes5::{qos, Error, QoS};

#[test]
fn qos_from_number() {
    assert_eq!(qos(0), Some(QoS::AtMostOnce));
    assert_eq!(qos(1), Some(QoS::AtLeastOnce));
    assert_eq!(qos(2), Some(QoS::ExactlyOnce));
    assert_eq!(qos(3), None);
    assert_eq!(qos(255), None);
}

#[test]
fn qos_default_is_at_most_once() {
    assert_eq!(QoS::default(), QoS::AtMostOnce);
}

#[test]
fn property_from_number() {
    assert_eq!(property(1), Ok(PropertyType::PayloadFormatIndicator));
    assert_eq!(property(11), Ok(PropertyType::SubscriptionIdentifier));
    assert_eq!(property(38), Ok(PropertyType::UserProperty));
    assert_eq!(property(42), Ok(PropertyType::SharedSubscriptionAvailable));
    assert_eq!(property(0), Err(Error::InvalidPropertyType(0)));
    assert_eq!(property(4), Err(Error::InvalidPropertyType(4)));
    assert_eq!(property(43), Err(Error::InvalidPropertyType(43)));
}

#[test]
fn property_numbers_are_distinct() {
    let mut seen = Vec::new();
    for n in 0..=255u8 {
        if let Ok(p) = property(n) {
            assert!(!seen.contains(&p));
            seen.push(p);
        }
    }
    assert_eq!(seen.len(), 27);
}

#[test]
fn utf8_error_converts() {
    let bad = [0xFFu8];
    let e = std::str::from_utf8(&bad).unwrap_err();
    assert_eq!(Error::from(e), Error::PayloadNotUtf8(e));
}
