use vstd::prelude::*;

verus! {

/// Quality of service
#[derive(Debug, Clone, Copy, PartialEq, Eq, PartialOrd)]
pub enum QoS {
    AtMostOnce,
    AtLeastOnce,
    ExactlyOnce,
}

/// The number that stands for a quality of service on the wire.
pub open spec fn qos_number(q: QoS) -> u8 {
    match q {
        QoS::AtMostOnce => 0,
        QoS::AtLeastOnce => 1,
        QoS::ExactlyOnce => 2,
    }
}

impl Default for QoS {
    fn default() -> (q: Self)
        ensures
            q == QoS::AtMostOnce,
    {
        Self::AtMostOnce
    }
}

/// Maps a number to `QoS`
pub fn qos(num: u8) -> (res: Option<QoS>)
    ensures
        res matches Some(q) ==> qos_number(q) == num,
        res is None <==> num > 2,
{
    match num {
        0 => Some(QoS::AtMostOnce),
        1 => Some(QoS::AtLeastOnce),
        2 => Some(QoS::ExactlyOnce),
        _ => None,
    }
}

} // verus!
