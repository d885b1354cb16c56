use vstd::prelude::*;

use crate::error::Error;

verus! {

/// Quality of service of a message.
#[derive(Clone, Copy, Debug, PartialEq, Eq, Structural)]
pub enum QoS {
    AtMostOnce,
    AtLeastOnce,
    ExactlyOnce,
}

/// MQTT protocol version named in a CONNECT packet.
#[derive(Clone, Copy, Debug, PartialEq, Eq, Structural)]
pub enum Protocol {
    V4,
    V5,
}

/// The wire number of a QoS.
pub open spec fn qos_num(q: QoS) -> u8 {
    match q {
        QoS::AtMostOnce => 0,
        QoS::AtLeastOnce => 1,
        QoS::ExactlyOnce => 2,
    }
}

/// The QoS that a wire number stands for, if any.
pub open spec fn qos_of(num: u8) -> Option<QoS> {
    if num == 0 {
        Some(QoS::AtMostOnce)
    } else if num == 1 {
        Some(QoS::AtLeastOnce)
    } else if num == 2 {
        Some(QoS::ExactlyOnce)
    } else {
        None
    }
}

pub proof fn lemma_qos_num_of(q: QoS)
    ensures
        qos_of(qos_num(q)) == Some(q),
        qos_num(q) <= 2,
{
}

/// Maps a number to QoS.
pub fn qos(num: u8) -> (r: Result<QoS, Error>)
    ensures
        match qos_of(num) {
            Some(q) => r == Ok::<QoS, Error>(q),
            None => r == Err::<QoS, Error>(Error::InvalidQoS(num)),
        },
{
    match num {
        0 => Ok(QoS::AtMostOnce),
        1 => Ok(QoS::AtLeastOnce),
        2 => Ok(QoS::ExactlyOnce),
        n => Err(Error::InvalidQoS(n)),
    }
}

/// The wire number of a QoS.
pub fn qos_to_u8(q: QoS) -> (r: u8)
    ensures
        r == qos_num(q),
{
    match q {
        QoS::AtMostOnce => 0,
        QoS::AtLeastOnce => 1,
        QoS::ExactlyOnce => 2,
    }
}

} // verus!
