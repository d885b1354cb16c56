use vstd::prelude::*;

verus! {

/// Everything that can go wrong while framing, decoding or encoding a packet.
///
/// Only `InsufficientBytes` is retryable: it is returned while framing when more
/// bytes must arrive before a decision can be made. Every other kind means that
/// the byte stream can no longer be trusted.
#[derive(Clone, Copy, Debug, PartialEq, Eq, Structural)]
pub enum Error {
    /// A CONNACK return code outside 0..=5.
    InvalidConnectReturnCode(u8),
    /// A CONNECT whose protocol name or level is not MQTT 4 or 5.
    InvalidProtocol,
    /// A control packet type nibble outside 1..=14.
    InvalidPacketType(u8),
    /// A QoS number outside 0..=2.
    InvalidQoS(u8),
    /// A SUBACK return code that is none of 0, 1, 2 and 0x80.
    InvalidSubscribeReasonCode(u8),
    /// A packet identifier of 0 where the protocol asks for a non-zero one.
    PacketIdZero,
    /// A field longer than 65535 bytes, or a packet longer than the largest
    /// remaining length (268435455 bytes), while encoding.
    PayloadTooLong,
    /// The frame is longer than the allowed maximum packet size; carries the frame length.
    PayloadSizeLimitExceeded(usize),
    /// A structural violation: bad flags, a missing field, a length that does not fit.
    MalformedPacket,
    /// The remaining length still has its continuation bit set after 4 bytes.
    MalformedRemainingLength,
    /// At least this many more bytes are needed before a packet can be framed.
    InsufficientBytes(usize),
    /// A string field that is not valid UTF-8.
    TopicNotUtf8,
}

} // verus!
