//! MQTT 3.1.1 (protocol level 4) packet codec and topic matching.
//!
//! The codec frames packets in a byte stream (`check`), decodes a frame into a
//! typed packet (`v4::read` and each packet's `read`) and encodes packets back
//! into bytes (each packet's `write`). Every decoder and encoder is proved
//! against a byte-level description of the wire format, and the round trip
//! from packet to bytes and back is proved in `v4::lemma_round_trip`.
pub mod error;
pub mod frame;
pub mod header;
pub mod qos;
pub mod topic;
pub mod v4;
pub mod varint;
pub mod wire;

pub use error::Error;
pub use header::{check, FixedHeader, PacketType};
pub use qos::{qos, Protocol, QoS};
pub use topic::{has_wildcards, valid_filter, valid_topic};
