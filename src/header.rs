use vstd::prelude::*;

use crate::error::Error;
use crate::varint::{
    decode_varint, lemma_decode_varint_bounds, lemma_decode_varint_prefix, read_remaining_length,
};

verus! {

/// MQTT control packet type, numbered as the high nibble of the first byte.
#[derive(Clone, Copy, Debug, PartialEq, Eq, Structural)]
pub enum PacketType {
    Connect,
    ConnAck,
    Publish,
    PubAck,
    PubRec,
    PubRel,
    PubComp,
    Subscribe,
    SubAck,
    Unsubscribe,
    UnsubAck,
    PingReq,
    PingResp,
    Disconnect,
}

/// The packet type of a type nibble, if it names one.
pub open spec fn packet_type_of(num: u8) -> Option<PacketType> {
    if num == 1 {
        Some(PacketType::Connect)
    } else if num == 2 {
        Some(PacketType::ConnAck)
    } else if num == 3 {
        Some(PacketType::Publish)
    } else if num == 4 {
        Some(PacketType::PubAck)
    } else if num == 5 {
        Some(PacketType::PubRec)
    } else if num == 6 {
        Some(PacketType::PubRel)
    } else if num == 7 {
        Some(PacketType::PubComp)
    } else if num == 8 {
        Some(PacketType::Subscribe)
    } else if num == 9 {
        Some(PacketType::SubAck)
    } else if num == 10 {
        Some(PacketType::Unsubscribe)
    } else if num == 11 {
        Some(PacketType::UnsubAck)
    } else if num == 12 {
        Some(PacketType::PingReq)
    } else if num == 13 {
        Some(PacketType::PingResp)
    } else if num == 14 {
        Some(PacketType::Disconnect)
    } else {
        None
    }
}

/// The wire number of a packet type: 1 for CONNECT up to 14 for DISCONNECT.
pub open spec fn packet_type_num(t: PacketType) -> u8 {
    match t {
        PacketType::Connect => 1,
        PacketType::ConnAck => 2,
        PacketType::Publish => 3,
        PacketType::PubAck => 4,
        PacketType::PubRec => 5,
        PacketType::PubRel => 6,
        PacketType::PubComp => 7,
        PacketType::Subscribe => 8,
        PacketType::SubAck => 9,
        PacketType::Unsubscribe => 10,
        PacketType::UnsubAck => 11,
        PacketType::PingReq => 12,
        PacketType::PingResp => 13,
        PacketType::Disconnect => 14,
    }
}

impl PacketType {
    /// The wire number of this packet type, 1 to 14.
    pub fn value(&self) -> (r: u8)
        ensures
            r == packet_type_num(*self),
            1 <= r <= 14,
            packet_type_of(r) == Some(*self),
    {
        match self {
            PacketType::Connect => 1,
            PacketType::ConnAck => 2,
            PacketType::Publish => 3,
            PacketType::PubAck => 4,
            PacketType::PubRec => 5,
            PacketType::PubRel => 6,
            PacketType::PubComp => 7,
            PacketType::Subscribe => 8,
            PacketType::SubAck => 9,
            PacketType::Unsubscribe => 10,
            PacketType::UnsubAck => 11,
            PacketType::PingReq => 12,
            PacketType::PingResp => 13,
            PacketType::Disconnect => 14,
        }
    }
}

/// Fixed header of a packet: the first byte (type and flags), the number of
/// bytes of the remaining length field, and the remaining length itself.
///
/// ```text
///          7                          3                          0
///          +--------------------------+--------------------------+
/// byte 1   | MQTT Control Packet Type | Flags for each type      |
///          +--------------------------+--------------------------+
///          |         Remaining Bytes Len  (1/2/3/4 bytes)        |
///          +-----------------------------------------------------+
/// ```
#[derive(Clone, Copy, Debug, PartialEq, Eq, Structural)]
pub struct FixedHeader {
    pub byte1: u8,
    pub remaining_len_len: usize,
    pub remaining_len: usize,
}

impl FixedHeader {
    /// A header is well formed when its remaining length takes 1 to 4 bytes and
    /// its frame length fits a `usize`.
    pub open spec fn wf(&self) -> bool {
        &&& 1 <= self.remaining_len_len <= 4
        &&& self.remaining_len + 5 <= usize::MAX
    }

    /// Number of bytes of the fixed header itself.
    pub open spec fn header_len(&self) -> nat {
        (1 + self.remaining_len_len) as nat
    }

    /// Size of the whole frame: fixed header, variable header and payload.
    pub open spec fn spec_frame_length(&self) -> nat {
        (1 + self.remaining_len_len + self.remaining_len) as nat
    }

    pub fn new(byte1: u8, remaining_len_len: usize, remaining_len: usize) -> (r: FixedHeader)
        requires
            1 <= remaining_len_len <= 4,
            remaining_len + 5 <= usize::MAX,
        ensures
            r == (FixedHeader { byte1, remaining_len_len, remaining_len }),
            r.wf(),
    {
        FixedHeader { byte1, remaining_len_len, remaining_len }
    }

    /// The packet type that the high nibble of the first byte names.
    pub fn packet_type(&self) -> (r: Result<PacketType, Error>)
        ensures
            match packet_type_of(self.byte1 >> 4u8) {
                Some(t) => r == Ok::<PacketType, Error>(t),
                None => r == Err::<PacketType, Error>(Error::InvalidPacketType(self.byte1 >> 4u8)),
            },
            r matches Ok(t) ==> packet_type_num(t) == self.byte1 >> 4u8,
            (r is Ok) <==> (1 <= self.byte1 >> 4u8 <= 14),
    {
        let num: u8 = self.byte1 >> 4u8;
        match num {
            1 => Ok(PacketType::Connect),
            2 => Ok(PacketType::ConnAck),
            3 => Ok(PacketType::Publish),
            4 => Ok(PacketType::PubAck),
            5 => Ok(PacketType::PubRec),
            6 => Ok(PacketType::PubRel),
            7 => Ok(PacketType::PubComp),
            8 => Ok(PacketType::Subscribe),
            9 => Ok(PacketType::SubAck),
            10 => Ok(PacketType::Unsubscribe),
            11 => Ok(PacketType::UnsubAck),
            12 => Ok(PacketType::PingReq),
            13 => Ok(PacketType::PingResp),
            14 => Ok(PacketType::Disconnect),
            n => Err(Error::InvalidPacketType(n)),
        }
    }

    /// Returns the size of the full packet (fixed header + variable header + payload).
    pub fn frame_length(&self) -> (r: usize)
        requires
            self.wf(),
        ensures
            r == self.spec_frame_length(),
    {
        1 + self.remaining_len_len + self.remaining_len
    }
}

/// What `check` decides on the buffered bytes `s` with the size bound `max`.
pub open spec fn spec_check(s: Seq<u8>, max: nat) -> Result<FixedHeader, Error> {
    if s.len() < 2 {
        Err(Error::InsufficientBytes((2 - s.len()) as usize))
    } else {
        match decode_varint(s.skip(1)) {
            Err(e) => Err(e),
            Ok((len_len, len)) => {
                let frame = 1 + len_len + len;
                if frame > max {
                    Err(Error::PayloadSizeLimitExceeded(frame as usize))
                } else if s.len() < frame {
                    Err(Error::InsufficientBytes((frame - s.len()) as usize))
                } else {
                    Ok(FixedHeader { byte1: s[0], remaining_len_len: len_len as usize, remaining_len: len as usize })
                }
            },
        }
    }
}

/// A buffer that holds only the start of a frame asks for more bytes: when a
/// frame that fits the size bound has been framed from `s`, every shorter
/// prefix of `s` gives `InsufficientBytes` with a positive count, which is
/// exactly the number of missing bytes once the fixed header is complete.
pub proof fn lemma_check_prefix(s: Seq<u8>, k: nat, max: nat)
    requires
        spec_check(s, max) is Ok,
        k < spec_check(s, max)->Ok_0.spec_frame_length(),
        k <= s.len(),
    ensures
        spec_check(s.take(k as int), max) matches Err(Error::InsufficientBytes(n)) && n > 0,
        k >= spec_check(s, max)->Ok_0.header_len() ==> spec_check(s.take(k as int), max)
            == Err::<FixedHeader, Error>(
            Error::InsufficientBytes((spec_check(s, max)->Ok_0.spec_frame_length() - k) as usize),
        ),
{
    let p = s.take(k as int);
    lemma_decode_varint_bounds(s.skip(1));
    if k >= 2 {
        assert(p.skip(1) =~= s.skip(1).take(k - 1));
        lemma_decode_varint_prefix(s.skip(1), (k - 1) as nat);
    }
}

/// The size bound holds even for a well-formed length: when the remaining
/// length is complete and the frame it announces is longer than `max`, the
/// check fails with `PayloadSizeLimitExceeded`, whether or not the frame's
/// bytes are there.
pub proof fn lemma_check_size_limit(s: Seq<u8>, max: nat)
    requires
        s.len() >= 2,
        decode_varint(s.skip(1)) matches Ok((ll, len)) && 1 + ll + len > max,
    ensures
        decode_varint(s.skip(1)) matches Ok((ll, len)) && spec_check(s, max) == Err::<FixedHeader, Error>(
            Error::PayloadSizeLimitExceeded((1 + ll + len) as usize),
        ),
{
}

/// Checks whether `stream` holds enough bytes to frame a packet and returns its
/// fixed header only if a whole packet can be framed from those bytes.
/// Reads `stream` and nothing else, so a failed check can be repeated as more
/// bytes arrive.
pub fn check(stream: &[u8], max_packet_size: usize) -> (r: Result<FixedHeader, Error>)
    ensures
        r == spec_check(stream@, max_packet_size as nat),
        r matches Ok(h) ==> h.wf() && h.spec_frame_length() <= stream@.len(),
{
    let stream_len = stream.len();
    if stream_len < 2 {
        return Err(Error::InsufficientBytes(2 - stream_len));
    }
    let byte1 = stream[0];
    let (len_len, len) = match read_remaining_length(stream, 1) {
        Ok(v) => v,
        Err(e) => return Err(e),
    };
    proof {
        lemma_decode_varint_bounds(stream@.skip(1));
    }
    let frame_length = 1 + len_len + len;
    if frame_length > max_packet_size {
        return Err(Error::PayloadSizeLimitExceeded(frame_length));
    }
    if stream_len < frame_length {
        return Err(Error::InsufficientBytes(frame_length - stream_len));
    }
    Ok(FixedHeader { byte1, remaining_len_len: len_len, remaining_len: len })
}

} // verus!
