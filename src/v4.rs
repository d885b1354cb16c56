pub mod connack;
pub mod connect;
pub mod disconnect;
pub mod ping;
pub mod puback;
pub mod pubcomp;
pub mod publish;
pub mod pubrec;
pub mod pubrel;
pub mod suback;
pub mod subscribe;
pub mod unsuback;
pub mod unsubscribe;

use vstd::prelude::*;

use crate::error::Error;
use crate::frame::{decoded, frame, frame_body, framed, lemma_frame_check, wrote};
use vstd::slice::slice_subrange;

use crate::header::{check, packet_type_of, spec_check, FixedHeader, PacketType};
use crate::qos::QoS;
use crate::varint::{lemma_varint_len, varint, MAX_REMAINING_LENGTH};
use crate::wire::parse_u16;
use connack::{connack_body, lemma_connack_round_trip, parse_connack, ConnAck};
use connect::{
    connect_body, lemma_connect_round_trip, parse_connect, spec_read_connect,
    spec_write_connect, Connect, ConnectV,
};
use disconnect::Disconnect;
use ping::{PingReq, PingResp};
use puback::PubAck;
use pubcomp::PubComp;
use publish::{
    lemma_publish_round_trip, parse_publish, publish_body, publish_byte1, spec_read_publish,
    spec_write_publish, Publish, PublishV,
};
use pubrec::PubRec;
use pubrel::PubRel;
use suback::{
    lemma_suback_round_trip, parse_suback, spec_read_suback, spec_write_suback, suback_body, SubAck,
    SubAckV,
};
use subscribe::{
    lemma_subscribe_round_trip, parse_subscribe, spec_read_subscribe, spec_write_subscribe,
    subscribe_body, Subscribe, SubscribeV,
};
use unsuback::UnsubAck;
use unsubscribe::{
    lemma_unsubscribe_round_trip, parse_unsubscribe, spec_read_unsubscribe, spec_write_unsubscribe,
    unsubscribe_body, Unsubscribe, UnsubscribeV,
};

verus! {

/// An MQTT 4 control packet of any kind.
#[derive(Debug)]
pub enum Packet {
    Connect(Connect),
    ConnAck(ConnAck),
    Publish(Publish),
    PubAck(PubAck),
    PubRec(PubRec),
    PubRel(PubRel),
    PubComp(PubComp),
    Subscribe(Subscribe),
    SubAck(SubAck),
    Unsubscribe(Unsubscribe),
    UnsubAck(UnsubAck),
    PingReq,
    PingResp,
    Disconnect,
}

/// Mathematical value of a `Packet`.
pub enum PacketV {
    Connect(ConnectV),
    ConnAck(ConnAck),
    Publish(PublishV),
    PubAck(PubAck),
    PubRec(PubRec),
    PubRel(PubRel),
    PubComp(PubComp),
    Subscribe(SubscribeV),
    SubAck(SubAckV),
    Unsubscribe(UnsubscribeV),
    UnsubAck(UnsubAck),
    PingReq,
    PingResp,
    Disconnect,
}

impl View for Packet {
    type V = PacketV;

    open spec fn view(&self) -> PacketV {
        match self {
            Packet::Connect(p) => PacketV::Connect(p@),
            Packet::ConnAck(p) => PacketV::ConnAck(*p),
            Packet::Publish(p) => PacketV::Publish(p@),
            Packet::PubAck(p) => PacketV::PubAck(*p),
            Packet::PubRec(p) => PacketV::PubRec(*p),
            Packet::PubRel(p) => PacketV::PubRel(*p),
            Packet::PubComp(p) => PacketV::PubComp(*p),
            Packet::Subscribe(p) => PacketV::Subscribe(p@),
            Packet::SubAck(p) => PacketV::SubAck(p@),
            Packet::Unsubscribe(p) => PacketV::Unsubscribe(p@),
            Packet::UnsubAck(p) => PacketV::UnsubAck(*p),
            Packet::PingReq => PacketV::PingReq,
            Packet::PingResp => PacketV::PingResp,
            Packet::Disconnect => PacketV::Disconnect,
        }
    }
}

/// Decoding of a frame of a packet without body, whose first byte must be `byte1`.
pub open spec fn spec_read_empty(h: FixedHeader, bytes: Seq<u8>, byte1: u8) -> Result<(), Error> {
    if h.byte1 != byte1 || frame_body(h, bytes) != Some(Seq::<u8>::empty()) {
        Err(Error::MalformedPacket)
    } else {
        Ok(())
    }
}

/// Decoding of the frame `bytes` that `h` describes, by the packet type that
/// its first byte names.
pub open spec fn spec_read_packet(h: FixedHeader, bytes: Seq<u8>) -> Result<PacketV, Error> {
    match packet_type_of(h.byte1 >> 4u8) {
        None => Err(Error::InvalidPacketType(h.byte1 >> 4u8)),
        Some(PacketType::Connect) => match spec_read_connect(h, bytes) {
            Ok(p) => Ok(PacketV::Connect(p)),
            Err(e) => Err(e),
        },
        Some(PacketType::ConnAck) => match ConnAck::spec_read(h, bytes) {
            Ok(p) => Ok(PacketV::ConnAck(p)),
            Err(e) => Err(e),
        },
        Some(PacketType::Publish) => match spec_read_publish(h, bytes) {
            Ok(p) => Ok(PacketV::Publish(p)),
            Err(e) => Err(e),
        },
        Some(PacketType::PubAck) => match PubAck::spec_read(h, bytes) {
            Ok(p) => Ok(PacketV::PubAck(p)),
            Err(e) => Err(e),
        },
        Some(PacketType::PubRec) => match PubRec::spec_read(h, bytes) {
            Ok(p) => Ok(PacketV::PubRec(p)),
            Err(e) => Err(e),
        },
        Some(PacketType::PubRel) => match PubRel::spec_read(h, bytes) {
            Ok(p) => Ok(PacketV::PubRel(p)),
            Err(e) => Err(e),
        },
        Some(PacketType::PubComp) => match PubComp::spec_read(h, bytes) {
            Ok(p) => Ok(PacketV::PubComp(p)),
            Err(e) => Err(e),
        },
        Some(PacketType::Subscribe) => match spec_read_subscribe(h, bytes) {
            Ok(p) => Ok(PacketV::Subscribe(p)),
            Err(e) => Err(e),
        },
        Some(PacketType::SubAck) => match spec_read_suback(h, bytes) {
            Ok(p) => Ok(PacketV::SubAck(p)),
            Err(e) => Err(e),
        },
        Some(PacketType::Unsubscribe) => match spec_read_unsubscribe(h, bytes) {
            Ok(p) => Ok(PacketV::Unsubscribe(p)),
            Err(e) => Err(e),
        },
        Some(PacketType::UnsubAck) => match UnsubAck::spec_read(h, bytes) {
            Ok(p) => Ok(PacketV::UnsubAck(p)),
            Err(e) => Err(e),
        },
        Some(PacketType::PingReq) => match spec_read_empty(h, bytes, 0xC0u8) {
            Ok(_) => Ok(PacketV::PingReq),
            Err(e) => Err(e),
        },
        Some(PacketType::PingResp) => match spec_read_empty(h, bytes, 0xD0u8) {
            Ok(_) => Ok(PacketV::PingResp),
            Err(e) => Err(e),
        },
        Some(PacketType::Disconnect) => match spec_read_empty(h, bytes, 0xE0u8) {
            Ok(_) => Ok(PacketV::Disconnect),
            Err(e) => Err(e),
        },
    }
}

/// Encoding of a packet as a frame.
pub open spec fn spec_write_packet(p: PacketV) -> Result<Seq<u8>, Error> {
    match p {
        PacketV::Connect(p) => spec_write_connect(p),
        PacketV::ConnAck(p) => p.spec_write(),
        PacketV::Publish(p) => spec_write_publish(p),
        PacketV::PubAck(p) => p.spec_write(),
        PacketV::PubRec(p) => p.spec_write(),
        PacketV::PubRel(p) => p.spec_write(),
        PacketV::PubComp(p) => p.spec_write(),
        PacketV::Subscribe(p) => spec_write_subscribe(p),
        PacketV::SubAck(p) => spec_write_suback(p),
        PacketV::Unsubscribe(p) => spec_write_unsubscribe(p),
        PacketV::UnsubAck(p) => p.spec_write(),
        PacketV::PingReq => framed(0xC0u8, Seq::<u8>::empty()),
        PacketV::PingResp => framed(0xD0u8, Seq::<u8>::empty()),
        PacketV::Disconnect => framed(0xE0u8, Seq::<u8>::empty()),
    }
}

/// What a packet must satisfy, beyond being accepted by the encoder, to be
/// decoded back: a publish sent at most once carries packet identifier 0, as
/// it has none on the wire.
pub open spec fn packet_wf(p: PacketV) -> bool {
    match p {
        PacketV::Publish(p) => p.qos == QoS::AtMostOnce ==> p.pkid == 0,
        _ => true,
    }
}

proof fn lemma_shr4(b: u8)
    ensures
        b >> 4u8 == b / 16,
{
    assert(b >> 4u8 == b / 16) by (bit_vector);
}

/// Round trip: every packet that the encoder accepts and that satisfies
/// `packet_wf` is framed whole by `check` from its encoding, whatever bytes
/// follow it, as long as the frame fits `max`; and decoding that frame gives
/// the packet back.
pub proof fn lemma_round_trip(p: PacketV, rest: Seq<u8>, max: nat)
    requires
        packet_wf(p),
        spec_write_packet(p) is Ok,
        spec_write_packet(p)->Ok_0.len() <= max,
    ensures
        spec_check(spec_write_packet(p)->Ok_0 + rest, max) matches Ok(h) && h.spec_frame_length() == spec_write_packet(p)->Ok_0.len()
            && spec_read_packet(h, spec_write_packet(p)->Ok_0) == Ok::<PacketV, Error>(p),
{
    let (b1, body) = packet_frame_parts(p);
    lemma_frame_check(b1, body, rest, max);
    lemma_shr4(b1);
    lemma_decode_parts(p);
}

/// First byte and body of the frame of a packet.
pub open spec fn packet_frame_parts(p: PacketV) -> (u8, Seq<u8>) {
    match p {
        PacketV::Connect(p) => (0x10u8, connect_body(p)),
        PacketV::ConnAck(p) => (0x20u8, connack_body(p)),
        PacketV::Publish(p) => (publish_byte1(p), publish_body(p)),
        PacketV::PubAck(p) => (0x40u8, crate::wire::be16(p.pkid)),
        PacketV::PubRec(p) => (0x50u8, crate::wire::be16(p.pkid)),
        PacketV::PubRel(p) => (0x62u8, crate::wire::be16(p.pkid)),
        PacketV::PubComp(p) => (0x70u8, crate::wire::be16(p.pkid)),
        PacketV::Subscribe(p) => (0x82u8, subscribe_body(p)),
        PacketV::SubAck(p) => (0x90u8, suback_body(p)),
        PacketV::Unsubscribe(p) => (0xA2u8, unsubscribe_body(p)),
        PacketV::UnsubAck(p) => (0xB0u8, crate::wire::be16(p.pkid)),
        PacketV::PingReq => (0xC0u8, Seq::<u8>::empty()),
        PacketV::PingResp => (0xD0u8, Seq::<u8>::empty()),
        PacketV::Disconnect => (0xE0u8, Seq::<u8>::empty()),
    }
}

proof fn lemma_decode_parts(p: PacketV)
    requires
        packet_wf(p),
        spec_write_packet(p) is Ok,
    ensures
        ({
            let (b1, body) = packet_frame_parts(p);
            &&& body.len() <= MAX_REMAINING_LENGTH
            &&& spec_write_packet(p) == Ok::<Seq<u8>, Error>(frame(b1, body))
            &&& forall|h: FixedHeader, bytes: Seq<u8>|
                h.byte1 == b1 && frame_body(h, bytes) == Some(body) ==> #[trigger] spec_read_packet(h, bytes)
                    == Ok::<PacketV, Error>(p)
        }),
{
    let (b1, body) = packet_frame_parts(p);
    lemma_shr4(b1);
    match p {
        PacketV::Publish(q) => {
            lemma_publish_round_trip(q);
        },
        PacketV::Connect(c) => {
            lemma_connect_round_trip(c);
        },
        PacketV::ConnAck(c) => {
            lemma_connack_round_trip(c);
        },
        PacketV::Subscribe(s) => {
            lemma_subscribe_round_trip(s);
        },
        PacketV::SubAck(s) => {
            lemma_suback_round_trip(s);
        },
        PacketV::Unsubscribe(u) => {
            lemma_unsubscribe_round_trip(u);
        },
        PacketV::PubAck(q) => {
            crate::wire::lemma_parse_u16(q.pkid, Seq::<u8>::empty());
            assert(crate::wire::be16(q.pkid) + Seq::<u8>::empty() =~= crate::wire::be16(q.pkid));
        },
        PacketV::PubRec(q) => {
            crate::wire::lemma_parse_u16(q.pkid, Seq::<u8>::empty());
            assert(crate::wire::be16(q.pkid) + Seq::<u8>::empty() =~= crate::wire::be16(q.pkid));
        },
        PacketV::PubRel(q) => {
            crate::wire::lemma_parse_u16(q.pkid, Seq::<u8>::empty());
            assert(crate::wire::be16(q.pkid) + Seq::<u8>::empty() =~= crate::wire::be16(q.pkid));
        },
        PacketV::PubComp(q) => {
            crate::wire::lemma_parse_u16(q.pkid, Seq::<u8>::empty());
            assert(crate::wire::be16(q.pkid) + Seq::<u8>::empty() =~= crate::wire::be16(q.pkid));
        },
        PacketV::UnsubAck(q) => {
            crate::wire::lemma_parse_u16(q.pkid, Seq::<u8>::empty());
            assert(crate::wire::be16(q.pkid) + Seq::<u8>::empty() =~= crate::wire::be16(q.pkid));
        },
        _ => {},
    }
}

/// Decodes the frame `frame` that `h` describes, by the packet type that its
/// first byte names.
pub fn read_frame(h: FixedHeader, frame: &[u8]) -> (r: Result<Packet, Error>)
    requires
        h.wf(),
    ensures
        decoded(r, spec_read_packet(h, frame@)),
{
    let ghost b1 = h.byte1;
    proof {
        lemma_shr4(b1);
    }
    let t = match h.packet_type() {
        Ok(t) => t,
        Err(e) => return Err(e),
    };
    if frame.len() == h.frame_length() && h.remaining_len == 0 {
        assert(frame@.skip(h.header_len() as int) =~= Seq::<u8>::empty());
    }
    match t {
        PacketType::Connect => match Connect::read(h, frame) {
            Ok(p) => Ok(Packet::Connect(p)),
            Err(e) => Err(e),
        },
        PacketType::ConnAck => match ConnAck::read(h, frame) {
            Ok(p) => Ok(Packet::ConnAck(p)),
            Err(e) => Err(e),
        },
        PacketType::Publish => match Publish::read(h, frame) {
            Ok(p) => Ok(Packet::Publish(p)),
            Err(e) => Err(e),
        },
        PacketType::PubAck => match PubAck::read(h, frame) {
            Ok(p) => Ok(Packet::PubAck(p)),
            Err(e) => Err(e),
        },
        PacketType::PubRec => match PubRec::read(h, frame) {
            Ok(p) => Ok(Packet::PubRec(p)),
            Err(e) => Err(e),
        },
        PacketType::PubRel => match PubRel::read(h, frame) {
            Ok(p) => Ok(Packet::PubRel(p)),
            Err(e) => Err(e),
        },
        PacketType::PubComp => match PubComp::read(h, frame) {
            Ok(p) => Ok(Packet::PubComp(p)),
            Err(e) => Err(e),
        },
        PacketType::Subscribe => match Subscribe::read(h, frame) {
            Ok(p) => Ok(Packet::Subscribe(p)),
            Err(e) => Err(e),
        },
        PacketType::SubAck => match SubAck::read(h, frame) {
            Ok(p) => Ok(Packet::SubAck(p)),
            Err(e) => Err(e),
        },
        PacketType::Unsubscribe => match Unsubscribe::read(h, frame) {
            Ok(p) => Ok(Packet::Unsubscribe(p)),
            Err(e) => Err(e),
        },
        PacketType::UnsubAck => match UnsubAck::read(h, frame) {
            Ok(p) => Ok(Packet::UnsubAck(p)),
            Err(e) => Err(e),
        },
        PacketType::PingReq => if h.byte1 != 0xC0u8 || h.remaining_len != 0 || frame.len() != h.frame_length() {
            Err(Error::MalformedPacket)
        } else {
            Ok(Packet::PingReq)
        },
        PacketType::PingResp => if h.byte1 != 0xD0u8 || h.remaining_len != 0 || frame.len() != h.frame_length() {
            Err(Error::MalformedPacket)
        } else {
            Ok(Packet::PingResp)
        },
        PacketType::Disconnect => if h.byte1 != 0xE0u8 || h.remaining_len != 0 || frame.len() != h.frame_length() {
            Err(Error::MalformedPacket)
        } else {
            Ok(Packet::Disconnect)
        },
    }
}

/// Reads the next packet of `stream` from `cursor` on.
///
/// The stream's available bytes are first framed with `check`. When that
/// fails the cursor stays where it was, so the read can be tried again once
/// more bytes have arrived (only `InsufficientBytes` is worth retrying).
/// When it succeeds the cursor moves past the whole frame, and only then is
/// the frame decoded: a decoding error leaves the cursor after the bad frame,
/// and the connection should be closed.
pub fn read(stream: &[u8], cursor: &mut usize, max_size: usize) -> (r: Result<Packet, Error>)
    requires
        *old(cursor) <= stream@.len(),
    ensures
        match spec_check(stream@.skip(*old(cursor) as int), max_size as nat) {
            Err(e) => r matches Err(f) && f == e && *final(cursor) == *old(cursor),
            Ok(h) => *final(cursor) == *old(cursor) + h.spec_frame_length()
                && *final(cursor) <= stream@.len()
                && decoded(r, spec_read_packet(h, stream@.subrange(*old(cursor) as int, *final(cursor) as int))),
        },
{
    let start: usize = *cursor;
    let available = slice_subrange(stream, start, stream.len());
    assert(available@ =~= stream@.skip(start as int));
    let h = match check(available, max_size) {
        Ok(h) => h,
        Err(e) => return Err(e),
    };
    let end: usize = start + h.frame_length();
    let frame = slice_subrange(stream, start, end);
    *cursor = end;
    read_frame(h, frame)
}

impl Packet {
    /// Appends the frame of this packet to `buffer` and returns its length.
    pub fn write(&self, buffer: &mut Vec<u8>) -> (r: Result<usize, Error>)
        ensures
            wrote(r, old(buffer)@, final(buffer)@, spec_write_packet(self@)),
    {
        match self {
            Packet::Connect(p) => p.write(buffer),
            Packet::ConnAck(p) => p.write(buffer),
            Packet::Publish(p) => p.write(buffer),
            Packet::PubAck(p) => p.write(buffer),
            Packet::PubRec(p) => p.write(buffer),
            Packet::PubRel(p) => p.write(buffer),
            Packet::PubComp(p) => p.write(buffer),
            Packet::Subscribe(p) => p.write(buffer),
            Packet::SubAck(p) => p.write(buffer),
            Packet::Unsubscribe(p) => p.write(buffer),
            Packet::UnsubAck(p) => p.write(buffer),
            Packet::PingReq => PingReq.write(buffer),
            Packet::PingResp => PingResp.write(buffer),
            Packet::Disconnect => Disconnect.write(buffer),
        }
    }
}

} // verus!
