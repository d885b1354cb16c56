use vstd::prelude::*;

use crate::error::Error;
use crate::frame::{decoded, frame, frame_body, framed, write_frame, wrote};
use crate::header::FixedHeader;
use crate::qos::{lemma_qos_num_of, qos, qos_num, qos_of, qos_to_u8, QoS};
use crate::varint::{lemma_varint_len_exact, varint, MAX_REMAINING_LENGTH};
use crate::wire::{
    be16, lemma_parse_string, lemma_parse_u16, lp_string, parse_string, parse_u16, read_rest,
    read_string, read_u16, str_utf8_len, utf8_len, write_raw, write_string, write_u16, MAX_FIELD_LENGTH,
};

verus! {

/// Publish packet.
///
/// The first byte carries DUP (bit 3), QoS (bits 2-1) and RETAIN (bit 0). The
/// body is the topic, then the packet identifier only when QoS is not
/// `AtMostOnce`, then the payload up to the end of the frame.
#[derive(Debug)]
pub struct Publish {
    pub dup: bool,
    pub qos: QoS,
    pub retain: bool,
    pub topic: String,
    pub pkid: u16,
    pub payload: Vec<u8>,
}

/// Mathematical value of a `Publish`.
pub struct PublishV {
    pub dup: bool,
    pub qos: QoS,
    pub retain: bool,
    pub topic: Seq<char>,
    pub pkid: u16,
    pub payload: Seq<u8>,
}

impl View for Publish {
    type V = PublishV;

    open spec fn view(&self) -> PublishV {
        PublishV {
            dup: self.dup,
            qos: self.qos,
            retain: self.retain,
            topic: self.topic@,
            pkid: self.pkid,
            payload: self.payload@,
        }
    }
}

/// First byte of a publish frame.
pub open spec fn publish_byte1(p: PublishV) -> u8 {
    (0x30 + (if p.dup { 8int } else { 0int }) + qos_num(p.qos) * 2 + (if p.retain { 1int } else { 0int })) as u8
}

/// Body of a publish frame.
pub open spec fn publish_body(p: PublishV) -> Seq<u8> {
    lp_string(p.topic) + (if p.qos == QoS::AtMostOnce { Seq::<u8>::empty() } else { be16(p.pkid) }) + p.payload
}

/// Encoding of a publish packet as a frame.
pub open spec fn spec_write_publish(p: PublishV) -> Result<Seq<u8>, Error> {
    if utf8_len(p.topic) > MAX_FIELD_LENGTH {
        Err(Error::PayloadTooLong)
    } else if p.qos != QoS::AtMostOnce && p.pkid == 0 {
        Err(Error::PacketIdZero)
    } else {
        framed(publish_byte1(p), publish_body(p))
    }
}

/// Decoding of a publish body under the first byte `byte1`.
pub open spec fn parse_publish(byte1: u8, body: Seq<u8>) -> Result<PublishV, Error> {
    let num = ((byte1 / 2) % 4) as u8;
    let dup = (byte1 / 8) % 2 == 1;
    let retain = byte1 % 2 == 1;
    match qos_of(num) {
        None => Err(Error::InvalidQoS(num)),
        Some(qos) => match parse_string(body) {
            Err(e) => Err(e),
            Ok((topic, rest)) => if qos == QoS::AtMostOnce {
                Ok(PublishV { dup, qos, retain, topic, pkid: 0, payload: rest })
            } else {
                match parse_u16(rest) {
                    Err(e) => Err(e),
                    Ok((pkid, payload)) => if pkid == 0 {
                        Err(Error::PacketIdZero)
                    } else {
                        Ok(PublishV { dup, qos, retain, topic, pkid, payload })
                    },
                }
            },
        },
    }
}

/// Decoding of the publish frame `bytes` that `h` describes.
pub open spec fn spec_read_publish(h: FixedHeader, bytes: Seq<u8>) -> Result<PublishV, Error> {
    if h.byte1 / 16 != 3 {
        Err(Error::MalformedPacket)
    } else {
        match frame_body(h, bytes) {
            None => Err(Error::MalformedPacket),
            Some(body) => parse_publish(h.byte1, body),
        }
    }
}

/// A publish packet decodes back from its own body, provided that a packet
/// sent at most once carries no packet identifier.
pub proof fn lemma_publish_round_trip(p: PublishV)
    requires
        spec_write_publish(p) is Ok,
        p.qos == QoS::AtMostOnce ==> p.pkid == 0,
    ensures
        parse_publish(publish_byte1(p), publish_body(p)) == Ok::<PublishV, Error>(p),
        publish_byte1(p) / 16 == 3,
{
    lemma_qos_num_of(p.qos);
    let b1 = publish_byte1(p);
    let tail = (if p.qos == QoS::AtMostOnce { Seq::<u8>::empty() } else { be16(p.pkid) }) + p.payload;
    assert(publish_body(p) =~= lp_string(p.topic) + tail);
    lemma_parse_string(p.topic, tail);
    if p.qos != QoS::AtMostOnce {
        lemma_parse_u16(p.pkid, p.payload);
    } else {
        assert(tail =~= p.payload);
    }
}

/// A publish sent at most once has no packet identifier on the wire: its frame
/// is the first byte, the remaining length, the topic with its 2-byte length,
/// and the payload.
pub proof fn lemma_publish_at_most_once_length(p: PublishV)
    requires
        p.qos == QoS::AtMostOnce,
        spec_write_publish(p) is Ok,
    ensures
        spec_write_publish(p) == Ok::<Seq<u8>, Error>(frame(publish_byte1(p), publish_body(p))),
        publish_body(p) == lp_string(p.topic) + p.payload,
        publish_body(p).len() == 2 + utf8_len(p.topic) + p.payload.len(),
        frame(publish_byte1(p), publish_body(p)).len()
            == 1 + varint(publish_body(p).len()).len() + 2 + utf8_len(p.topic) + p.payload.len(),
{
    assert(publish_body(p) =~= lp_string(p.topic) + p.payload);
}

/// The remaining length of a publish counts the topic with its 2-byte length,
/// the packet identifier when QoS is not `AtMostOnce`, and the payload. When
/// the topic fits its length prefix and the packet identifier is acceptable,
/// a remaining length up to 268435455 is written in 1 to 4 bytes right after
/// the first byte, and a larger one is refused with `PayloadTooLong`; so is a
/// topic of more than 65535 bytes.
pub proof fn lemma_publish_remaining_length(p: PublishV)
    requires
        p.qos == QoS::AtMostOnce || p.pkid != 0,
    ensures
        publish_body(p).len() == 2 + utf8_len(p.topic) + (if p.qos == QoS::AtMostOnce { 0int } else { 2int }) + p.payload.len(),
        utf8_len(p.topic) > MAX_FIELD_LENGTH ==> spec_write_publish(p) == Err::<Seq<u8>, Error>(Error::PayloadTooLong),
        utf8_len(p.topic) <= MAX_FIELD_LENGTH && publish_body(p).len() > MAX_REMAINING_LENGTH
            ==> spec_write_publish(p) == Err::<Seq<u8>, Error>(Error::PayloadTooLong),
        utf8_len(p.topic) <= MAX_FIELD_LENGTH && publish_body(p).len() <= MAX_REMAINING_LENGTH ==> ({
            let len = publish_body(p).len();
            let k: int = if len < 128 { 1 } else if len < 16384 { 2 } else if len < 2097152 { 3 } else { 4 };
            &&& spec_write_publish(p) is Ok
            &&& spec_write_publish(p)->Ok_0.subrange(1, 1 + k) == varint(len)
            &&& varint(len).len() == k
            &&& spec_write_publish(p)->Ok_0.len() == 1 + k + len
        }),
{
    let len = publish_body(p).len();
    if len <= MAX_REMAINING_LENGTH {
        lemma_varint_len_exact(len);
        let f = frame(publish_byte1(p), publish_body(p));
        assert(f.subrange(1, 1 + varint(len).len() as int) =~= varint(len));
    }
}

impl Publish {
    pub fn new(topic: String, qos: QoS, payload: Vec<u8>) -> (r: Publish)
        ensures
            r@ == (PublishV { dup: false, qos, retain: false, topic: topic@, pkid: 0, payload: payload@ }),
    {
        Publish { dup: false, qos, retain: false, topic, pkid: 0, payload }
    }

    /// Number of bytes of the body (what the remaining length counts).
    pub fn len(&self) -> (r: usize)
        requires
            utf8_len(self.topic@) + self.payload@.len() + 4 <= usize::MAX,
        ensures
            r == publish_body(self@).len(),
    {
        let topic_len = str_utf8_len(self.topic.as_str());
        let pkid_len: usize = if self.qos == QoS::AtMostOnce { 0 } else { 2 };
        2 + topic_len + pkid_len + self.payload.len()
    }

    /// Decodes the frame `bytes` (fixed header included) that `fixed_header` describes.
    pub fn read(fixed_header: FixedHeader, bytes: &[u8]) -> (r: Result<Publish, Error>)
        requires
            fixed_header.wf(),
        ensures
            decoded(r, spec_read_publish(fixed_header, bytes@)),
    {
        let byte1 = fixed_header.byte1;
        if byte1 / 16 != 3 || bytes.len() != fixed_header.frame_length() {
            return Err(Error::MalformedPacket);
        }
        let pos = 1 + fixed_header.remaining_len_len;
        let qos = match qos((byte1 / 2) % 4) {
            Ok(q) => q,
            Err(e) => return Err(e),
        };
        let dup = (byte1 / 8) % 2 == 1;
        let retain = byte1 % 2 == 1;
        let (topic, pos) = match read_string(bytes, pos) {
            Ok(v) => v,
            Err(e) => return Err(e),
        };
        if qos == QoS::AtMostOnce {
            let payload = read_rest(bytes, pos);
            return Ok(Publish { dup, qos, retain, topic, pkid: 0, payload });
        }
        let (pkid, pos) = match read_u16(bytes, pos) {
            Ok(v) => v,
            Err(e) => return Err(e),
        };
        if pkid == 0 {
            return Err(Error::PacketIdZero);
        }
        let payload = read_rest(bytes, pos);
        Ok(Publish { dup, qos, retain, topic, pkid, payload })
    }

    /// Appends the frame of this packet to `buffer` and returns its length.
    pub fn write(&self, buffer: &mut Vec<u8>) -> (r: Result<usize, Error>)
        ensures
            wrote(r, old(buffer)@, final(buffer)@, spec_write_publish(self@)),
    {
        if str_utf8_len(self.topic.as_str()) > MAX_FIELD_LENGTH {
            return Err(Error::PayloadTooLong);
        }
        if self.qos != QoS::AtMostOnce && self.pkid == 0 {
            return Err(Error::PacketIdZero);
        }
        let byte1: u8 = 0x30 + (if self.dup { 8u8 } else { 0u8 }) + qos_to_u8(self.qos) * 2 + (if self.retain { 1u8 } else { 0u8 });
        let mut body: Vec<u8> = Vec::new();
        write_string(&mut body, self.topic.as_str());
        if self.qos != QoS::AtMostOnce {
            write_u16(&mut body, self.pkid);
        }
        write_raw(&mut body, self.payload.as_slice());
        assert(body@ =~= publish_body(self@));
        write_frame(buffer, byte1, body)
    }
}

} // verus!
