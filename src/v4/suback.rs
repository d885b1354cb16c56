use vstd::prelude::*;

use crate::error::Error;
use crate::frame::{decoded, frame, frame_body, framed, lemma_frame_check, write_frame, wrote};
use crate::header::FixedHeader;
use crate::qos::{lemma_qos_num_of, qos_num, qos_of, qos_to_u8, QoS};
use crate::varint::{varint, MAX_REMAINING_LENGTH};
use crate::wire::{be16, lemma_parse_u16, parse_u16, read_u16, write_u16};

verus! {

/// Acknowledgement to a subscribe: one return code per requested filter, the
/// granted QoS or `None` for a refused subscription.
///
/// On the wire: first byte `0x90`, the packet identifier, then one byte per
/// return code (0, 1, 2, or 0x80 for a failure) up to the end of the frame.
#[derive(Debug)]
pub struct SubAck {
    pub pkid: u16,
    pub return_codes: Vec<Option<QoS>>,
}

/// Mathematical value of a `SubAck`.
pub struct SubAckV {
    pub pkid: u16,
    pub return_codes: Seq<Option<QoS>>,
}

impl View for SubAck {
    type V = SubAckV;

    open spec fn view(&self) -> SubAckV {
        SubAckV { pkid: self.pkid, return_codes: self.return_codes@ }
    }
}

/// Wire byte of a return code.
pub open spec fn code_byte(c: Option<QoS>) -> u8 {
    match c {
        Some(q) => qos_num(q),
        None => 0x80,
    }
}

/// The return code that a wire byte stands for, if any.
pub open spec fn code_of_byte(b: u8) -> Option<Option<QoS>> {
    if b == 0x80 {
        Some(None)
    } else {
        match qos_of(b) {
            Some(q) => Some(Some(q)),
            None => None,
        }
    }
}

/// Wire bytes of a sequence of return codes.
pub open spec fn codes_bytes(cs: Seq<Option<QoS>>) -> Seq<u8> {
    cs.map_values(|c: Option<QoS>| code_byte(c))
}

/// Decoding of return codes up to the end of `s`; the first byte that is no
/// return code gives `InvalidSubscribeReasonCode`.
pub open spec fn parse_codes(s: Seq<u8>) -> Result<Seq<Option<QoS>>, Error>
    decreases s.len(),
{
    if s.len() == 0 {
        Ok(Seq::empty())
    } else {
        match code_of_byte(s[0]) {
            None => Err(Error::InvalidSubscribeReasonCode(s[0])),
            Some(c) => match parse_codes(s.skip(1)) {
                Err(e) => Err(e),
                Ok(t) => Ok(seq![c] + t),
            },
        }
    }
}

/// Decoding of a suback body: a packet identifier and at least one return code.
pub open spec fn parse_suback(body: Seq<u8>) -> Result<SubAckV, Error> {
    match parse_u16(body) {
        Err(e) => Err(e),
        Ok((pkid, rest)) => if rest.len() == 0 {
            Err(Error::MalformedPacket)
        } else {
            match parse_codes(rest) {
                Err(e) => Err(e),
                Ok(return_codes) => Ok(SubAckV { pkid, return_codes }),
            }
        },
    }
}

/// Body of a suback frame.
pub open spec fn suback_body(s: SubAckV) -> Seq<u8> {
    be16(s.pkid) + codes_bytes(s.return_codes)
}

/// Encoding of a suback as a frame; a suback without return codes is refused.
pub open spec fn spec_write_suback(s: SubAckV) -> Result<Seq<u8>, Error> {
    if s.return_codes.len() == 0 {
        Err(Error::MalformedPacket)
    } else {
        framed(0x90, suback_body(s))
    }
}

/// Decoding of the suback frame `bytes` that `h` describes.
pub open spec fn spec_read_suback(h: FixedHeader, bytes: Seq<u8>) -> Result<SubAckV, Error> {
    if h.byte1 != 0x90 {
        Err(Error::MalformedPacket)
    } else {
        match frame_body(h, bytes) {
            None => Err(Error::MalformedPacket),
            Some(body) => parse_suback(body),
        }
    }
}

proof fn lemma_parse_codes(cs: Seq<Option<QoS>>)
    ensures
        parse_codes(codes_bytes(cs)) == Ok::<Seq<Option<QoS>>, Error>(cs),
    decreases cs.len(),
{
    if cs.len() == 0 {
        assert(codes_bytes(cs) =~= Seq::<u8>::empty());
        assert(cs =~= Seq::<Option<QoS>>::empty());
    } else {
        let b = codes_bytes(cs);
        match cs[0] {
            Some(q) => lemma_qos_num_of(q),
            None => {},
        }
        assert(b[0] == code_byte(cs[0]));
        assert(code_of_byte(code_byte(cs[0])) == Some(cs[0]));
        assert(b.skip(1) =~= codes_bytes(cs.drop_first()));
        lemma_parse_codes(cs.drop_first());
        assert(seq![cs[0]] + cs.drop_first() =~= cs);
    }
}

/// A suback with at least one return code decodes back from its own body.
pub proof fn lemma_suback_round_trip(s: SubAckV)
    requires
        s.return_codes.len() > 0,
    ensures
        parse_suback(suback_body(s)) == Ok::<SubAckV, Error>(s),
{
    lemma_parse_u16(s.pkid, codes_bytes(s.return_codes));
    lemma_parse_codes(s.return_codes);
}

proof fn lemma_parse_codes_len(s: Seq<u8>)
    ensures
        parse_codes(s) matches Ok(cs) ==> cs.len() == s.len(),
    decreases s.len(),
{
    if s.len() > 0 {
        lemma_parse_codes_len(s.skip(1));
    }
}

/// Return codes are read up to the end of the frame: a suback body decodes to
/// one return code per byte after the packet identifier, and a body too short
/// to hold a packet identifier and a return code is malformed.
pub proof fn lemma_suback_codes_fill_body(body: Seq<u8>)
    ensures
        parse_suback(body) matches Ok(s) ==> s.return_codes.len() == body.len() - 2,
        body.len() < 3 ==> parse_suback(body) == Err::<SubAckV, Error>(Error::MalformedPacket),
{
    if body.len() >= 2 {
        lemma_parse_codes_len(body.skip(2));
    }
}

/// The return codes that a sequence of valid return-code bytes stands for.
pub open spec fn codes_of_bytes(codes: Seq<u8>) -> Seq<Option<QoS>> {
    codes.map_values(|b: u8| code_of_byte(b)->0)
}

proof fn lemma_parse_valid_codes(codes: Seq<u8>)
    requires
        forall|i: int| 0 <= i < codes.len() ==> code_of_byte(#[trigger] codes[i]) is Some,
    ensures
        parse_codes(codes) == Ok::<Seq<Option<QoS>>, Error>(codes_of_bytes(codes)),
    decreases codes.len(),
{
    if codes.len() == 0 {
        assert(codes_of_bytes(codes) =~= Seq::<Option<QoS>>::empty());
    } else {
        let tail = codes.skip(1);
        assert(code_of_byte(codes[0]) is Some);
        assert(forall|i: int| 0 <= i < tail.len() ==> tail[i] == codes[i + 1]);
        lemma_parse_valid_codes(tail);
        assert(seq![code_of_byte(codes[0])->0] + codes_of_bytes(tail) =~= codes_of_bytes(codes));
    }
}

/// A suback frame has no count of its return codes: every byte after the
/// packet identifier, up to the end of the frame, is one return code. So a
/// frame whose body is a packet identifier and at least one valid return-code
/// byte decodes to that identifier and exactly those return codes.
pub proof fn lemma_suback_reads_to_frame_end(pkid: u16, codes: Seq<u8>)
    requires
        codes.len() >= 1,
        2 + codes.len() <= MAX_REMAINING_LENGTH,
        forall|i: int| 0 <= i < codes.len() ==> code_of_byte(#[trigger] codes[i]) is Some,
    ensures
        ({
            let body = be16(pkid) + codes;
            let h = FixedHeader { byte1: 0x90, remaining_len_len: varint(body.len()).len() as usize, remaining_len: body.len() as usize };
            &&& parse_suback(body) == Ok::<SubAckV, Error>(SubAckV { pkid, return_codes: codes_of_bytes(codes) })
            &&& spec_read_suback(h, frame(0x90, body)) == Ok::<SubAckV, Error>(SubAckV { pkid, return_codes: codes_of_bytes(codes) })
            &&& codes_of_bytes(codes).len() == body.len() - 2
        }),
{
    let body = be16(pkid) + codes;
    lemma_parse_u16(pkid, codes);
    lemma_parse_valid_codes(codes);
    lemma_frame_check(0x90, body, Seq::<u8>::empty(), frame(0x90, body).len());
}

impl SubAck {
    pub fn new(pkid: u16, return_codes: Vec<Option<QoS>>) -> (r: SubAck)
        ensures
            r@ == (SubAckV { pkid, return_codes: return_codes@ }),
    {
        SubAck { pkid, return_codes }
    }

    /// Number of bytes of the body (what the remaining length counts).
    pub fn len(&self) -> (r: usize)
        requires
            self.return_codes@.len() + 2 <= usize::MAX,
        ensures
            r == suback_body(self@).len(),
    {
        2 + self.return_codes.len()
    }

    /// Decodes the frame `bytes` (fixed header included) that `fixed_header` describes.
    pub fn read(fixed_header: FixedHeader, bytes: &[u8]) -> (r: Result<SubAck, Error>)
        requires
            fixed_header.wf(),
        ensures
            decoded(r, spec_read_suback(fixed_header, bytes@)),
    {
        if fixed_header.byte1 != 0x90 || bytes.len() != fixed_header.frame_length() {
            return Err(Error::MalformedPacket);
        }
        let pos = 1 + fixed_header.remaining_len_len;
        let (pkid, pos) = match read_u16(bytes, pos) {
            Ok(v) => v,
            Err(e) => return Err(e),
        };
        if pos == bytes.len() {
            return Err(Error::MalformedPacket);
        }
        let ghost start = pos;
        let mut return_codes: Vec<Option<QoS>> = Vec::new();
        let mut i: usize = pos;
        while i < bytes.len()
            invariant
                start <= i <= bytes@.len(),
                start < bytes@.len(),
                fixed_header.byte1 == 0x90,
                bytes@.len() == fixed_header.spec_frame_length(),
                parse_u16(bytes@.skip(fixed_header.header_len() as int)) == Ok::<(u16, Seq<u8>), Error>((pkid, bytes@.skip(start as int))),
                parse_codes(bytes@.skip(start as int)) == match parse_codes(bytes@.skip(i as int)) {
                    Err(e) => Err(e),
                    Ok(t) => Ok::<Seq<Option<QoS>>, Error>(return_codes@ + t),
                },
            decreases bytes@.len() - i,
        {
            let b = bytes[i];
            let ghost rest = bytes@.skip(i as int);
            assert(rest.skip(1) =~= bytes@.skip(i + 1));
            assert(rest[0] == b);
            let code: Option<QoS> = match b {
                0 => Some(QoS::AtMostOnce),
                1 => Some(QoS::AtLeastOnce),
                2 => Some(QoS::ExactlyOnce),
                0x80 => None,
                n => return Err(Error::InvalidSubscribeReasonCode(n)),
            };
            let ghost before = return_codes@;
            return_codes.push(code);
            i = i + 1;
            proof {
                match parse_codes(bytes@.skip(i as int)) {
                    Err(e) => {},
                    Ok(t) => {
                        assert(before + (seq![code] + t) =~= return_codes@ + t);
                    },
                }
            }
        }
        assert(bytes@.skip(i as int) =~= Seq::<u8>::empty());
        assert(return_codes@ + Seq::<Option<QoS>>::empty() =~= return_codes@);
        Ok(SubAck { pkid, return_codes })
    }

    /// Appends the frame of this packet to `buffer` and returns its length.
    pub fn write(&self, buffer: &mut Vec<u8>) -> (r: Result<usize, Error>)
        ensures
            wrote(r, old(buffer)@, final(buffer)@, spec_write_suback(self@)),
    {
        if self.return_codes.len() == 0 {
            return Err(Error::MalformedPacket);
        }
        let mut body: Vec<u8> = Vec::new();
        write_u16(&mut body, self.pkid);
        let mut i: usize = 0;
        while i < self.return_codes.len()
            invariant
                i <= self.return_codes@.len(),
                body@ == be16(self.pkid) + codes_bytes(self.return_codes@.take(i as int)),
            decreases self.return_codes@.len() - i,
        {
            let b: u8 = match self.return_codes[i] {
                Some(q) => qos_to_u8(q),
                None => 0x80,
            };
            body.push(b);
            i = i + 1;
            assert(codes_bytes(self.return_codes@.take(i as int)) =~= codes_bytes(self.return_codes@.take(i - 1)) + seq![b]);
        }
        assert(self.return_codes@.take(i as int) =~= self.return_codes@);
        write_frame(buffer, 0x90, body)
    }
}

} // verus!
