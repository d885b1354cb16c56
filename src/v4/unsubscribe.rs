use vstd::prelude::*;

use crate::error::Error;
use crate::frame::{decoded, frame_body, framed, write_frame, wrote};
use crate::header::FixedHeader;
use crate::wire::{
    be16, lemma_parse_string, lemma_parse_u16, lp_string, parse_string, parse_u16, read_string,
    read_u16, str_utf8_len, utf8_len, write_string, write_u16, MAX_FIELD_LENGTH,
};

verus! {

/// Unsubscribe packet: a packet identifier and the topic filters to drop.
///
/// On the wire: first byte `0xA2`, the packet identifier (never 0), then the
/// topic filters as strings up to the end of the frame (at least one).
#[derive(Debug)]
pub struct Unsubscribe {
    pub pkid: u16,
    pub topics: Vec<String>,
}

/// Mathematical value of an `Unsubscribe`.
pub struct UnsubscribeV {
    pub pkid: u16,
    pub topics: Seq<Seq<char>>,
}

/// The characters of each string.
pub open spec fn strings_view(v: Seq<String>) -> Seq<Seq<char>> {
    v.map_values(|t: String| t@)
}

impl View for Unsubscribe {
    type V = UnsubscribeV;

    open spec fn view(&self) -> UnsubscribeV {
        UnsubscribeV { pkid: self.pkid, topics: strings_view(self.topics@) }
    }
}

/// Wire bytes of a sequence of strings, one after the other.
pub open spec fn strings_bytes(ts: Seq<Seq<char>>) -> Seq<u8>
    decreases ts.len(),
{
    if ts.len() == 0 {
        Seq::empty()
    } else {
        lp_string(ts[0]) + strings_bytes(ts.drop_first())
    }
}

/// Decoding of strings up to the end of `s`.
pub open spec fn parse_strings(s: Seq<u8>) -> Result<Seq<Seq<char>>, Error>
    decreases s.len(),
{
    if s.len() == 0 {
        Ok(Seq::empty())
    } else {
        match parse_string(s) {
            Err(e) => Err(e),
            Ok((t, rest)) => match parse_strings(rest) {
                Err(e) => Err(e),
                Ok(ts) => Ok(seq![t] + ts),
            },
        }
    }
}

/// Decoding of an unsubscribe body.
pub open spec fn parse_unsubscribe(body: Seq<u8>) -> Result<UnsubscribeV, Error> {
    match parse_u16(body) {
        Err(e) => Err(e),
        Ok((pkid, rest)) => if pkid == 0 {
            Err(Error::PacketIdZero)
        } else if rest.len() == 0 {
            Err(Error::MalformedPacket)
        } else {
            match parse_strings(rest) {
                Err(e) => Err(e),
                Ok(topics) => Ok(UnsubscribeV { pkid, topics }),
            }
        },
    }
}

/// Body of an unsubscribe frame.
pub open spec fn unsubscribe_body(u: UnsubscribeV) -> Seq<u8> {
    be16(u.pkid) + strings_bytes(u.topics)
}

/// Encoding of an unsubscribe as a frame.
pub open spec fn spec_write_unsubscribe(u: UnsubscribeV) -> Result<Seq<u8>, Error> {
    if u.pkid == 0 {
        Err(Error::PacketIdZero)
    } else if u.topics.len() == 0 {
        Err(Error::MalformedPacket)
    } else if exists|i: int| 0 <= i < u.topics.len() && utf8_len(#[trigger] u.topics[i]) > MAX_FIELD_LENGTH {
        Err(Error::PayloadTooLong)
    } else {
        framed(0xA2, unsubscribe_body(u))
    }
}

/// Decoding of the unsubscribe frame `bytes` that `h` describes.
pub open spec fn spec_read_unsubscribe(h: FixedHeader, bytes: Seq<u8>) -> Result<UnsubscribeV, Error> {
    if h.byte1 != 0xA2 {
        Err(Error::MalformedPacket)
    } else {
        match frame_body(h, bytes) {
            None => Err(Error::MalformedPacket),
            Some(body) => parse_unsubscribe(body),
        }
    }
}

pub proof fn lemma_strings_bytes_push(ts: Seq<Seq<char>>, t: Seq<char>)
    ensures
        strings_bytes(ts.push(t)) == strings_bytes(ts) + lp_string(t),
    decreases ts.len(),
{
    if ts.len() == 0 {
        assert(ts.push(t).drop_first() =~= Seq::<Seq<char>>::empty());
        assert(ts.push(t)[0] == t);
        assert(strings_bytes(ts.push(t).drop_first()) == Seq::<u8>::empty());
        assert(strings_bytes(ts.push(t)) =~= lp_string(t) + Seq::<u8>::empty());
    } else {
        assert(ts.push(t).drop_first() =~= ts.drop_first().push(t));
        lemma_strings_bytes_push(ts.drop_first(), t);
        assert(strings_bytes(ts.push(t)) =~= strings_bytes(ts) + lp_string(t));
    }
}

pub proof fn lemma_parse_strings(ts: Seq<Seq<char>>)
    requires
        forall|i: int| 0 <= i < ts.len() ==> utf8_len(#[trigger] ts[i]) <= MAX_FIELD_LENGTH,
    ensures
        parse_strings(strings_bytes(ts)) == Ok::<Seq<Seq<char>>, Error>(ts),
    decreases ts.len(),
{
    if ts.len() == 0 {
        assert(ts =~= Seq::<Seq<char>>::empty());
    } else {
        let tail = ts.drop_first();
        assert(utf8_len(ts[0]) <= MAX_FIELD_LENGTH);
        lemma_parse_string(ts[0], strings_bytes(tail));
        assert(forall|i: int| 0 <= i < tail.len() ==> tail[i] == ts[i + 1]);
        lemma_parse_strings(tail);
        assert(lp_string(ts[0]).len() >= 2);
        assert(seq![ts[0]] + tail =~= ts);
    }
}

proof fn lemma_parse_strings_then(ts: Seq<Seq<char>>, rest: Seq<u8>)
    requires
        forall|i: int| 0 <= i < ts.len() ==> utf8_len(#[trigger] ts[i]) <= MAX_FIELD_LENGTH,
    ensures
        parse_strings(strings_bytes(ts) + rest) == match parse_strings(rest) {
            Err(e) => Err(e),
            Ok(more) => Ok::<Seq<Seq<char>>, Error>(ts + more),
        },
    decreases ts.len(),
{
    if ts.len() == 0 {
        assert(strings_bytes(ts) + rest =~= rest);
        match parse_strings(rest) {
            Err(e) => {},
            Ok(more) => {
                assert(ts + more =~= more);
            },
        }
    } else {
        let tail = ts.drop_first();
        assert(utf8_len(ts[0]) <= MAX_FIELD_LENGTH);
        assert(strings_bytes(ts) + rest =~= lp_string(ts[0]) + (strings_bytes(tail) + rest));
        lemma_parse_string(ts[0], strings_bytes(tail) + rest);
        assert(forall|i: int| 0 <= i < tail.len() ==> tail[i] == ts[i + 1]);
        lemma_parse_strings_then(tail, rest);
        assert(lp_string(ts[0]).len() >= 2);
        match parse_strings(rest) {
            Err(e) => {},
            Ok(more) => {
                assert(seq![ts[0]] + (tail + more) =~= ts + more);
            },
        }
    }
}

/// Topics are read up to exactly the end of the frame: an unsubscribe body
/// with one byte too many, or one byte too few, is malformed.
pub proof fn lemma_unsubscribe_off_by_one(u: UnsubscribeV, extra: u8)
    requires
        spec_write_unsubscribe(u) is Ok,
    ensures
        parse_unsubscribe(unsubscribe_body(u) + seq![extra]) == Err::<UnsubscribeV, Error>(Error::MalformedPacket),
        parse_unsubscribe(unsubscribe_body(u).drop_last()) == Err::<UnsubscribeV, Error>(Error::MalformedPacket),
{
    let ts = u.topics;
    let n = ts.len();
    let last = ts[n - 1];
    let init = ts.drop_last();
    assert(init.push(last) =~= ts);
    lemma_strings_bytes_push(init, last);
    assert(forall|i: int| 0 <= i < init.len() ==> init[i] == ts[i]);
    assert(utf8_len(last) <= MAX_FIELD_LENGTH);
    // One byte too many: after the topics a lone byte cannot start a string.
    assert(unsubscribe_body(u) + seq![extra] =~= be16(u.pkid) + (strings_bytes(ts) + seq![extra]));
    lemma_parse_u16(u.pkid, strings_bytes(ts) + seq![extra]);
    lemma_parse_strings_then(ts, seq![extra]);
    // One byte too few: the last topic is cut short of its declared length.
    let cut = lp_string(last).drop_last();
    assert(strings_bytes(ts).drop_last() =~= strings_bytes(init) + cut);
    assert(unsubscribe_body(u).drop_last() =~= be16(u.pkid) + (strings_bytes(init) + cut));
    lemma_parse_u16(u.pkid, strings_bytes(init) + cut);
    lemma_parse_strings_then(init, cut);
    assert(cut.len() >= 1);
    if cut.len() >= 2 {
        assert(cut[0] == lp_string(last)[0] && cut[1] == lp_string(last)[1]);
        assert(cut.skip(2).len() < utf8_len(last));
    }
    assert(strings_bytes(init).len() + cut.len() > 0);
}

/// An unsubscribe accepted by the encoder decodes back from its own body.
pub proof fn lemma_unsubscribe_round_trip(u: UnsubscribeV)
    requires
        spec_write_unsubscribe(u) is Ok,
    ensures
        parse_unsubscribe(unsubscribe_body(u)) == Ok::<UnsubscribeV, Error>(u),
{
    lemma_parse_u16(u.pkid, strings_bytes(u.topics));
    lemma_parse_strings(u.topics);
    assert(strings_bytes(u.topics).len() >= 2);
}

impl Unsubscribe {
    /// An unsubscribe from one topic filter, with packet identifier 0 until one is set.
    pub fn new(topic: String) -> (r: Unsubscribe)
        ensures
            r@.pkid == 0,
            r@.topics == seq![topic@],
    {
        let mut topics: Vec<String> = Vec::new();
        let ghost t = topic@;
        topics.push(topic);
        let r = Unsubscribe { pkid: 0, topics };
        assert(r@.topics =~= seq![t]);
        r
    }

    /// Decodes the frame `bytes` (fixed header included) that `fixed_header` describes.
    pub fn read(fixed_header: FixedHeader, bytes: &[u8]) -> (r: Result<Unsubscribe, Error>)
        requires
            fixed_header.wf(),
        ensures
            decoded(r, spec_read_unsubscribe(fixed_header, bytes@)),
    {
        if fixed_header.byte1 != 0xA2 || bytes.len() != fixed_header.frame_length() {
            return Err(Error::MalformedPacket);
        }
        let pos = 1 + fixed_header.remaining_len_len;
        let (pkid, pos) = match read_u16(bytes, pos) {
            Ok(v) => v,
            Err(e) => return Err(e),
        };
        if pkid == 0 {
            return Err(Error::PacketIdZero);
        }
        if pos == bytes.len() {
            return Err(Error::MalformedPacket);
        }
        let ghost start = pos;
        let mut topics: Vec<String> = Vec::new();
        let mut i: usize = pos;
        while i < bytes.len()
            invariant
                start <= i <= bytes@.len(),
                start < bytes@.len(),
                pkid != 0,
                fixed_header.byte1 == 0xA2,
                bytes@.len() == fixed_header.spec_frame_length(),
                parse_u16(bytes@.skip(fixed_header.header_len() as int)) == Ok::<(u16, Seq<u8>), Error>((pkid, bytes@.skip(start as int))),
                parse_strings(bytes@.skip(start as int)) == match parse_strings(bytes@.skip(i as int)) {
                    Err(e) => Err(e),
                    Ok(t) => Ok::<Seq<Seq<char>>, Error>(strings_view(topics@) + t),
                },
            decreases bytes@.len() - i,
        {
            let (topic, next) = match read_string(bytes, i) {
                Ok(v) => v,
                Err(e) => return Err(e),
            };
            let ghost before = strings_view(topics@);
            let ghost tv = topic@;
            topics.push(topic);
            assert(strings_view(topics@) =~= before.push(tv));
            proof {
                match parse_strings(bytes@.skip(next as int)) {
                    Err(e) => {},
                    Ok(t) => {
                        assert(before + (seq![tv] + t) =~= strings_view(topics@) + t);
                    },
                }
            }
            i = next;
        }
        assert(bytes@.skip(i as int) =~= Seq::<u8>::empty());
        assert(strings_view(topics@) + Seq::<Seq<char>>::empty() =~= strings_view(topics@));
        Ok(Unsubscribe { pkid, topics })
    }

    /// Appends the frame of this packet to `buffer` and returns its length.
    pub fn write(&self, buffer: &mut Vec<u8>) -> (r: Result<usize, Error>)
        ensures
            wrote(r, old(buffer)@, final(buffer)@, spec_write_unsubscribe(self@)),
    {
        if self.pkid == 0 {
            return Err(Error::PacketIdZero);
        }
        if self.topics.len() == 0 {
            return Err(Error::MalformedPacket);
        }
        let ghost ts = self@.topics;
        let mut body: Vec<u8> = Vec::new();
        write_u16(&mut body, self.pkid);
        let mut i: usize = 0;
        while i < self.topics.len()
            invariant
                i <= self.topics@.len(),
                ts == strings_view(self.topics@),
                ts.len() == self.topics@.len(),
                self.pkid != 0,
                ts.len() > 0,
                body@ == be16(self.pkid) + strings_bytes(ts.take(i as int)),
                forall|j: int| 0 <= j < i ==> utf8_len(#[trigger] ts[j]) <= MAX_FIELD_LENGTH,
            decreases self.topics@.len() - i,
        {
            let topic: &str = self.topics[i].as_str();
            if str_utf8_len(topic) > MAX_FIELD_LENGTH {
                assert(utf8_len(ts[i as int]) > MAX_FIELD_LENGTH);
                return Err(Error::PayloadTooLong);
            }
            write_string(&mut body, topic);
            proof {
                lemma_strings_bytes_push(ts.take(i as int), ts[i as int]);
                assert(ts.take(i as int).push(ts[i as int]) =~= ts.take(i + 1));
            }
            i = i + 1;
        }
        assert(ts.take(i as int) =~= ts);
        write_frame(buffer, 0xA2, body)
    }
}

} // verus!
