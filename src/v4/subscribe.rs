use vstd::prelude::*;

use crate::error::Error;
use crate::frame::{decoded, frame_body, framed, write_frame, wrote};
use crate::header::FixedHeader;
use crate::qos::{lemma_qos_num_of, qos_num, qos_of, qos_to_u8, QoS};
use crate::wire::{
    be16, lemma_parse_string, lemma_parse_u16, lp_string, parse_string, parse_u16, parse_u8,
    read_string, read_u16, read_u8, str_utf8_len, utf8_len, write_string, write_u16,
    MAX_FIELD_LENGTH,
};

verus! {

/// Subscription packet: a packet identifier and the filters to subscribe to.
///
/// On the wire: first byte `0x82`, the packet identifier (never 0), then for
/// each filter (at least one) its path as a string and an options byte that
/// holds the requested QoS in bits 1-0, its other bits being 0.
#[derive(Debug)]
pub struct Subscribe {
    pub pkid: u16,
    pub filters: Vec<SubscribeFilter>,
}

/// One subscription: a topic filter and the QoS asked for.
#[derive(Clone, Debug)]
pub struct SubscribeFilter {
    pub path: String,
    pub qos: QoS,
}

/// How retained messages are forwarded on a new subscription (an MQTT 5
/// subscription option; an MQTT 4 subscription carries none).
#[derive(Clone, Copy, Debug, PartialEq, Eq, Structural)]
pub enum RetainForwardRule {
    OnEverySubscribe,
    OnNewSubscribe,
    Never,
}

/// Mathematical value of a `SubscribeFilter`.
pub struct SubscribeFilterV {
    pub path: Seq<char>,
    pub qos: QoS,
}

/// Mathematical value of a `Subscribe`.
pub struct SubscribeV {
    pub pkid: u16,
    pub filters: Seq<SubscribeFilterV>,
}

impl View for SubscribeFilter {
    type V = SubscribeFilterV;

    open spec fn view(&self) -> SubscribeFilterV {
        SubscribeFilterV { path: self.path@, qos: self.qos }
    }
}

/// The value of each filter.
pub open spec fn filters_view(v: Seq<SubscribeFilter>) -> Seq<SubscribeFilterV> {
    v.map_values(|f: SubscribeFilter| f@)
}

impl View for Subscribe {
    type V = SubscribeV;

    open spec fn view(&self) -> SubscribeV {
        SubscribeV { pkid: self.pkid, filters: filters_view(self.filters@) }
    }
}

/// Wire bytes of one filter.
pub open spec fn filter_bytes(f: SubscribeFilterV) -> Seq<u8> {
    lp_string(f.path) + seq![qos_num(f.qos)]
}

/// Wire bytes of a sequence of filters, one after the other.
pub open spec fn filters_bytes(fs: Seq<SubscribeFilterV>) -> Seq<u8>
    decreases fs.len(),
{
    if fs.len() == 0 {
        Seq::empty()
    } else {
        filter_bytes(fs[0]) + filters_bytes(fs.drop_first())
    }
}

/// Decoding of filters up to the end of `s`.
pub open spec fn parse_filters(s: Seq<u8>) -> Result<Seq<SubscribeFilterV>, Error>
    decreases s.len(),
{
    if s.len() == 0 {
        Ok(Seq::empty())
    } else {
        match parse_string(s) {
            Err(e) => Err(e),
            Ok((path, r1)) => match parse_u8(r1) {
                Err(e) => Err(e),
                Ok((options, r2)) => if options > 3 {
                    Err(Error::MalformedPacket)
                } else {
                    match qos_of(options) {
                        None => Err(Error::InvalidQoS(options)),
                        Some(qos) => match parse_filters(r2) {
                            Err(e) => Err(e),
                            Ok(fs) => Ok(seq![SubscribeFilterV { path, qos }] + fs),
                        },
                    }
                },
            },
        }
    }
}

/// Decoding of a subscribe body.
pub open spec fn parse_subscribe(body: Seq<u8>) -> Result<SubscribeV, Error> {
    match parse_u16(body) {
        Err(e) => Err(e),
        Ok((pkid, rest)) => if pkid == 0 {
            Err(Error::PacketIdZero)
        } else if rest.len() == 0 {
            Err(Error::MalformedPacket)
        } else {
            match parse_filters(rest) {
                Err(e) => Err(e),
                Ok(filters) => Ok(SubscribeV { pkid, filters }),
            }
        },
    }
}

/// Body of a subscribe frame.
pub open spec fn subscribe_body(s: SubscribeV) -> Seq<u8> {
    be16(s.pkid) + filters_bytes(s.filters)
}

/// Encoding of a subscribe as a frame.
pub open spec fn spec_write_subscribe(s: SubscribeV) -> Result<Seq<u8>, Error> {
    if s.pkid == 0 {
        Err(Error::PacketIdZero)
    } else if s.filters.len() == 0 {
        Err(Error::MalformedPacket)
    } else if exists|i: int| 0 <= i < s.filters.len() && utf8_len(#[trigger] s.filters[i].path) > MAX_FIELD_LENGTH {
        Err(Error::PayloadTooLong)
    } else {
        framed(0x82, subscribe_body(s))
    }
}

/// Decoding of the subscribe frame `bytes` that `h` describes.
pub open spec fn spec_read_subscribe(h: FixedHeader, bytes: Seq<u8>) -> Result<SubscribeV, Error> {
    if h.byte1 != 0x82 {
        Err(Error::MalformedPacket)
    } else {
        match frame_body(h, bytes) {
            None => Err(Error::MalformedPacket),
            Some(body) => parse_subscribe(body),
        }
    }
}

pub proof fn lemma_filters_bytes_push(fs: Seq<SubscribeFilterV>, f: SubscribeFilterV)
    ensures
        filters_bytes(fs.push(f)) == filters_bytes(fs) + filter_bytes(f),
    decreases fs.len(),
{
    if fs.len() == 0 {
        assert(fs.push(f).drop_first() =~= Seq::<SubscribeFilterV>::empty());
        assert(fs.push(f)[0] == f);
        assert(filters_bytes(fs.push(f).drop_first()) == Seq::<u8>::empty());
        assert(filters_bytes(fs.push(f)) =~= filter_bytes(f) + Seq::<u8>::empty());
    } else {
        assert(fs.push(f).drop_first() =~= fs.drop_first().push(f));
        lemma_filters_bytes_push(fs.drop_first(), f);
        assert(filters_bytes(fs.push(f)) =~= filters_bytes(fs) + filter_bytes(f));
    }
}

pub proof fn lemma_parse_filters(fs: Seq<SubscribeFilterV>)
    requires
        forall|i: int| 0 <= i < fs.len() ==> utf8_len(#[trigger] fs[i].path) <= MAX_FIELD_LENGTH,
    ensures
        parse_filters(filters_bytes(fs)) == Ok::<Seq<SubscribeFilterV>, Error>(fs),
    decreases fs.len(),
{
    if fs.len() == 0 {
        assert(fs =~= Seq::<SubscribeFilterV>::empty());
    } else {
        let f = fs[0];
        let tail = fs.drop_first();
        assert(utf8_len(f.path) <= MAX_FIELD_LENGTH);
        let after = seq![qos_num(f.qos)] + filters_bytes(tail);
        assert(filters_bytes(fs) =~= lp_string(f.path) + after);
        lemma_parse_string(f.path, after);
        assert(after.skip(1) =~= filters_bytes(tail));
        lemma_qos_num_of(f.qos);
        assert(forall|i: int| 0 <= i < tail.len() ==> tail[i] == fs[i + 1]);
        lemma_parse_filters(tail);
        assert(seq![SubscribeFilterV { path: f.path, qos: f.qos }] + tail =~= fs);
    }
}

/// A subscribe accepted by the encoder decodes back from its own body.
pub proof fn lemma_subscribe_round_trip(s: SubscribeV)
    requires
        spec_write_subscribe(s) is Ok,
    ensures
        parse_subscribe(subscribe_body(s)) == Ok::<SubscribeV, Error>(s),
{
    lemma_parse_u16(s.pkid, filters_bytes(s.filters));
    lemma_parse_filters(s.filters);
    assert(filters_bytes(s.filters) =~= filter_bytes(s.filters[0]) + filters_bytes(s.filters.drop_first()));
}

impl SubscribeFilter {
    pub fn new(path: String, qos: QoS) -> (r: SubscribeFilter)
        ensures
            r@ == (SubscribeFilterV { path: path@, qos }),
    {
        SubscribeFilter { path, qos }
    }

    /// Number of bytes of this filter on the wire.
    pub fn len(&self) -> (r: usize)
        requires
            utf8_len(self.path@) + 3 <= usize::MAX,
        ensures
            r == filter_bytes(self@).len(),
    {
        str_utf8_len(self.path.as_str()) + 3
    }
}

impl Subscribe {
    /// A subscription to one filter, with packet identifier 0 until one is set.
    pub fn new(path: String, qos: QoS) -> (r: Subscribe)
        ensures
            r@.pkid == 0,
            r@.filters == seq![SubscribeFilterV { path: path@, qos }],
    {
        let mut filters: Vec<SubscribeFilter> = Vec::new();
        let ghost p = path@;
        filters.push(SubscribeFilter { path, qos });
        let r = Subscribe { pkid: 0, filters };
        assert(r@.filters =~= seq![SubscribeFilterV { path: p, qos }]);
        r
    }

    /// A subscription to several filters, with packet identifier 0 until one is set.
    pub fn new_many(filters: Vec<SubscribeFilter>) -> (r: Subscribe)
        ensures
            r@.pkid == 0,
            r@.filters == filters_view(filters@),
    {
        Subscribe { pkid: 0, filters }
    }

    /// A subscription without filters yet.
    pub fn empty_subscribe() -> (r: Subscribe)
        ensures
            r@.pkid == 0,
            r@.filters == Seq::<SubscribeFilterV>::empty(),
    {
        let r = Subscribe { pkid: 0, filters: Vec::new() };
        assert(r@.filters =~= Seq::<SubscribeFilterV>::empty());
        r
    }

    /// Adds a filter after the others.
    pub fn add(&mut self, path: String, qos: QoS)
        ensures
            final(self)@.pkid == old(self)@.pkid,
            final(self)@.filters == old(self)@.filters.push(SubscribeFilterV { path: path@, qos }),
    {
        let ghost p = path@;
        self.filters.push(SubscribeFilter { path, qos });
        assert(self@.filters =~= old(self)@.filters.push(SubscribeFilterV { path: p, qos }));
    }

    /// Number of bytes of the body (what the remaining length counts).
    pub fn len(&self) -> (r: usize)
        requires
            subscribe_body(self@).len() <= usize::MAX,
        ensures
            r == subscribe_body(self@).len(),
    {
        let ghost fs = self@.filters;
        let mut total: usize = 2;
        let mut i: usize = 0;
        while i < self.filters.len()
            invariant
                i <= self.filters@.len(),
                fs == filters_view(self.filters@),
                fs.len() == self.filters@.len(),
                total == 2 + filters_bytes(fs.take(i as int)).len(),
                2 + filters_bytes(fs).len() <= usize::MAX,
            decreases self.filters@.len() - i,
        {
            proof {
                lemma_filters_bytes_push(fs.take(i as int), fs[i as int]);
                assert(fs.take(i as int).push(fs[i as int]) =~= fs.take(i + 1));
                lemma_filters_bytes_prefix(fs, i + 1);
            }
            total = total + str_utf8_len(self.filters[i].path.as_str()) + 3;
            i = i + 1;
        }
        assert(fs.take(i as int) =~= fs);
        total
    }

    /// Decodes the frame `bytes` (fixed header included) that `fixed_header` describes.
    pub fn read(fixed_header: FixedHeader, bytes: &[u8]) -> (r: Result<Subscribe, Error>)
        requires
            fixed_header.wf(),
        ensures
            decoded(r, spec_read_subscribe(fixed_header, bytes@)),
    {
        if fixed_header.byte1 != 0x82 || bytes.len() != fixed_header.frame_length() {
            return Err(Error::MalformedPacket);
        }
        let pos = 1 + fixed_header.remaining_len_len;
        let (pkid, pos) = match read_u16(bytes, pos) {
            Ok(v) => v,
            Err(e) => return Err(e),
        };
        if pkid == 0 {
            return Err(Error::PacketIdZero);
        }
        if pos == bytes.len() {
            return Err(Error::MalformedPacket);
        }
        let ghost start = pos;
        let mut filters: Vec<SubscribeFilter> = Vec::new();
        let mut i: usize = pos;
        while i < bytes.len()
            invariant
                start <= i <= bytes@.len(),
                start < bytes@.len(),
                pkid != 0,
                fixed_header.byte1 == 0x82,
                bytes@.len() == fixed_header.spec_frame_length(),
                parse_u16(bytes@.skip(fixed_header.header_len() as int)) == Ok::<(u16, Seq<u8>), Error>((pkid, bytes@.skip(start as int))),
                parse_filters(bytes@.skip(start as int)) == match parse_filters(bytes@.skip(i as int)) {
                    Err(e) => Err(e),
                    Ok(t) => Ok::<Seq<SubscribeFilterV>, Error>(filters_view(filters@) + t),
                },
            decreases bytes@.len() - i,
        {
            let (path, next) = match read_string(bytes, i) {
                Ok(v) => v,
                Err(e) => return Err(e),
            };
            let (options, next) = match read_u8(bytes, next) {
                Ok(v) => v,
                Err(e) => return Err(e),
            };
            if options > 3 {
                return Err(Error::MalformedPacket);
            }
            let qos = match options {
                0 => QoS::AtMostOnce,
                1 => QoS::AtLeastOnce,
                2 => QoS::ExactlyOnce,
                n => return Err(Error::InvalidQoS(n)),
            };
            let ghost before = filters_view(filters@);
            let ghost fv = SubscribeFilterV { path: path@, qos };
            filters.push(SubscribeFilter { path, qos });
            assert(filters_view(filters@) =~= before.push(fv));
            proof {
                match parse_filters(bytes@.skip(next as int)) {
                    Err(e) => {},
                    Ok(t) => {
                        assert(before + (seq![fv] + t) =~= filters_view(filters@) + t);
                    },
                }
            }
            i = next;
        }
        assert(bytes@.skip(i as int) =~= Seq::<u8>::empty());
        assert(filters_view(filters@) + Seq::<SubscribeFilterV>::empty() =~= filters_view(filters@));
        Ok(Subscribe { pkid, filters })
    }

    /// Appends the frame of this packet to `buffer` and returns its length.
    pub fn write(&self, buffer: &mut Vec<u8>) -> (r: Result<usize, Error>)
        ensures
            wrote(r, old(buffer)@, final(buffer)@, spec_write_subscribe(self@)),
    {
        if self.pkid == 0 {
            return Err(Error::PacketIdZero);
        }
        if self.filters.len() == 0 {
            return Err(Error::MalformedPacket);
        }
        let ghost fs = self@.filters;
        let mut body: Vec<u8> = Vec::new();
        write_u16(&mut body, self.pkid);
        let mut i: usize = 0;
        while i < self.filters.len()
            invariant
                i <= self.filters@.len(),
                fs == filters_view(self.filters@),
                fs.len() == self.filters@.len(),
                self.pkid != 0,
                fs.len() > 0,
                body@ == be16(self.pkid) + filters_bytes(fs.take(i as int)),
                forall|j: int| 0 <= j < i ==> utf8_len(#[trigger] fs[j].path) <= MAX_FIELD_LENGTH,
            decreases self.filters@.len() - i,
        {
            let filter = &self.filters[i];
            if str_utf8_len(filter.path.as_str()) > MAX_FIELD_LENGTH {
                assert(utf8_len(fs[i as int].path) > MAX_FIELD_LENGTH);
                return Err(Error::PayloadTooLong);
            }
            let ghost before = body@;
            write_string(&mut body, filter.path.as_str());
            body.push(qos_to_u8(filter.qos));
            proof {
                assert(body@ =~= before + filter_bytes(fs[i as int]));
                lemma_filters_bytes_push(fs.take(i as int), fs[i as int]);
                assert(fs.take(i as int).push(fs[i as int]) =~= fs.take(i + 1));
            }
            i = i + 1;
        }
        assert(fs.take(i as int) =~= fs);
        write_frame(buffer, 0x82, body)
    }
}

/// The bytes of a prefix of the filters are no more than those of all of them.
proof fn lemma_filters_bytes_prefix(fs: Seq<SubscribeFilterV>, k: int)
    requires
        0 <= k <= fs.len(),
    ensures
        filters_bytes(fs.take(k)).len() <= filters_bytes(fs).len(),
    decreases fs.len() - k,
{
    if k < fs.len() {
        lemma_filters_bytes_push(fs.take(k), fs[k]);
        assert(fs.take(k).push(fs[k]) =~= fs.take(k + 1));
        lemma_filters_bytes_prefix(fs, k + 1);
    } else {
        assert(fs.take(k) =~= fs);
    }
}

} // verus!
