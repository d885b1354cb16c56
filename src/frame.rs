use vstd::prelude::*;

use crate::error::Error;
use crate::header::{spec_check, FixedHeader};
use crate::varint::{
    decode_varint, lemma_varint_len, lemma_varint_round_trip, varint, write_remaining_length,
    MAX_REMAINING_LENGTH,
};
use crate::wire::{be16, parse_u16, read_u16, write_u16};

verus! {

/// A whole frame: first byte, remaining length, then the body.
pub open spec fn frame(byte1: u8, body: Seq<u8>) -> Seq<u8> {
    seq![byte1] + varint(body.len()) + body
}

/// The frame for `body`, or `PayloadTooLong` when the body does not fit the
/// 4-byte remaining length.
pub open spec fn framed(byte1: u8, body: Seq<u8>) -> Result<Seq<u8>, Error> {
    if body.len() > MAX_REMAINING_LENGTH {
        Err(Error::PayloadTooLong)
    } else {
        Ok(frame(byte1, body))
    }
}

/// What a `write` call did: on `Ok(bytes)` it appended `bytes` and returned
/// their number; on `Err(e)` it returned `e` and left the buffer alone.
pub open spec fn wrote(r: Result<usize, Error>, before: Seq<u8>, after: Seq<u8>, expected: Result<Seq<u8>, Error>) -> bool {
    match expected {
        Ok(bytes) => r == Ok::<usize, Error>(bytes.len() as usize) && after == before + bytes,
        Err(e) => r == Err::<usize, Error>(e) && after == before,
    }
}

/// A decoder's result agrees with the expected one: the same error, or a
/// packet whose view is the expected value.
pub open spec fn decoded<T: View>(r: Result<T, Error>, expected: Result<T::V, Error>) -> bool {
    match (r, expected) {
        (Ok(p), Ok(v)) => p@ == v,
        (Err(e), Err(f)) => e == f,
        _ => false,
    }
}

/// The body of a frame as a packet decoder sees it: `bytes` must be exactly
/// the frame that `h` describes.
pub open spec fn frame_body(h: FixedHeader, bytes: Seq<u8>) -> Option<Seq<u8>> {
    if bytes.len() == h.spec_frame_length() {
        Some(bytes.skip(h.header_len() as int))
    } else {
        None
    }
}

/// Body of a packet that holds a packet identifier and nothing else.
pub open spec fn parse_pkid_body(body: Seq<u8>, nonzero: bool) -> Result<u16, Error> {
    if body.len() != 2 {
        Err(Error::MalformedPacket)
    } else {
        match parse_u16(body) {
            Err(e) => Err(e),
            Ok((pkid, _)) => if nonzero && pkid == 0 {
                Err(Error::PacketIdZero)
            } else {
                Ok(pkid)
            },
        }
    }
}

/// Decoding of a frame of a packet that holds a packet identifier only, whose
/// first byte must be `byte1`.
pub open spec fn spec_read_pkid(h: FixedHeader, bytes: Seq<u8>, byte1: u8, nonzero: bool) -> Result<u16, Error> {
    if h.byte1 != byte1 {
        Err(Error::MalformedPacket)
    } else {
        match frame_body(h, bytes) {
            None => Err(Error::MalformedPacket),
            Some(body) => parse_pkid_body(body, nonzero),
        }
    }
}

/// Encoding of a packet that holds a packet identifier only.
pub open spec fn spec_write_pkid(byte1: u8, pkid: u16, nonzero: bool) -> Result<Seq<u8>, Error> {
    if nonzero && pkid == 0 {
        Err(Error::PacketIdZero)
    } else {
        framed(byte1, be16(pkid))
    }
}

/// A frame is found whole by `check` and its body is what the frame holds.
pub proof fn lemma_frame_check(byte1: u8, body: Seq<u8>, rest: Seq<u8>, max: nat)
    requires
        body.len() <= MAX_REMAINING_LENGTH,
        frame(byte1, body).len() <= max,
    ensures
        spec_check(frame(byte1, body) + rest, max) == Ok::<FixedHeader, Error>(
            FixedHeader { byte1, remaining_len_len: varint(body.len()).len() as usize, remaining_len: body.len() as usize },
        ),
        frame(byte1, body).len() == 1 + varint(body.len()).len() + body.len(),
        frame_body(
            FixedHeader { byte1, remaining_len_len: varint(body.len()).len() as usize, remaining_len: body.len() as usize },
            frame(byte1, body),
        ) == Some(body),
{
    lemma_varint_len(body.len());
    let s = frame(byte1, body) + rest;
    assert(s.skip(1) =~= varint(body.len()) + (body + rest));
    lemma_varint_round_trip(body.len(), body + rest);
    assert(frame(byte1, body).skip((1 + varint(body.len()).len()) as int) =~= body);
}

/// Appends the frame of `body` with first byte `byte1` and returns its length.
pub fn write_frame(buffer: &mut Vec<u8>, byte1: u8, body: Vec<u8>) -> (r: Result<usize, Error>)
    ensures
        wrote(r, old(buffer)@, final(buffer)@, framed(byte1, body@)),
{
    if body.len() > MAX_REMAINING_LENGTH {
        return Err(Error::PayloadTooLong);
    }
    let mut body = body;
    let ghost b = body@;
    let mut out: Vec<u8> = Vec::new();
    out.push(byte1);
    match write_remaining_length(&mut out, body.len()) {
        Ok(_) => {},
        Err(e) => return Err(e),
    }
    out.append(&mut body);
    proof {
        lemma_varint_len(b.len());
    }
    assert(out@ =~= frame(byte1, b));
    let n = out.len();
    buffer.append(&mut out);
    Ok(n)
}

/// Decodes the frame of a packet that holds a packet identifier only.
pub fn read_pkid(fixed_header: FixedHeader, bytes: &[u8], byte1: u8, nonzero: bool) -> (r: Result<u16, Error>)
    requires
        fixed_header.wf(),
    ensures
        r == spec_read_pkid(fixed_header, bytes@, byte1, nonzero),
{
    if fixed_header.byte1 != byte1 || bytes.len() != fixed_header.frame_length() {
        return Err(Error::MalformedPacket);
    }
    let pos = 1 + fixed_header.remaining_len_len;
    if bytes.len() - pos != 2 {
        return Err(Error::MalformedPacket);
    }
    let (pkid, _) = match read_u16(bytes, pos) {
        Ok(v) => v,
        Err(e) => return Err(e),
    };
    if nonzero && pkid == 0 {
        return Err(Error::PacketIdZero);
    }
    Ok(pkid)
}

/// Appends the frame of a packet that holds a packet identifier only.
pub fn write_pkid(buffer: &mut Vec<u8>, byte1: u8, pkid: u16, nonzero: bool) -> (r: Result<usize, Error>)
    ensures
        wrote(r, old(buffer)@, final(buffer)@, spec_write_pkid(byte1, pkid, nonzero)),
{
    if nonzero && pkid == 0 {
        return Err(Error::PacketIdZero);
    }
    let mut body: Vec<u8> = Vec::new();
    write_u16(&mut body, pkid);
    assert(body@ =~= be16(pkid));
    write_frame(buffer, byte1, body)
}

} // verus!
