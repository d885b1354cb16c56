use vstd::prelude::*;
use vstd::utf8::{decode_utf8, encode_utf8, valid_utf8};

use crate::error::Error;

verus! {

broadcast use vstd::utf8::group_utf8_lib;

/// Largest length that a 2-byte length prefix can state.
pub const MAX_FIELD_LENGTH: usize = 65535;

/// Big-endian encoding of a 16-bit value.
pub open spec fn be16(n: u16) -> Seq<u8> {
    seq![(n / 256) as u8, (n % 256) as u8]
}

/// A byte field behind its 2-byte big-endian length.
pub open spec fn lp_bytes(b: Seq<u8>) -> Seq<u8> {
    be16(b.len() as u16) + b
}

/// Number of bytes of the UTF-8 encoding of a string.
pub open spec fn utf8_len(c: Seq<char>) -> nat {
    encode_utf8(c).len()
}

/// A string field: its UTF-8 bytes behind their 2-byte big-endian length.
pub open spec fn lp_string(c: Seq<char>) -> Seq<u8> {
    lp_bytes(encode_utf8(c))
}

/// One byte from the front of `s`, and what follows it.
pub open spec fn parse_u8(s: Seq<u8>) -> Result<(u8, Seq<u8>), Error> {
    if s.len() < 1 {
        Err(Error::MalformedPacket)
    } else {
        Ok((s[0], s.skip(1)))
    }
}

/// A big-endian 16-bit value from the front of `s`, and what follows it.
pub open spec fn parse_u16(s: Seq<u8>) -> Result<(u16, Seq<u8>), Error> {
    if s.len() < 2 {
        Err(Error::MalformedPacket)
    } else {
        Ok(((s[0] * 256 + s[1]) as u16, s.skip(2)))
    }
}

/// A length-prefixed byte field from the front of `s`, and what follows it.
pub open spec fn parse_bytes(s: Seq<u8>) -> Result<(Seq<u8>, Seq<u8>), Error> {
    match parse_u16(s) {
        Err(e) => Err(e),
        Ok((n, rest)) => if rest.len() < n {
            Err(Error::MalformedPacket)
        } else {
            Ok((rest.take(n as int), rest.skip(n as int)))
        },
    }
}

/// A length-prefixed UTF-8 string from the front of `s`, and what follows it.
pub open spec fn parse_string(s: Seq<u8>) -> Result<(Seq<char>, Seq<u8>), Error> {
    match parse_bytes(s) {
        Err(e) => Err(e),
        Ok((b, rest)) => if valid_utf8(b) {
            Ok((decode_utf8(b), rest))
        } else {
            Err(Error::TopicNotUtf8)
        },
    }
}

pub proof fn lemma_parse_u16(n: u16, rest: Seq<u8>)
    ensures
        parse_u16(be16(n) + rest) == Ok::<(u16, Seq<u8>), Error>((n, rest)),
{
    assert((be16(n) + rest).skip(2) =~= rest);
}

pub proof fn lemma_parse_bytes(b: Seq<u8>, rest: Seq<u8>)
    requires
        b.len() <= MAX_FIELD_LENGTH,
    ensures
        parse_bytes(lp_bytes(b) + rest) == Ok::<(Seq<u8>, Seq<u8>), Error>((b, rest)),
{
    let s = lp_bytes(b) + rest;
    assert(s =~= be16(b.len() as u16) + (b + rest));
    lemma_parse_u16(b.len() as u16, b + rest);
    assert((b + rest).take(b.len() as int) =~= b);
    assert((b + rest).skip(b.len() as int) =~= rest);
}

pub proof fn lemma_parse_string(c: Seq<char>, rest: Seq<u8>)
    requires
        utf8_len(c) <= MAX_FIELD_LENGTH,
    ensures
        parse_string(lp_string(c) + rest) == Ok::<(Seq<char>, Seq<u8>), Error>((c, rest)),
{
    lemma_parse_bytes(encode_utf8(c), rest);
}

/// Relies on std's `String::from_utf8`: it accepts exactly the byte vectors that
/// are valid UTF-8, and the string it returns is made of those very bytes.
#[verifier::external_body]
fn string_from_utf8(bytes: Vec<u8>) -> (r: Option<String>)
    ensures
        r is Some <==> valid_utf8(bytes@),
        r matches Some(s) ==> encode_utf8(s@) == bytes@,
{
    String::from_utf8(bytes).ok()
}

/// Reads one byte at `pos`; returns it and the position after it.
pub fn read_u8(s: &[u8], pos: usize) -> (r: Result<(u8, usize), Error>)
    requires
        pos <= s@.len(),
    ensures
        match (r, parse_u8(s@.skip(pos as int))) {
            (Ok((v, p)), Ok((w, rest))) => v == w && pos <= p <= s@.len() && rest == s@.skip(p as int),
            (Err(e), Err(f)) => e == f,
            _ => false,
        },
{
    if s.len() - pos < 1 {
        return Err(Error::MalformedPacket);
    }
    assert(s@.skip(pos as int).skip(1) =~= s@.skip(pos + 1));
    Ok((s[pos], pos + 1))
}

/// Reads a big-endian 16-bit value at `pos`; returns it and the position after it.
pub fn read_u16(s: &[u8], pos: usize) -> (r: Result<(u16, usize), Error>)
    requires
        pos <= s@.len(),
    ensures
        match (r, parse_u16(s@.skip(pos as int))) {
            (Ok((v, p)), Ok((w, rest))) => v == w && pos <= p <= s@.len() && rest == s@.skip(p as int),
            (Err(e), Err(f)) => e == f,
            _ => false,
        },
{
    if s.len() - pos < 2 {
        return Err(Error::MalformedPacket);
    }
    assert(s@.skip(pos as int).skip(2) =~= s@.skip(pos + 2));
    let v: u16 = s[pos] as u16 * 256 + s[pos + 1] as u16;
    Ok((v, pos + 2))
}

/// Reads a length-prefixed byte field at `pos`; returns it and the position after it.
pub fn read_bytes(s: &[u8], pos: usize) -> (r: Result<(Vec<u8>, usize), Error>)
    requires
        pos <= s@.len(),
    ensures
        match (r, parse_bytes(s@.skip(pos as int))) {
            (Ok((v, p)), Ok((w, rest))) => v@ == w && pos + 2 <= p <= s@.len() && rest == s@.skip(p as int),
            (Err(e), Err(f)) => e == f,
            _ => false,
        },
{
    let (n, start) = match read_u16(s, pos) {
        Ok(v) => v,
        Err(e) => return Err(e),
    };
    let n = n as usize;
    if s.len() - start < n {
        return Err(Error::MalformedPacket);
    }
    let mut v: Vec<u8> = Vec::new();
    let end: usize = start + n;
    let mut i: usize = start;
    while i < end
        invariant
            start <= i <= end,
            end == start + n,
            end <= s@.len(),
            v@ == s@.subrange(start as int, i as int),
        decreases end - i,
    {
        v.push(s[i]);
        i = i + 1;
        assert(v@ =~= s@.subrange(start as int, i as int));
    }
    assert(s@.skip(start as int).take(n as int) =~= v@);
    assert(s@.skip(start as int).skip(n as int) =~= s@.skip(start + n));
    Ok((v, start + n))
}

/// Reads a length-prefixed UTF-8 string at `pos`; returns it and the position after it.
pub fn read_string(s: &[u8], pos: usize) -> (r: Result<(String, usize), Error>)
    requires
        pos <= s@.len(),
    ensures
        match (r, parse_string(s@.skip(pos as int))) {
            (Ok((v, p)), Ok((w, rest))) => v@ == w && pos + 2 <= p <= s@.len() && rest == s@.skip(p as int),
            (Err(e), Err(f)) => e == f,
            _ => false,
        },
{
    let (bytes, next) = match read_bytes(s, pos) {
        Ok(v) => v,
        Err(e) => return Err(e),
    };
    match string_from_utf8(bytes) {
        Some(text) => {
            proof {
                vstd::utf8::encode_utf8_decode_utf8(text@);
            }
            Ok((text, next))
        },
        None => Err(Error::TopicNotUtf8),
    }
}

/// Number of bytes of the UTF-8 encoding of `s`.
pub fn str_utf8_len(s: &str) -> (r: usize)
    ensures
        r == utf8_len(s@),
{
    s.as_bytes().len()
}

/// Copies everything from `pos` to the end.
pub fn read_rest(s: &[u8], pos: usize) -> (r: Vec<u8>)
    requires
        pos <= s@.len(),
    ensures
        r@ == s@.skip(pos as int),
{
    let mut v: Vec<u8> = Vec::new();
    let mut i: usize = pos;
    while i < s.len()
        invariant
            pos <= i <= s@.len(),
            v@ == s@.subrange(pos as int, i as int),
        decreases s@.len() - i,
    {
        v.push(s[i]);
        i = i + 1;
        assert(v@ =~= s@.subrange(pos as int, i as int));
    }
    assert(v@ =~= s@.skip(pos as int));
    v
}

/// Appends a big-endian 16-bit value.
pub fn write_u16(buffer: &mut Vec<u8>, n: u16)
    ensures
        final(buffer)@ == old(buffer)@ + be16(n),
{
    buffer.push((n / 256) as u8);
    buffer.push((n % 256) as u8);
    assert(buffer@ =~= old(buffer)@ + be16(n));
}

/// Appends all of `b`.
pub fn write_raw(buffer: &mut Vec<u8>, b: &[u8])
    ensures
        final(buffer)@ == old(buffer)@ + b@,
{
    let mut i: usize = 0;
    while i < b.len()
        invariant
            i <= b@.len(),
            buffer@ == old(buffer)@ + b@.take(i as int),
        decreases b@.len() - i,
    {
        buffer.push(b[i]);
        i = i + 1;
        assert(buffer@ =~= old(buffer)@ + b@.take(i as int));
    }
    assert(b@.take(i as int) =~= b@);
}

/// Appends a byte field behind its length.
pub fn write_bytes(buffer: &mut Vec<u8>, b: &[u8])
    requires
        b@.len() <= MAX_FIELD_LENGTH,
    ensures
        final(buffer)@ == old(buffer)@ + lp_bytes(b@),
{
    write_u16(buffer, b.len() as u16);
    write_raw(buffer, b);
    assert(buffer@ =~= old(buffer)@ + lp_bytes(b@));
}

/// Appends a string field: its UTF-8 bytes behind their length.
pub fn write_string(buffer: &mut Vec<u8>, s: &str)
    requires
        utf8_len(s@) <= MAX_FIELD_LENGTH,
    ensures
        final(buffer)@ == old(buffer)@ + lp_string(s@),
{
    write_bytes(buffer, s.as_bytes());
}

} // verus!
