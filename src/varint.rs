use vstd::prelude::*;

use crate::error::Error;

verus! {

/// Largest value that fits the 4-byte remaining length field.
pub const MAX_REMAINING_LENGTH: usize = 268_435_455;

/// The remaining-length encoding of `n`: 7 bits per byte, least significant
/// group first, with the high bit set on every byte but the last.
pub open spec fn varint(n: nat) -> Seq<u8>
    decreases n,
{
    if n < 128 {
        seq![n as u8]
    } else {
        seq![((n % 128) + 128) as u8] + varint(n / 128)
    }
}

/// Decoding of a remaining length from the start of `s`, having already read `i`
/// bytes that add up to `acc`, the next group counting `mult` times.
/// Gives the number of bytes the field takes and its value.
pub open spec fn varint_from(s: Seq<u8>, i: nat, acc: nat, mult: nat) -> Result<(nat, nat), Error>
    decreases 4 - i,
{
    if i >= s.len() {
        Err(Error::InsufficientBytes(1))
    } else if s[i as int] < 128 {
        Ok((i + 1, (acc + s[i as int] * mult) as nat))
    } else if i + 1 >= 4 {
        Err(Error::MalformedRemainingLength)
    } else {
        varint_from(s, i + 1, (acc + (s[i as int] - 128) * mult) as nat, mult * 128)
    }
}

/// Decoding of the remaining length at the start of `s`: its size in bytes and
/// its value; `InsufficientBytes(1)` when `s` ends before the field does.
pub open spec fn decode_varint(s: Seq<u8>) -> Result<(nat, nat), Error> {
    varint_from(s, 0, 0, 1)
}

pub proof fn lemma_varint_len(n: nat)
    ensures
        varint(n).len() >= 1,
        n < 128 ==> varint(n).len() == 1,
        n < 16384 ==> varint(n).len() <= 2,
        n < 2097152 ==> varint(n).len() <= 3,
        n <= MAX_REMAINING_LENGTH ==> varint(n).len() <= 4,
    decreases n,
{
    if n >= 128 {
        lemma_varint_len(n / 128);
    }
}

/// The number of bytes that the encoding of a remaining length takes.
pub proof fn lemma_varint_len_exact(n: nat)
    requires
        n <= MAX_REMAINING_LENGTH,
    ensures
        varint(n).len() == (if n < 128 { 1nat } else if n < 16384 { 2nat } else if n < 2097152 { 3nat } else { 4nat }),
    decreases n,
{
    if n >= 128 {
        lemma_varint_len_exact(n / 128);
    }
}

proof fn lemma_varint_decode_from(n: nat, s: Seq<u8>, i: nat, acc: nat, mult: nat)
    requires
        n <= MAX_REMAINING_LENGTH,
        i + varint(n).len() <= 4,
        i + varint(n).len() <= s.len(),
        s.skip(i as int).take(varint(n).len() as int) == varint(n),
        mult > 0,
    ensures
        varint_from(s, i, acc, mult) == Ok::<(nat, nat), Error>((i + varint(n).len(), acc + n * mult)),
    decreases n,
{
    lemma_varint_len(n);
    assert(s[i as int] == s.skip(i as int).take(varint(n).len() as int)[0]);
    if n >= 128 {
        let m = n / 128;
        lemma_varint_len(m);
        assert(varint(n) == seq![((n % 128) + 128) as u8] + varint(m));
        assert(s.skip((i + 1) as int).take(varint(m).len() as int) =~= varint(m)) by {
            assert forall|k: int| 0 <= k < varint(m).len() implies s.skip((i + 1) as int)[k] == varint(m)[k] by {
                assert(s.skip(i as int).take(varint(n).len() as int)[k + 1] == varint(n)[k + 1]);
                assert(varint(n)[k + 1] == varint(m)[k]);
            }
        }
        lemma_varint_decode_from(m, s, i + 1, acc + (n % 128) * mult, mult * 128);
        assert(acc + (n % 128) * mult + m * (mult * 128) == acc + n * mult) by (nonlinear_arith)
            requires
                m == n / 128,
        {}
    }
}

/// Decoding the encoding of a remaining length gives it back, whatever follows it.
pub proof fn lemma_varint_round_trip(n: nat, rest: Seq<u8>)
    requires
        n <= MAX_REMAINING_LENGTH,
    ensures
        decode_varint(varint(n) + rest) == Ok::<(nat, nat), Error>((varint(n).len(), n)),
{
    lemma_varint_len(n);
    let s = varint(n) + rest;
    assert(s.skip(0).take(varint(n).len() as int) =~= varint(n));
    lemma_varint_decode_from(n, s, 0, 0, 1);
}

proof fn lemma_varint_from_bounds(s: Seq<u8>, i: nat, acc: nat, mult: nat)
    requires
        i < 4,
        mult == if i == 0 { 1nat } else if i == 1 { 128nat } else if i == 2 { 16384nat } else { 2097152nat },
        acc < mult,
    ensures
        varint_from(s, i, acc, mult) matches Ok((ll, len)) ==> i < ll <= 4 && ll <= s.len() && len <= MAX_REMAINING_LENGTH,
    decreases 4 - i,
{
    if i < s.len() {
        let b = s[i as int];
        if b < 128 {
            assert(acc + b * mult <= MAX_REMAINING_LENGTH) by (nonlinear_arith)
                requires
                    acc < mult,
                    mult <= 2097152,
                    b < 128,
            {}
        } else if i + 1 < 4 {
            assert(acc + (b - 128) * mult < mult * 128) by (nonlinear_arith)
                requires
                    acc < mult,
                    128 <= b < 256,
            {}
            lemma_varint_from_bounds(s, i + 1, (acc + (b - 128) * mult) as nat, mult * 128);
        }
    }
}

/// A decoded remaining length takes 1 to 4 bytes, all of them present, and
/// fits the 4-byte maximum.
pub proof fn lemma_decode_varint_bounds(s: Seq<u8>)
    ensures
        decode_varint(s) matches Ok((ll, len)) ==> 1 <= ll <= 4 && ll <= s.len() && len <= MAX_REMAINING_LENGTH,
{
    lemma_varint_from_bounds(s, 0, 0, 1);
}

/// The remaining-length codec: every length up to the 4-byte maximum takes at
/// most 4 bytes and decodes back to itself, whatever follows it; and 4 bytes
/// that all have their continuation bit set are a malformed length, whatever
/// follows them.
pub proof fn lemma_varint_codec(n: nat, rest: Seq<u8>, s: Seq<u8>)
    requires
        n <= MAX_REMAINING_LENGTH,
    ensures
        varint(n).len() <= 4,
        decode_varint(varint(n) + rest) == Ok::<(nat, nat), Error>((varint(n).len(), n)),
        s.len() >= 4 && (forall|i: int| 0 <= i < 4 ==> s[i] >= 128) ==> decode_varint(s) == Err::<(nat, nat), Error>(
            Error::MalformedRemainingLength,
        ),
{
    lemma_varint_len(n);
    lemma_varint_round_trip(n, rest);
    if s.len() >= 4 && (forall|i: int| 0 <= i < 4 ==> s[i] >= 128) {
        assert(s[0] >= 128 && s[1] >= 128 && s[2] >= 128 && s[3] >= 128);
        let a1 = (s[0] - 128) as nat;
        let a2 = (a1 + (s[1] - 128) * 128) as nat;
        let a3 = (a2 + (s[2] - 128) * 16384) as nat;
        assert(varint_from(s, 3, a3, 2097152) == Err::<(nat, nat), Error>(Error::MalformedRemainingLength));
        assert(varint_from(s, 2, a2, 16384) == varint_from(s, 3, a3, 2097152));
        assert(varint_from(s, 1, a1, 128) == varint_from(s, 2, a2, 16384));
        assert(varint_from(s, 0, 0, 1) == varint_from(s, 1, a1, 128));
    }
}

proof fn lemma_varint_from_len(s: Seq<u8>, i: nat, acc: nat, mult: nat)
    ensures
        varint_from(s, i, acc, mult) matches Ok((ll, len)) ==> i < ll <= s.len(),
    decreases 4 - i,
{
    if i < s.len() && s[i as int] >= 128 && i + 1 < 4 {
        lemma_varint_from_len(s, i + 1, (acc + (s[i as int] - 128) * mult) as nat, mult * 128);
    }
}

proof fn lemma_varint_from_prefix(s: Seq<u8>, k: nat, i: nat, acc: nat, mult: nat)
    requires
        i <= k <= s.len(),
        i < 4,
        varint_from(s, i, acc, mult) is Ok,
    ensures
        varint_from(s, i, acc, mult) matches Ok((ll, len)) && (k >= ll ==> varint_from(s.take(k as int), i, acc, mult)
            == varint_from(s, i, acc, mult)) && (k < ll ==> varint_from(s.take(k as int), i, acc, mult)
            == Err::<(nat, nat), Error>(Error::InsufficientBytes(1))),
    decreases 4 - i,
{
    let p = s.take(k as int);
    lemma_varint_from_len(s, i, acc, mult);
    if i < k {
        assert(p[i as int] == s[i as int]);
        if s[i as int] >= 128 && i + 1 < 4 {
            lemma_varint_from_prefix(s, k, i + 1, (acc + (s[i as int] - 128) * mult) as nat, mult * 128);
        }
    }
}

/// Decoding a prefix of `s` that holds the whole field gives the same result;
/// a prefix that stops inside the field asks for one more byte.
pub proof fn lemma_decode_varint_prefix(s: Seq<u8>, k: nat)
    requires
        k <= s.len(),
        decode_varint(s) is Ok,
    ensures
        decode_varint(s) matches Ok((ll, len)) && (k >= ll ==> decode_varint(s.take(k as int)) == decode_varint(s))
            && (k < ll ==> decode_varint(s.take(k as int)) == Err::<(nat, nat), Error>(Error::InsufficientBytes(1))),
{
    lemma_varint_from_prefix(s, k, 0, 0, 1);
}

/// Appends the remaining-length encoding of `len` and returns its size in bytes.
pub fn write_remaining_length(buffer: &mut Vec<u8>, len: usize) -> (r: Result<usize, Error>)
    ensures
        len > MAX_REMAINING_LENGTH ==> r == Err::<usize, Error>(Error::PayloadTooLong) && final(buffer)@ == old(buffer)@,
        len <= MAX_REMAINING_LENGTH ==> r == Ok::<usize, Error>(varint(len as nat).len() as usize)
            && final(buffer)@ == old(buffer)@ + varint(len as nat),
{
    if len > MAX_REMAINING_LENGTH {
        return Err(Error::PayloadTooLong);
    }
    let mut x: usize = len;
    let mut count: usize = 0;
    let ghost start = buffer@;
    proof {
        lemma_varint_len(len as nat);
    }
    loop
        invariant
            x <= len,
            count <= 4,
            varint(len as nat) == buffer@.skip(start.len() as int) + varint(x as nat),
            buffer@.take(start.len() as int) == start,
            start.len() <= buffer@.len(),
            count + varint(x as nat).len() == varint(len as nat).len(),
            varint(len as nat).len() <= 4,
            len <= MAX_REMAINING_LENGTH,
            start == old(buffer)@,
        decreases x,
    {
        proof {
            lemma_varint_len(x as nat);
        }
        let digit: u8 = (x % 128) as u8;
        let next: usize = x / 128;
        let ghost before = buffer@;
        if next > 0 {
            buffer.push(digit + 128);
            count = count + 1;
            assert(buffer@.skip(start.len() as int) =~= before.skip(start.len() as int) + seq![(digit + 128) as u8]);
            assert(buffer@.take(start.len() as int) =~= before.take(start.len() as int));
            assert(varint(x as nat) =~= seq![(digit + 128) as u8] + varint(next as nat));
            assert(varint(len as nat) =~= buffer@.skip(start.len() as int) + varint(next as nat));
            x = next;
        } else {
            buffer.push(digit);
            count = count + 1;
            assert(buffer@.skip(start.len() as int) =~= before.skip(start.len() as int) + seq![digit]);
            assert(buffer@.take(start.len() as int) =~= before.take(start.len() as int));
            assert(buffer@ =~= start + varint(len as nat));
            return Ok(count);
        }
    }
}

/// Reads the remaining length that starts at `start`: its size in bytes and its value.
pub fn read_remaining_length(stream: &[u8], start: usize) -> (r: Result<(usize, usize), Error>)
    requires
        start <= stream@.len(),
    ensures
        match (r, decode_varint(stream@.skip(start as int))) {
            (Ok((a, b)), Ok((c, d))) => a == c && b == d,
            (Err(e), Err(f)) => e == f,
            _ => false,
        },
{
    let ghost s = stream@.skip(start as int);
    let mut i: usize = 0;
    let mut acc: usize = 0;
    let mut mult: usize = 1;
    while i < stream.len() - start
        invariant
            start <= stream@.len(),
            s == stream@.skip(start as int),
            i < 4,
            mult == if i == 0 { 1nat } else if i == 1 { 128nat } else if i == 2 { 16384nat } else { 2097152nat },
            acc < mult,
            varint_from(s, 0, 0, 1) == varint_from(s, i as nat, acc as nat, mult as nat),
        decreases stream@.len() - start - i,
    {
        let byte: u8 = stream[start + i];
        assert(s[i as int] == byte);
        if byte < 128 {
            assert(acc + byte * mult < 268435456) by (nonlinear_arith)
                requires
                    acc < mult,
                    mult <= 2097152,
                    byte < 128,
            {}
            return Ok((i + 1, acc + byte as usize * mult));
        }
        if i + 1 >= 4 {
            return Err(Error::MalformedRemainingLength);
        }
        assert(acc + (byte - 128) * mult < mult * 128) by (nonlinear_arith)
            requires
                acc < mult,
                128 <= byte < 256,
        {}
        acc = acc + (byte - 128) as usize * mult;
        mult = mult * 128;
        i = i + 1;
    }
    Err(Error::InsufficientBytes(1))
}

} // verus!
