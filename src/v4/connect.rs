use vstd::prelude::*;

use crate::error::Error;
use crate::frame::{decoded, frame_body, framed, write_frame, wrote};
use crate::header::FixedHeader;
use crate::qos::{lemma_qos_num_of, qos_num, qos_of, qos_to_u8, Protocol, QoS};
use crate::wire::{
    be16, lemma_parse_bytes, lemma_parse_string, lemma_parse_u16, lp_bytes, lp_string,
    parse_bytes, parse_string, parse_u16, parse_u8, read_bytes, read_string, read_u16, read_u8,
    str_utf8_len, utf8_len, write_bytes, write_string, write_u16, MAX_FIELD_LENGTH,
};

verus! {

/// Connection packet initiated by the client.
///
/// On the wire: first byte `0x10`; the protocol name "MQTT" and level (4 or
/// 5); a flags byte (bit 7 user name, bit 6 password, bit 5 will retain,
/// bits 4-3 will QoS, bit 2 will, bit 1 clean session, bit 0 reserved and 0);
/// the keep alive; then the client id, the will topic and message, the user
/// name and the password, each present only when its flag is set.
#[derive(Debug)]
pub struct Connect {
    pub protocol: Protocol,
    pub keep_alive: u16,
    pub client_id: String,
    pub clean_session: bool,
    pub last_will: Option<LastWill>,
    pub login: Option<Login>,
}

/// Message that the broker publishes on behalf of the client when it goes away.
#[derive(Clone, Debug)]
pub struct LastWill {
    pub topic: String,
    pub message: Vec<u8>,
    pub qos: QoS,
    pub retain: bool,
}

/// Login credentials. Both fields are sent, each behind its own flag, even when empty.
#[derive(Clone, Debug)]
pub struct Login {
    pub username: String,
    pub password: String,
}

/// Mathematical value of a `LastWill`.
pub struct LastWillV {
    pub topic: Seq<char>,
    pub message: Seq<u8>,
    pub qos: QoS,
    pub retain: bool,
}

/// Mathematical value of a `Login`.
pub struct LoginV {
    pub username: Seq<char>,
    pub password: Seq<char>,
}

/// Mathematical value of a `Connect`.
pub struct ConnectV {
    pub protocol: Protocol,
    pub keep_alive: u16,
    pub client_id: Seq<char>,
    pub clean_session: bool,
    pub last_will: Option<LastWillV>,
    pub login: Option<LoginV>,
}

impl View for LastWill {
    type V = LastWillV;

    open spec fn view(&self) -> LastWillV {
        LastWillV { topic: self.topic@, message: self.message@, qos: self.qos, retain: self.retain }
    }
}

impl View for Login {
    type V = LoginV;

    open spec fn view(&self) -> LoginV {
        LoginV { username: self.username@, password: self.password@ }
    }
}

impl View for Connect {
    type V = ConnectV;

    open spec fn view(&self) -> ConnectV {
        ConnectV {
            protocol: self.protocol,
            keep_alive: self.keep_alive,
            client_id: self.client_id@,
            clean_session: self.clean_session,
            last_will: will_view(self.last_will),
            login: login_view(self.login),
        }
    }
}

/// Value of an optional will.
pub open spec fn will_view(w: Option<LastWill>) -> Option<LastWillV> {
    match w {
        Some(w) => Some(w@),
        None => None,
    }
}

/// Value of an optional login.
pub open spec fn login_view(l: Option<Login>) -> Option<LoginV> {
    match l {
        Some(l) => Some(l@),
        None => None,
    }
}

/// The bytes of the protocol name "MQTT".
pub open spec fn protocol_name() -> Seq<u8> {
    seq![77u8, 81u8, 84u8, 84u8]
}

/// The protocol level byte of a protocol.
pub open spec fn protocol_level(p: Protocol) -> u8 {
    match p {
        Protocol::V4 => 4,
        Protocol::V5 => 5,
    }
}

/// The flag bits that a will sets.
pub open spec fn will_flags(w: Option<LastWillV>) -> int {
    match w {
        Some(w) => (if w.retain { 32int } else { 0int }) + qos_num(w.qos) * 8 + 4,
        None => 0,
    }
}

/// The flag bits that a login sets.
pub open spec fn login_flags(l: Option<LoginV>) -> int {
    match l {
        Some(_) => 192int,
        None => 0,
    }
}

/// The connect flags byte.
#[verifier::opaque]
pub open spec fn connect_flags(c: ConnectV) -> u8 {
    (login_flags(c.login) + will_flags(c.last_will) + (if c.clean_session { 2int } else { 0int })) as u8
}

/// Wire bytes of a will.
pub open spec fn will_bytes(w: Option<LastWillV>) -> Seq<u8> {
    match w {
        Some(w) => lp_string(w.topic) + lp_bytes(w.message),
        None => Seq::empty(),
    }
}

/// Wire bytes of a login: the user name, then the password.
pub open spec fn login_bytes(l: Option<LoginV>) -> Seq<u8> {
    match l {
        Some(l) => lp_string(l.username) + lp_string(l.password),
        None => Seq::empty(),
    }
}

/// Body of a connect frame.
pub open spec fn connect_body(c: ConnectV) -> Seq<u8> {
    lp_bytes(protocol_name()) + seq![protocol_level(c.protocol), connect_flags(c)] + be16(c.keep_alive)
        + lp_string(c.client_id) + will_bytes(c.last_will) + login_bytes(c.login)
}

/// Every string and byte field of a connect fits its 2-byte length.
pub open spec fn connect_fields_fit(c: ConnectV) -> bool {
    &&& utf8_len(c.client_id) <= MAX_FIELD_LENGTH
    &&& (c.last_will matches Some(w) ==> utf8_len(w.topic) <= MAX_FIELD_LENGTH && w.message.len() <= MAX_FIELD_LENGTH)
    &&& (c.login matches Some(l) ==> utf8_len(l.username) <= MAX_FIELD_LENGTH && utf8_len(l.password) <= MAX_FIELD_LENGTH)
}

/// Encoding of a connect as a frame.
pub open spec fn spec_write_connect(c: ConnectV) -> Result<Seq<u8>, Error> {
    if !connect_fields_fit(c) {
        Err(Error::PayloadTooLong)
    } else {
        framed(0x10, connect_body(c))
    }
}

/// Decoding of the will that the connect flags announce, and what follows it.
#[verifier::opaque]
pub open spec fn parse_will(flags: u8, s: Seq<u8>) -> Result<(Option<LastWillV>, Seq<u8>), Error> {
    let num = ((flags / 8) % 4) as u8;
    let retain = (flags / 32) % 2 == 1;
    if (flags / 4) % 2 == 0 {
        if num != 0 || retain {
            Err(Error::MalformedPacket)
        } else {
            Ok((None, s))
        }
    } else {
        match parse_string(s) {
            Err(e) => Err(e),
            Ok((topic, r1)) => match parse_bytes(r1) {
                Err(e) => Err(e),
                Ok((message, r2)) => match qos_of(num) {
                    None => Err(Error::InvalidQoS(num)),
                    Some(qos) => Ok((Some(LastWillV { topic, message, qos, retain }), r2)),
                },
            },
        }
    }
}

/// Decoding of an optional string field, empty when absent.
pub open spec fn parse_optional_string(present: bool, s: Seq<u8>) -> Result<(Seq<char>, Seq<u8>), Error> {
    if present {
        parse_string(s)
    } else {
        Ok((Seq::empty(), s))
    }
}

/// Decoding of the login that the connect flags announce, and what follows it.
/// There is a login when either flag is set; a field whose flag is clear is empty.
#[verifier::opaque]
pub open spec fn parse_login(flags: u8, s: Seq<u8>) -> Result<(Option<LoginV>, Seq<u8>), Error> {
    match parse_optional_string(flags / 128 == 1, s) {
        Err(e) => Err(e),
        Ok((username, r1)) => match parse_optional_string((flags / 64) % 2 == 1, r1) {
            Err(e) => Err(e),
            Ok((password, r2)) => if flags / 128 != 1 && (flags / 64) % 2 != 1 {
                Ok((None, r2))
            } else {
                Ok((Some(LoginV { username, password }), r2))
            },
        },
    }
}

/// Decoding of the fields after the flags byte.
#[verifier::opaque]
pub open spec fn parse_connect_fields(protocol: Protocol, flags: u8, s: Seq<u8>) -> Result<ConnectV, Error> {
    match parse_u16(s) {
        Err(e) => Err(e),
        Ok((keep_alive, r1)) => match parse_string(r1) {
            Err(e) => Err(e),
            Ok((client_id, r2)) => match parse_will(flags, r2) {
                Err(e) => Err(e),
                Ok((last_will, r3)) => match parse_login(flags, r3) {
                    Err(e) => Err(e),
                    Ok((login, r4)) => if r4.len() != 0 {
                        Err(Error::MalformedPacket)
                    } else {
                        Ok(ConnectV { protocol, keep_alive, client_id, clean_session: (flags / 2) % 2 == 1, last_will, login })
                    },
                },
            },
        },
    }
}

/// Decoding of a connect body.
pub open spec fn parse_connect(body: Seq<u8>) -> Result<ConnectV, Error> {
    match parse_bytes(body) {
        Err(e) => Err(e),
        Ok((name, r1)) => if name != protocol_name() {
            Err(Error::InvalidProtocol)
        } else {
            match parse_u8(r1) {
                Err(e) => Err(e),
                Ok((level, r2)) => if level != 4 && level != 5 {
                    Err(Error::InvalidProtocol)
                } else {
                    match parse_u8(r2) {
                        Err(e) => Err(e),
                        Ok((flags, r3)) => if flags % 2 == 1 {
                            Err(Error::MalformedPacket)
                        } else {
                            parse_connect_fields(if level == 4 { Protocol::V4 } else { Protocol::V5 }, flags, r3)
                        },
                    }
                },
            }
        },
    }
}

/// Decoding of the connect frame `bytes` that `h` describes.
pub open spec fn spec_read_connect(h: FixedHeader, bytes: Seq<u8>) -> Result<ConnectV, Error> {
    if h.byte1 != 0x10 {
        Err(Error::MalformedPacket)
    } else {
        match frame_body(h, bytes) {
            None => Err(Error::MalformedPacket),
            Some(body) => parse_connect(body),
        }
    }
}

proof fn lemma_connect_flags(c: ConnectV)
    ensures
        connect_flags(c) as int == login_flags(c.login) + will_flags(c.last_will) + (if c.clean_session { 2int } else { 0int }),
        connect_flags(c) % 2 == 0,
        (connect_flags(c) / 2) % 2 == 1 <==> c.clean_session,
        (connect_flags(c) / 4) % 2 == (if c.last_will is Some { 1int } else { 0int }),
        (connect_flags(c) / 8) % 4 == (match c.last_will { Some(w) => qos_num(w.qos) as int, None => 0int }),
        (connect_flags(c) / 32) % 2 == (match c.last_will { Some(w) => if w.retain { 1int } else { 0int }, None => 0int }),
        (connect_flags(c) / 64) % 2 == (if c.login is Some { 1int } else { 0int }),
        connect_flags(c) / 128 == (if c.login is Some { 1int } else { 0int }),
{
    reveal(connect_flags);
    let u: int = if c.login is Some { 1int } else { 0int };
    let p: int = u;
    let r: int = match c.last_will { Some(w) => if w.retain { 1int } else { 0int }, None => 0int };
    let q: int = match c.last_will { Some(w) => qos_num(w.qos) as int, None => 0int };
    let w: int = if c.last_will is Some { 1int } else { 0int };
    let k: int = if c.clean_session { 1int } else { 0int };
    match c.last_will {
        Some(lw) => lemma_qos_num_of(lw.qos),
        None => {},
    }
    assert(login_flags(c.login) == u * 128 + p * 64);
    assert(will_flags(c.last_will) == r * 32 + q * 8 + w * 4);
    let f: int = u * 128 + p * 64 + r * 32 + q * 8 + w * 4 + k * 2;
    assert(0 <= f < 256);
    assert(f % 2 == 0 && (f / 2) % 2 == k && (f / 4) % 2 == w && (f / 8) % 4 == q && (f / 32) % 2 == r
        && (f / 64) % 2 == p && f / 128 == u) by (nonlinear_arith)
        requires
            f == u * 128 + p * 64 + r * 32 + q * 8 + w * 4 + k * 2,
            0 <= u <= 1, 0 <= p <= 1, 0 <= r <= 1, 0 <= q <= 2, 0 <= w <= 1, 0 <= k <= 1,
    {}
}

proof fn lemma_parse_will(c: ConnectV, rest: Seq<u8>)
    requires
        connect_fields_fit(c),
    ensures
        parse_will(connect_flags(c), will_bytes(c.last_will) + rest)
            == Ok::<(Option<LastWillV>, Seq<u8>), Error>((c.last_will, rest)),
{
    reveal(parse_will);
    lemma_connect_flags(c);
    match c.last_will {
        Some(w) => {
            lemma_qos_num_of(w.qos);
            assert(will_bytes(c.last_will) + rest =~= lp_string(w.topic) + (lp_bytes(w.message) + rest));
            lemma_parse_string(w.topic, lp_bytes(w.message) + rest);
            lemma_parse_bytes(w.message, rest);
        },
        None => {
            assert(will_bytes(c.last_will) + rest =~= rest);
        },
    }
}

proof fn lemma_parse_login(c: ConnectV)
    requires
        connect_fields_fit(c),
    ensures
        parse_login(connect_flags(c), login_bytes(c.login))
            == Ok::<(Option<LoginV>, Seq<u8>), Error>((c.login, Seq::<u8>::empty())),
{
    reveal(parse_login);
    lemma_connect_flags(c);
    match c.login {
        Some(l) => {
            lemma_parse_string(l.username, lp_string(l.password));
            lemma_parse_string(l.password, Seq::<u8>::empty());
            assert(lp_string(l.password) + Seq::<u8>::empty() =~= lp_string(l.password));
        },
        None => {},
    }
}

proof fn lemma_parse_connect_fields(c: ConnectV)
    requires
        connect_fields_fit(c),
    ensures
        parse_connect_fields(
            c.protocol,
            connect_flags(c),
            be16(c.keep_alive) + lp_string(c.client_id) + will_bytes(c.last_will) + login_bytes(c.login),
        ) == Ok::<ConnectV, Error>(c),
{
    reveal(parse_connect_fields);
    lemma_connect_flags(c);
    lemma_parse_will(c, login_bytes(c.login));
    lemma_parse_login(c);
    let r3 = will_bytes(c.last_will) + login_bytes(c.login);
    let r2 = lp_string(c.client_id) + r3;
    assert(be16(c.keep_alive) + lp_string(c.client_id) + will_bytes(c.last_will) + login_bytes(c.login)
        =~= be16(c.keep_alive) + r2);
    lemma_parse_u16(c.keep_alive, r2);
    lemma_parse_string(c.client_id, r3);
}

/// A connect accepted by the encoder decodes back from its own body.
pub proof fn lemma_connect_round_trip(c: ConnectV)
    requires
        spec_write_connect(c) is Ok,
    ensures
        parse_connect(connect_body(c)) == Ok::<ConnectV, Error>(c),
{
    lemma_connect_flags(c);
    lemma_parse_connect_fields(c);
    let r1b = be16(c.keep_alive) + lp_string(c.client_id) + will_bytes(c.last_will) + login_bytes(c.login);
    let r1 = seq![protocol_level(c.protocol), connect_flags(c)] + r1b;
    assert(connect_body(c) =~= lp_bytes(protocol_name()) + r1);
    lemma_parse_bytes(protocol_name(), r1);
    assert(r1.skip(1) =~= seq![connect_flags(c)] + r1b);
    assert((seq![connect_flags(c)] + r1b).skip(1) =~= r1b);
}

/// Reads the will that `flags` announce at `pos`; returns it and the position after it.
fn read_will(flags: u8, bytes: &[u8], pos: usize) -> (r: Result<(Option<LastWill>, usize), Error>)
    requires
        pos <= bytes@.len(),
    ensures
        match (r, parse_will(flags, bytes@.skip(pos as int))) {
            (Ok((w, p)), Ok((wv, rest))) => will_view(w) == wv && pos <= p <= bytes@.len() && rest == bytes@.skip(p as int),
            (Err(e), Err(f)) => e == f,
            _ => false,
        },
{
    reveal(parse_will);
    let num: u8 = (flags / 8) % 4;
    let retain = (flags / 32) % 2 == 1;
    if (flags / 4) % 2 == 0 {
        if num != 0 || retain {
            return Err(Error::MalformedPacket);
        }
        return Ok((None, pos));
    }
    let (topic, pos) = match read_string(bytes, pos) {
        Ok(v) => v,
        Err(e) => return Err(e),
    };
    let (message, pos) = match read_bytes(bytes, pos) {
        Ok(v) => v,
        Err(e) => return Err(e),
    };
    let qos = match num {
        0 => QoS::AtMostOnce,
        1 => QoS::AtLeastOnce,
        2 => QoS::ExactlyOnce,
        n => return Err(Error::InvalidQoS(n)),
    };
    Ok((Some(LastWill { topic, message, qos, retain }), pos))
}

/// Reads a string at `pos` when `present`; an empty string otherwise.
fn read_optional_string(present: bool, bytes: &[u8], pos: usize) -> (r: Result<(String, usize), Error>)
    requires
        pos <= bytes@.len(),
    ensures
        match (r, parse_optional_string(present, bytes@.skip(pos as int))) {
            (Ok((v, p)), Ok((w, rest))) => v@ == w && pos <= p <= bytes@.len() && rest == bytes@.skip(p as int),
            (Err(e), Err(f)) => e == f,
            _ => false,
        },
{
    if present {
        read_string(bytes, pos)
    } else {
        Ok((String::new(), pos))
    }
}

/// Reads the login that `flags` announce at `pos`; returns it and the position after it.
fn read_login(flags: u8, bytes: &[u8], pos: usize) -> (r: Result<(Option<Login>, usize), Error>)
    requires
        pos <= bytes@.len(),
    ensures
        match (r, parse_login(flags, bytes@.skip(pos as int))) {
            (Ok((l, p)), Ok((lv, rest))) => login_view(l) == lv && pos <= p <= bytes@.len() && rest == bytes@.skip(p as int),
            (Err(e), Err(f)) => e == f,
            _ => false,
        },
{
    reveal(parse_login);
    let (username, pos) = match read_optional_string(flags / 128 == 1, bytes, pos) {
        Ok(v) => v,
        Err(e) => return Err(e),
    };
    let (password, pos) = match read_optional_string((flags / 64) % 2 == 1, bytes, pos) {
        Ok(v) => v,
        Err(e) => return Err(e),
    };
    if flags / 128 != 1 && (flags / 64) % 2 != 1 {
        return Ok((None, pos));
    }
    Ok((Some(Login { username, password }), pos))
}

/// Reads the fields after the flags byte up to the end of `bytes`.
fn read_fields(protocol: Protocol, flags: u8, bytes: &[u8], pos: usize) -> (r: Result<Connect, Error>)
    requires
        pos <= bytes@.len(),
    ensures
        decoded(r, parse_connect_fields(protocol, flags, bytes@.skip(pos as int))),
{
    reveal(parse_connect_fields);
    let (keep_alive, pos) = match read_u16(bytes, pos) {
        Ok(v) => v,
        Err(e) => return Err(e),
    };
    let (client_id, pos) = match read_string(bytes, pos) {
        Ok(v) => v,
        Err(e) => return Err(e),
    };
    let (last_will, pos) = match read_will(flags, bytes, pos) {
        Ok(v) => v,
        Err(e) => return Err(e),
    };
    let (login, pos) = match read_login(flags, bytes, pos) {
        Ok(v) => v,
        Err(e) => return Err(e),
    };
    if pos != bytes.len() {
        return Err(Error::MalformedPacket);
    }
    Ok(Connect { protocol, keep_alive, client_id, clean_session: (flags / 2) % 2 == 1, last_will, login })
}

/// Appends the will fields.
fn write_will(body: &mut Vec<u8>, will: &Option<LastWill>)
    requires
        will_view(*will) matches Some(w) ==> utf8_len(w.topic) <= MAX_FIELD_LENGTH && w.message.len() <= MAX_FIELD_LENGTH,
    ensures
        final(body)@ == old(body)@ + will_bytes(will_view(*will)),
{
    match will {
        Some(w) => {
            write_string(body, w.topic.as_str());
            write_bytes(body, w.message.as_slice());
            assert(body@ =~= old(body)@ + will_bytes(will_view(*will)));
        },
        None => {
            assert(body@ =~= old(body)@ + will_bytes(will_view(*will)));
        },
    }
}

/// Appends the user name and the password of a login.
fn write_login(body: &mut Vec<u8>, login: &Option<Login>)
    requires
        login_view(*login) matches Some(l) ==> utf8_len(l.username) <= MAX_FIELD_LENGTH && utf8_len(l.password) <= MAX_FIELD_LENGTH,
    ensures
        final(body)@ == old(body)@ + login_bytes(login_view(*login)),
{
    match login {
        Some(l) => {
            write_string(body, l.username.as_str());
            write_string(body, l.password.as_str());
            assert(body@ =~= old(body)@ + login_bytes(login_view(*login)));
        },
        None => {
            assert(body@ =~= old(body)@ + login_bytes(login_view(*login)));
        },
    }
}

impl LastWill {
    pub fn new(topic: String, payload: Vec<u8>, qos: QoS, retain: bool) -> (r: LastWill)
        ensures
            r@ == (LastWillV { topic: topic@, message: payload@, qos, retain }),
    {
        LastWill { topic, message: payload, qos, retain }
    }
}

impl Login {
    pub fn new(u: String, p: String) -> (r: Login)
        ensures
            r@ == (LoginV { username: u@, password: p@ }),
    {
        Login { username: u, password: p }
    }

    /// Whether these credentials are exactly `username` and `password`.
    pub fn validate(&self, username: String, password: String) -> (r: bool)
        ensures
            r == (self.username@ == username@ && self.password@ == password@),
    {
        self.username == username && self.password == password
    }
}

impl Connect {
    /// A clean-session connect for protocol 4 with a keep alive of 10 seconds,
    /// no will and no login.
    pub fn new(id: String) -> (r: Connect)
        ensures
            r@ == (ConnectV {
                protocol: Protocol::V4,
                keep_alive: 10,
                client_id: id@,
                clean_session: true,
                last_will: None,
                login: None,
            }),
    {
        Connect { protocol: Protocol::V4, keep_alive: 10, client_id: id, clean_session: true, last_will: None, login: None }
    }

    /// Decodes the frame `bytes` (fixed header included) that `fixed_header` describes.
    pub fn read(fixed_header: FixedHeader, bytes: &[u8]) -> (r: Result<Connect, Error>)
        requires
            fixed_header.wf(),
        ensures
            decoded(r, spec_read_connect(fixed_header, bytes@)),
    {
        if fixed_header.byte1 != 0x10 || bytes.len() != fixed_header.frame_length() {
            return Err(Error::MalformedPacket);
        }
        let pos = 1 + fixed_header.remaining_len_len;
        let (name, pos) = match read_bytes(bytes, pos) {
            Ok(v) => v,
            Err(e) => return Err(e),
        };
        if name.len() != 4 || name[0] != 77 || name[1] != 81 || name[2] != 84 || name[3] != 84 {
            assert(name@ != protocol_name()) by {
                if name@ == protocol_name() {
                    assert(name@[0] == 77 && name@[1] == 81 && name@[2] == 84 && name@[3] == 84);
                }
            }
            return Err(Error::InvalidProtocol);
        }
        assert(name@ =~= protocol_name());
        let (level, pos) = match read_u8(bytes, pos) {
            Ok(v) => v,
            Err(e) => return Err(e),
        };
        if level != 4 && level != 5 {
            return Err(Error::InvalidProtocol);
        }
        let (flags, pos) = match read_u8(bytes, pos) {
            Ok(v) => v,
            Err(e) => return Err(e),
        };
        if flags % 2 == 1 {
            return Err(Error::MalformedPacket);
        }
        let protocol = if level == 4 { Protocol::V4 } else { Protocol::V5 };
        read_fields(protocol, flags, bytes, pos)
    }

    /// Whether every string and byte field fits its 2-byte length.
    fn fields_fit(&self) -> (r: bool)
        ensures
            r == connect_fields_fit(self@),
    {
        if str_utf8_len(self.client_id.as_str()) > MAX_FIELD_LENGTH {
            return false;
        }
        match &self.last_will {
            Some(w) => {
                if str_utf8_len(w.topic.as_str()) > MAX_FIELD_LENGTH || w.message.len() > MAX_FIELD_LENGTH {
                    return false;
                }
            },
            None => {},
        }
        match &self.login {
            Some(l) => {
                if str_utf8_len(l.username.as_str()) > MAX_FIELD_LENGTH || str_utf8_len(l.password.as_str()) > MAX_FIELD_LENGTH {
                    return false;
                }
            },
            None => {},
        }
        true
    }

    /// The connect flags byte.
    fn flags(&self) -> (r: u8)
        ensures
            r == connect_flags(self@),
    {
        proof {
            reveal(connect_flags);
        }
        let mut flags: u8 = if self.clean_session { 2 } else { 0 };
        match &self.last_will {
            Some(w) => {
                flags = flags + 4 + qos_to_u8(w.qos) * 8 + (if w.retain { 32u8 } else { 0u8 });
            },
            None => {},
        }
        match &self.login {
            Some(_) => {
                flags = flags + 128 + 64;
            },
            None => {},
        }
        flags
    }

    /// Appends the frame of this packet to `buffer` and returns its length.
    pub fn write(&self, buffer: &mut Vec<u8>) -> (r: Result<usize, Error>)
        ensures
            wrote(r, old(buffer)@, final(buffer)@, spec_write_connect(self@)),
    {
        if !self.fields_fit() {
            return Err(Error::PayloadTooLong);
        }
        let flags = self.flags();
        let level: u8 = match self.protocol {
            Protocol::V4 => 4,
            Protocol::V5 => 5,
        };
        let mut body: Vec<u8> = Vec::new();
        write_u16(&mut body, 4);
        body.push(77);
        body.push(81);
        body.push(84);
        body.push(84);
        body.push(level);
        body.push(flags);
        write_u16(&mut body, self.keep_alive);
        write_string(&mut body, self.client_id.as_str());
        assert(body@ =~= lp_bytes(protocol_name()) + seq![protocol_level(self.protocol), connect_flags(self@)]
            + be16(self.keep_alive) + lp_string(self.client_id@));
        write_will(&mut body, &self.last_will);
        write_login(&mut body, &self.login);
        assert(body@ =~= connect_body(self@));
        write_frame(buffer, 0x10, body)
    }

    /// Number of bytes of the body (what the remaining length counts).
    pub fn len(&self) -> (r: usize)
        requires
            connect_body(self@).len() <= usize::MAX,
        ensures
            r == connect_body(self@).len(),
    {
        let ghost c = self@;
        assert(connect_body(c).len() == 10 + lp_string(c.client_id).len() + will_bytes(c.last_will).len()
            + login_bytes(c.login).len());
        let mut n: usize = 12 + str_utf8_len(self.client_id.as_str());
        match &self.last_will {
            Some(w) => {
                n = n + 4 + str_utf8_len(w.topic.as_str()) + w.message.len();
            },
            None => {},
        }
        match &self.login {
            Some(l) => {
                n = n + 4 + str_utf8_len(l.username.as_str()) + str_utf8_len(l.password.as_str());
            },
            None => {},
        }
        n
    }

    /// Sets the login credentials.
    pub fn set_login(&mut self, u: String, p: String)
        ensures
            final(self)@ == (ConnectV { login: Some(LoginV { username: u@, password: p@ }), ..old(self)@ }),
    {
        self.login = Some(Login { username: u, password: p });
    }
}

} // verus!
