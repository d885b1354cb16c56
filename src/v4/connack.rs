use vstd::prelude::*;

use crate::error::Error;
use crate::frame::{frame_body, framed, write_frame, wrote};
use crate::header::FixedHeader;
use crate::wire::read_u8;

verus! {

/// Return code in a CONNACK.
#[derive(Clone, Copy, Debug, PartialEq, Eq, Structural)]
pub enum ConnectReturnCode {
    Success,
    RefusedProtocolVersion,
    BadClientId,
    ServiceUnavailable,
    BadUserNamePassword,
    NotAuthorized,
}

/// Wire number of a return code.
pub open spec fn code_num(c: ConnectReturnCode) -> u8 {
    match c {
        ConnectReturnCode::Success => 0,
        ConnectReturnCode::RefusedProtocolVersion => 1,
        ConnectReturnCode::BadClientId => 2,
        ConnectReturnCode::ServiceUnavailable => 3,
        ConnectReturnCode::BadUserNamePassword => 4,
        ConnectReturnCode::NotAuthorized => 5,
    }
}

/// The return code that a wire number stands for, if any.
pub open spec fn code_of(n: u8) -> Option<ConnectReturnCode> {
    if n == 0 {
        Some(ConnectReturnCode::Success)
    } else if n == 1 {
        Some(ConnectReturnCode::RefusedProtocolVersion)
    } else if n == 2 {
        Some(ConnectReturnCode::BadClientId)
    } else if n == 3 {
        Some(ConnectReturnCode::ServiceUnavailable)
    } else if n == 4 {
        Some(ConnectReturnCode::BadUserNamePassword)
    } else if n == 5 {
        Some(ConnectReturnCode::NotAuthorized)
    } else {
        None
    }
}

/// Acknowledgement to a connect packet.
///
/// On the wire: first byte `0x20`, remaining length 2, an acknowledge-flags
/// byte whose bit 0 is the session-present flag (the other bits must be 0),
/// and the return code.
#[derive(Clone, Copy, Debug, PartialEq, Eq, Structural)]
pub struct ConnAck {
    pub session_present: bool,
    pub code: ConnectReturnCode,
}

/// Body of a connack frame.
pub open spec fn connack_body(c: ConnAck) -> Seq<u8> {
    seq![if c.session_present { 1u8 } else { 0u8 }, code_num(c.code)]
}

/// Decoding of a connack body.
pub open spec fn parse_connack(body: Seq<u8>) -> Result<ConnAck, Error> {
    if body.len() != 2 || body[0] > 1 {
        Err(Error::MalformedPacket)
    } else {
        match code_of(body[1]) {
            None => Err(Error::InvalidConnectReturnCode(body[1])),
            Some(code) => Ok(ConnAck { session_present: body[0] == 1, code }),
        }
    }
}

pub proof fn lemma_connack_round_trip(c: ConnAck)
    ensures
        parse_connack(connack_body(c)) == Ok::<ConnAck, Error>(c),
{
}

impl ConnAck {
    pub fn new(code: ConnectReturnCode, session_present: bool) -> (r: ConnAck)
        ensures
            r == (ConnAck { session_present, code }),
    {
        ConnAck { session_present, code }
    }

    /// Decoding of the frame `bytes` that `h` describes.
    pub open spec fn spec_read(h: FixedHeader, bytes: Seq<u8>) -> Result<ConnAck, Error> {
        if h.byte1 != 0x20 {
            Err(Error::MalformedPacket)
        } else {
            match frame_body(h, bytes) {
                None => Err(Error::MalformedPacket),
                Some(body) => parse_connack(body),
            }
        }
    }

    /// Encoding of this packet as a frame.
    pub open spec fn spec_write(&self) -> Result<Seq<u8>, Error> {
        framed(0x20, connack_body(*self))
    }

    /// Decodes the frame `bytes` (fixed header included) that `fixed_header` describes.
    pub fn read(fixed_header: FixedHeader, bytes: &[u8]) -> (r: Result<ConnAck, Error>)
        requires
            fixed_header.wf(),
        ensures
            r == Self::spec_read(fixed_header, bytes@),
    {
        if fixed_header.byte1 != 0x20 || bytes.len() != fixed_header.frame_length() {
            return Err(Error::MalformedPacket);
        }
        let pos = 1 + fixed_header.remaining_len_len;
        if bytes.len() - pos != 2 {
            return Err(Error::MalformedPacket);
        }
        let flags = bytes[pos];
        let num = bytes[pos + 1];
        if flags > 1 {
            return Err(Error::MalformedPacket);
        }
        let code = match num {
            0 => ConnectReturnCode::Success,
            1 => ConnectReturnCode::RefusedProtocolVersion,
            2 => ConnectReturnCode::BadClientId,
            3 => ConnectReturnCode::ServiceUnavailable,
            4 => ConnectReturnCode::BadUserNamePassword,
            5 => ConnectReturnCode::NotAuthorized,
            n => return Err(Error::InvalidConnectReturnCode(n)),
        };
        Ok(ConnAck { session_present: flags == 1, code })
    }

    /// Appends the frame of this packet to `buffer` and returns its length.
    pub fn write(&self, buffer: &mut Vec<u8>) -> (r: Result<usize, Error>)
        ensures
            wrote(r, old(buffer)@, final(buffer)@, self.spec_write()),
    {
        let code: u8 = match self.code {
            ConnectReturnCode::Success => 0,
            ConnectReturnCode::RefusedProtocolVersion => 1,
            ConnectReturnCode::BadClientId => 2,
            ConnectReturnCode::ServiceUnavailable => 3,
            ConnectReturnCode::BadUserNamePassword => 4,
            ConnectReturnCode::NotAuthorized => 5,
        };
        let mut body: Vec<u8> = Vec::new();
        body.push(if self.session_present { 1u8 } else { 0u8 });
        body.push(code);
        assert(body@ =~= connack_body(*self));
        write_frame(buffer, 0x20, body)
    }
}

} // verus!
