use vstd::prelude::*;

use crate::error::Error;
use crate::frame::{frame, framed, write_frame, wrote};
use crate::varint::varint;

verus! {

/// Ping request, sent by a client to keep the connection alive.
///
/// Its frame is the first byte `0xC0` and a remaining length of 0.
#[derive(Clone, Copy, Debug, PartialEq, Eq, Structural)]
pub struct PingReq;

impl PingReq {
    pub fn new() -> (r: PingReq) {
        PingReq
    }

    /// Encoding of this packet as a frame.
    pub open spec fn spec_write(&self) -> Result<Seq<u8>, Error> {
        framed(0xC0, Seq::<u8>::empty())
    }

    /// Appends the frame of this packet to `buffer` and returns its length.
    pub fn write(&self, buffer: &mut Vec<u8>) -> (r: Result<usize, Error>)
        ensures
            wrote(r, old(buffer)@, final(buffer)@, self.spec_write()),
            r == Ok::<usize, Error>(2),
            final(buffer)@ == old(buffer)@ + seq![0xC0u8, 0u8],
    {
        let body: Vec<u8> = Vec::new();
        proof {
            assert(varint(0) == seq![0u8]);
            assert(frame(0xC0, Seq::<u8>::empty()) =~= seq![0xC0u8, 0u8]);
        }
        write_frame(buffer, 0xC0, body)
    }
}

/// Ping response, a broker's answer to a ping request.
///
/// Its frame is the first byte `0xD0` and a remaining length of 0.
#[derive(Clone, Copy, Debug, PartialEq, Eq, Structural)]
pub struct PingResp;

impl PingResp {
    pub fn new() -> (r: PingResp) {
        PingResp
    }

    /// Encoding of this packet as a frame.
    pub open spec fn spec_write(&self) -> Result<Seq<u8>, Error> {
        framed(0xD0, Seq::<u8>::empty())
    }

    /// Appends the frame of this packet to `buffer` and returns its length.
    pub fn write(&self, buffer: &mut Vec<u8>) -> (r: Result<usize, Error>)
        ensures
            wrote(r, old(buffer)@, final(buffer)@, self.spec_write()),
            r == Ok::<usize, Error>(2),
            final(buffer)@ == old(buffer)@ + seq![0xD0u8, 0u8],
    {
        let body: Vec<u8> = Vec::new();
        proof {
            assert(varint(0) == seq![0u8]);
            assert(frame(0xD0, Seq::<u8>::empty()) =~= seq![0xD0u8, 0u8]);
        }
        write_frame(buffer, 0xD0, body)
    }
}

} // verus!
