use vstd::prelude::*;

use crate::error::Error;
use crate::frame::{frame, framed, write_frame, wrote};
use crate::varint::varint;

verus! {

/// Disconnect notification, sent by a client before it closes the connection.
///
/// Its frame is the first byte `0xE0` and a remaining length of 0.
#[derive(Clone, Copy, Debug, PartialEq, Eq, Structural)]
pub struct Disconnect;

impl Disconnect {
    pub fn new() -> (r: Disconnect) {
        Disconnect
    }

    /// Encoding of this packet as a frame.
    pub open spec fn spec_write(&self) -> Result<Seq<u8>, Error> {
        framed(0xE0, Seq::<u8>::empty())
    }

    /// Appends the frame of this packet to `buffer` and returns its length.
    pub fn write(&self, buffer: &mut Vec<u8>) -> (r: Result<usize, Error>)
        ensures
            wrote(r, old(buffer)@, final(buffer)@, self.spec_write()),
            r == Ok::<usize, Error>(2),
            final(buffer)@ == old(buffer)@ + seq![0xE0u8, 0u8],
    {
        let body: Vec<u8> = Vec::new();
        proof {
            assert(varint(0) == seq![0u8]);
            assert(frame(0xE0, Seq::<u8>::empty()) =~= seq![0xE0u8, 0u8]);
        }
        write_frame(buffer, 0xE0, body)
    }
}

} // verus!
