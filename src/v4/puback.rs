use vstd::prelude::*;

use crate::error::Error;
use crate::frame::{read_pkid, spec_read_pkid, spec_write_pkid, write_pkid, wrote};
use crate::header::FixedHeader;

verus! {

/// Acknowledgement to a QoS 1 publish.
///
/// On the wire: first byte `0x40`, remaining length 2, then the packet
/// identifier; and a packet identifier of 0 is refused with `PacketIdZero`.
#[derive(Clone, Copy, Debug, PartialEq, Eq, Structural)]
pub struct PubAck {
    pub pkid: u16,
}

impl PubAck {
    pub fn new(pkid: u16) -> (r: PubAck)
        ensures
            r.pkid == pkid,
    {
        PubAck { pkid }
    }

    /// Decoding of the frame `bytes` that `h` describes.
    pub open spec fn spec_read(h: FixedHeader, bytes: Seq<u8>) -> Result<PubAck, Error> {
        match spec_read_pkid(h, bytes, 0x40, true) {
            Ok(pkid) => Ok(PubAck { pkid }),
            Err(e) => Err(e),
        }
    }

    /// Encoding of this packet as a frame.
    pub open spec fn spec_write(&self) -> Result<Seq<u8>, Error> {
        spec_write_pkid(0x40, self.pkid, true)
    }

    /// Decodes the frame `bytes` (fixed header included) that `fixed_header` describes.
    pub fn read(fixed_header: FixedHeader, bytes: &[u8]) -> (r: Result<PubAck, Error>)
        requires
            fixed_header.wf(),
        ensures
            r == Self::spec_read(fixed_header, bytes@),
    {
        match read_pkid(fixed_header, bytes, 0x40, true) {
            Ok(pkid) => Ok(PubAck { pkid }),
            Err(e) => Err(e),
        }
    }

    /// Appends the frame of this packet to `buffer` and returns its length.
    pub fn write(&self, buffer: &mut Vec<u8>) -> (r: Result<usize, Error>)
        ensures
            wrote(r, old(buffer)@, final(buffer)@, self.spec_write()),
    {
        write_pkid(buffer, 0x40, self.pkid, true)
    }
}

} // verus!
