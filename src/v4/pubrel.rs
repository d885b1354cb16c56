use vstd::prelude::*;

use crate::error::Error;
use crate::frame::{read_pkid, spec_read_pkid, spec_write_pkid, write_pkid, wrote};
use crate::header::FixedHeader;

verus! {

/// Second step of a QoS 2 publish (publish release).
///
/// On the wire: first byte `0x62`, remaining length 2, then the packet
/// identifier; and a packet identifier of 0 is refused with `PacketIdZero`.
#[derive(Clone, Copy, Debug, PartialEq, Eq, Structural)]
pub struct PubRel {
    pub pkid: u16,
}

impl PubRel {
    pub fn new(pkid: u16) -> (r: PubRel)
        ensures
            r.pkid == pkid,
    {
        PubRel { pkid }
    }

    /// Decoding of the frame `bytes` that `h` describes.
    pub open spec fn spec_read(h: FixedHeader, bytes: Seq<u8>) -> Result<PubRel, Error> {
        match spec_read_pkid(h, bytes, 0x62, true) {
            Ok(pkid) => Ok(PubRel { pkid }),
            Err(e) => Err(e),
        }
    }

    /// Encoding of this packet as a frame.
    pub open spec fn spec_write(&self) -> Result<Seq<u8>, Error> {
        spec_write_pkid(0x62, self.pkid, true)
    }

    /// Decodes the frame `bytes` (fixed header included) that `fixed_header` describes.
    pub fn read(fixed_header: FixedHeader, bytes: &[u8]) -> (r: Result<PubRel, Error>)
        requires
            fixed_header.wf(),
        ensures
            r == Self::spec_read(fixed_header, bytes@),
    {
        match read_pkid(fixed_header, bytes, 0x62, true) {
            Ok(pkid) => Ok(PubRel { pkid }),
            Err(e) => Err(e),
        }
    }

    /// Appends the frame of this packet to `buffer` and returns its length.
    pub fn write(&self, buffer: &mut Vec<u8>) -> (r: Result<usize, Error>)
        ensures
            wrote(r, old(buffer)@, final(buffer)@, self.spec_write()),
    {
        write_pkid(buffer, 0x62, self.pkid, true)
    }
}

} // verus!
