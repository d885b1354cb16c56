use vstd::prelude::*;

use crate::error::Error;
use crate::frame::{read_pkid, spec_read_pkid, spec_write_pkid, write_pkid, wrote};
use crate::header::FixedHeader;

verus! {

/// First acknowledgement to a QoS 2 publish (publish received).
///
/// On the wire: first byte `0x50`, remaining length 2, then the packet
/// identifier; and a packet identifier of 0 is refused with `PacketIdZero`.
#[derive(Clone, Copy, Debug, PartialEq, Eq, Structural)]
pub struct PubRec {
    pub pkid: u16,
}

impl PubRec {
    pub fn new(pkid: u16) -> (r: PubRec)
        ensures
            r.pkid == pkid,
    {
        PubRec { pkid }
    }

    /// Decoding of the frame `bytes` that `h` describes.
    pub open spec fn spec_read(h: FixedHeader, bytes: Seq<u8>) -> Result<PubRec, Error> {
        match spec_read_pkid(h, bytes, 0x50, true) {
            Ok(pkid) => Ok(PubRec { pkid }),
            Err(e) => Err(e),
        }
    }

    /// Encoding of this packet as a frame.
    pub open spec fn spec_write(&self) -> Result<Seq<u8>, Error> {
        spec_write_pkid(0x50, self.pkid, true)
    }

    /// Decodes the frame `bytes` (fixed header included) that `fixed_header` describes.
    pub fn read(fixed_header: FixedHeader, bytes: &[u8]) -> (r: Result<PubRec, Error>)
        requires
            fixed_header.wf(),
        ensures
            r == Self::spec_read(fixed_header, bytes@),
    {
        match read_pkid(fixed_header, bytes, 0x50, true) {
            Ok(pkid) => Ok(PubRec { pkid }),
            Err(e) => Err(e),
        }
    }

    /// Appends the frame of this packet to `buffer` and returns its length.
    pub fn write(&self, buffer: &mut Vec<u8>) -> (r: Result<usize, Error>)
        ensures
            wrote(r, old(buffer)@, final(buffer)@, self.spec_write()),
    {
        write_pkid(buffer, 0x50, self.pkid, true)
    }
}

} // verus!
