//! PE header: the signature "PE\0\0", the file header and the optional header.
use vstd::prelude::*;

use crate::binary_io::{u32_le, WriteExt};
use crate::coff::file_header::FileHeader;

use super::optional_header::OptionalHeader32;

verus! {

pub struct PeHeader {
    /// "PE\0\0" = 0x00004550
    pub signature: u32,
    pub file_header: FileHeader,
    pub optional_header: OptionalHeader32,
}

impl PeHeader {
    /// signature (4) + file header (20) + optional header (0xe0) = 0xf8
    pub const SIZE: u32 = 4 + FileHeader::SIZE + OptionalHeader32::SIZE;

    #[verifier::opaque]
    pub open spec fn encoded(self) -> Seq<u8> {
        u32_le(self.signature) + self.file_header.encoded() + self.optional_header.encoded()
    }

    pub fn write(&self, w: &mut Vec<u8>)
        ensures
            final(w)@ == old(w)@ + self.encoded(),
    {
        proof {
            reveal(PeHeader::encoded);
        }
        w.write_u32_le(self.signature);
        self.file_header.write(w);
        self.optional_header.write(w);
        assert(w@ =~= old(w)@ + self.encoded());
    }
}

} // verus!
