//! COFF file header: 20 bytes.
use vstd::prelude::*;

use crate::binary_io::{
    can_read, le_u16_at, le_u32_at, lemma_le_at_concat, lemma_u16_le_roundtrip,
    lemma_u32_le_roundtrip, u16_le, u32_le, ByteReader, ReadExt, WriteExt,
};
use crate::error::{LinkerError, Result};

pub mod machine;

verus! {

#[derive(Debug, Clone, Copy)]
pub struct FileHeader {
    pub machine: u16,
    pub number_of_sections: u16,
    pub time_date_stamp: u32,
    pub pointer_to_symbol_table: u32,
    pub number_of_symbols: u32,
    pub size_of_optional_header: u16,
    pub characteristics: u16,
}

impl FileHeader {
    pub const SIZE: u32 = 20;

    /// The header stored at `d[i..i + 20]`.
    pub open spec fn decode_at(d: Seq<u8>, i: int) -> FileHeader {
        FileHeader {
            machine: le_u16_at(d, i),
            number_of_sections: le_u16_at(d, i + 2),
            time_date_stamp: le_u32_at(d, i + 4),
            pointer_to_symbol_table: le_u32_at(d, i + 8),
            number_of_symbols: le_u32_at(d, i + 12),
            size_of_optional_header: le_u16_at(d, i + 16),
            characteristics: le_u16_at(d, i + 18),
        }
    }

    /// The 20 bytes of the header, fields in order, little-endian.
    #[verifier::opaque]
    pub open spec fn encoded(self) -> Seq<u8> {
        u16_le(self.machine) + u16_le(self.number_of_sections) + u32_le(self.time_date_stamp)
            + u32_le(self.pointer_to_symbol_table) + u32_le(self.number_of_symbols) + u16_le(
            self.size_of_optional_header,
        ) + u16_le(self.characteristics)
    }

    pub fn write(&self, w: &mut Vec<u8>)
        ensures
            final(w)@ == old(w)@ + self.encoded(),
    {
        proof {
            reveal(FileHeader::encoded);
        }
        w.write_u16_le(self.machine);
        w.write_u16_le(self.number_of_sections);
        w.write_u32_le(self.time_date_stamp);
        w.write_u32_le(self.pointer_to_symbol_table);
        w.write_u32_le(self.number_of_symbols);
        w.write_u16_le(self.size_of_optional_header);
        w.write_u16_le(self.characteristics);
        assert(w@ =~= old(w)@ + self.encoded());
    }

    pub fn read(r: &mut ByteReader) -> (res: Result<Self>)
        ensures
            final(r).data@ == old(r).data@,
            can_read(old(r).data@, old(r).pos as int, 20) ==> (res matches Ok(h) && h
                == Self::decode_at(old(r).data@, old(r).pos as int) && final(r).pos == old(r).pos
                + 20),
            !can_read(old(r).data@, old(r).pos as int, 20) ==> (res matches Err(
                LinkerError::Io(_),
            )),
    {
        Ok(Self {
            machine: r.read_u16_le()?,
            number_of_sections: r.read_u16_le()?,
            time_date_stamp: r.read_u32_le()?,
            pointer_to_symbol_table: r.read_u32_le()?,
            number_of_symbols: r.read_u32_le()?,
            size_of_optional_header: r.read_u16_le()?,
            characteristics: r.read_u16_le()?,
        })
    }
}

/// Reading back the bytes written for a file header gives the same header.
pub proof fn lemma_file_header_roundtrip(h: FileHeader)
    ensures
        h.encoded().len() == FileHeader::SIZE,
        FileHeader::decode_at(h.encoded(), 0) == h,
{
    reveal(FileHeader::encoded);
    lemma_u16_le_roundtrip(h.machine);
    lemma_u16_le_roundtrip(h.number_of_sections);
    lemma_u32_le_roundtrip(h.time_date_stamp);
    lemma_u32_le_roundtrip(h.pointer_to_symbol_table);
    lemma_u32_le_roundtrip(h.number_of_symbols);
    lemma_u16_le_roundtrip(h.size_of_optional_header);
    lemma_u16_le_roundtrip(h.characteristics);
    let e = h.encoded();
    let p0 = u16_le(h.machine);
    let p1 = p0 + u16_le(h.number_of_sections);
    let p2 = p1 + u32_le(h.time_date_stamp);
    let p3 = p2 + u32_le(h.pointer_to_symbol_table);
    let p4 = p3 + u32_le(h.number_of_symbols);
    let p5 = p4 + u16_le(h.size_of_optional_header);
    lemma_le_at_concat(Seq::empty(), p0, e.skip(2));
    assert(Seq::<u8>::empty() + p0 + e.skip(2) =~= e);
    lemma_le_at_concat(p0, u16_le(h.number_of_sections), e.skip(4));
    assert(p0 + u16_le(h.number_of_sections) + e.skip(4) =~= e);
    lemma_le_at_concat(p1, u32_le(h.time_date_stamp), e.skip(8));
    assert(p1 + u32_le(h.time_date_stamp) + e.skip(8) =~= e);
    lemma_le_at_concat(p2, u32_le(h.pointer_to_symbol_table), e.skip(12));
    assert(p2 + u32_le(h.pointer_to_symbol_table) + e.skip(12) =~= e);
    lemma_le_at_concat(p3, u32_le(h.number_of_symbols), e.skip(16));
    assert(p3 + u32_le(h.number_of_symbols) + e.skip(16) =~= e);
    lemma_le_at_concat(p4, u16_le(h.size_of_optional_header), e.skip(18));
    assert(p4 + u16_le(h.size_of_optional_header) + e.skip(18) =~= e);
    lemma_le_at_concat(p5, u16_le(h.characteristics), e.skip(20));
    assert(p5 + u16_le(h.characteristics) + e.skip(20) =~= e);
}

} // verus!
