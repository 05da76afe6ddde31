//! COFF section header: 40 bytes.
use vstd::prelude::*;

use crate::binary_io::{
    can_read, le_u16_at, le_u32_at, lemma_le_at_concat, lemma_u16_le_roundtrip,
    lemma_u32_le_roundtrip, u16_le, u32_le, ByteReader, ReadExt, WriteExt,
};
use crate::error::{LinkerError, Result};
use crate::text::{bytes_prefix, nul_position, nul_prefix, str_from_utf8, utf8_or_empty};

pub mod ch;

verus! {

#[derive(Debug, Clone, Copy)]
pub struct SectionHeader {
    pub name: [u8; 8],
    pub virtual_size: u32,
    pub virtual_address: u32,
    pub size_of_raw_data: u32,
    pub pointer_to_raw_data: u32,
    pub pointer_to_relocations: u32,
    pub pointer_to_line_numbers: u32,
    pub number_of_relocations: u16,
    pub number_of_line_numbers: u16,
    pub characteristics: u32,
}

impl SectionHeader {
    pub const SIZE: u32 = 40;

    /// Whether `self` is the header stored at `d[i..i + 40]`.
    pub open spec fn is_decoded_at(self, d: Seq<u8>, i: int) -> bool {
        &&& self.name@ == d.subrange(i, i + 8)
        &&& self.virtual_size == le_u32_at(d, i + 8)
        &&& self.virtual_address == le_u32_at(d, i + 12)
        &&& self.size_of_raw_data == le_u32_at(d, i + 16)
        &&& self.pointer_to_raw_data == le_u32_at(d, i + 20)
        &&& self.pointer_to_relocations == le_u32_at(d, i + 24)
        &&& self.pointer_to_line_numbers == le_u32_at(d, i + 28)
        &&& self.number_of_relocations == le_u16_at(d, i + 32)
        &&& self.number_of_line_numbers == le_u16_at(d, i + 34)
        &&& self.characteristics == le_u32_at(d, i + 36)
    }

    /// The 40 bytes of the header: the name, then the fields in order, little-endian.
    #[verifier::opaque]
    pub open spec fn encoded(self) -> Seq<u8> {
        self.name@ + u32_le(self.virtual_size) + u32_le(self.virtual_address) + u32_le(
            self.size_of_raw_data,
        ) + u32_le(self.pointer_to_raw_data) + u32_le(self.pointer_to_relocations) + u32_le(
            self.pointer_to_line_numbers,
        ) + u16_le(self.number_of_relocations) + u16_le(self.number_of_line_numbers) + u32_le(
            self.characteristics,
        )
    }

    /// The name as text: the bytes before the first NUL, decoded as UTF-8 (empty if invalid).
    pub open spec fn name_text(self) -> Seq<char> {
        utf8_or_empty(nul_prefix(self.name@))
    }

    pub fn write(&self, w: &mut Vec<u8>)
        ensures
            final(w)@ == old(w)@ + self.encoded(),
    {
        proof {
            reveal(SectionHeader::encoded);
        }
        w.write_bytes(self.name.as_slice());
        w.write_u32_le(self.virtual_size);
        w.write_u32_le(self.virtual_address);
        w.write_u32_le(self.size_of_raw_data);
        w.write_u32_le(self.pointer_to_raw_data);
        w.write_u32_le(self.pointer_to_relocations);
        w.write_u32_le(self.pointer_to_line_numbers);
        w.write_u16_le(self.number_of_relocations);
        w.write_u16_le(self.number_of_line_numbers);
        w.write_u32_le(self.characteristics);
        assert(w@ =~= old(w)@ + self.encoded());
    }

    pub fn read(r: &mut ByteReader) -> (res: Result<Self>)
        ensures
            final(r).data@ == old(r).data@,
            can_read(old(r).data@, old(r).pos as int, 40) ==> (res matches Ok(h)
                && h.is_decoded_at(old(r).data@, old(r).pos as int) && final(r).pos == old(
                r,
            ).pos + 40),
            !can_read(old(r).data@, old(r).pos as int, 40) ==> (res matches Err(
                LinkerError::Io(_),
            )),
    {
        Ok(Self {
            name: r.read_array::<8>()?,
            virtual_size: r.read_u32_le()?,
            virtual_address: r.read_u32_le()?,
            size_of_raw_data: r.read_u32_le()?,
            pointer_to_raw_data: r.read_u32_le()?,
            pointer_to_relocations: r.read_u32_le()?,
            pointer_to_line_numbers: r.read_u32_le()?,
            number_of_relocations: r.read_u16_le()?,
            number_of_line_numbers: r.read_u16_le()?,
            characteristics: r.read_u32_le()?,
        })
    }

    /// The section name as text, without the trailing NULs ("" when not UTF-8).
    pub fn name_str(&self) -> (r: &str)
        ensures
            r@ == self.name_text(),
    {
        let bytes = self.name.as_slice();
        let end = nul_position(bytes);
        proof {
            crate::text::lemma_first_zero_bounds(self.name@, 0);
        }
        match str_from_utf8(bytes_prefix(bytes, end)) {
            Some(s) => s,
            None => {
                proof {
                    reveal_strlit("");
                }
                ""
            },
        }
    }
}

/// Reading back the bytes written for a section header gives the same header.
pub proof fn lemma_section_header_roundtrip(h: SectionHeader)
    ensures
        h.encoded().len() == SectionHeader::SIZE,
        h.is_decoded_at(h.encoded(), 0),
{
    reveal(SectionHeader::encoded);
    lemma_u32_le_roundtrip(h.virtual_size);
    lemma_u32_le_roundtrip(h.virtual_address);
    lemma_u32_le_roundtrip(h.size_of_raw_data);
    lemma_u32_le_roundtrip(h.pointer_to_raw_data);
    lemma_u32_le_roundtrip(h.pointer_to_relocations);
    lemma_u32_le_roundtrip(h.pointer_to_line_numbers);
    lemma_u16_le_roundtrip(h.number_of_relocations);
    lemma_u16_le_roundtrip(h.number_of_line_numbers);
    lemma_u32_le_roundtrip(h.characteristics);
    let e = h.encoded();
    let p0 = h.name@;
    let p1 = p0 + u32_le(h.virtual_size);
    let p2 = p1 + u32_le(h.virtual_address);
    let p3 = p2 + u32_le(h.size_of_raw_data);
    let p4 = p3 + u32_le(h.pointer_to_raw_data);
    let p5 = p4 + u32_le(h.pointer_to_relocations);
    let p6 = p5 + u32_le(h.pointer_to_line_numbers);
    let p7 = p6 + u16_le(h.number_of_relocations);
    let p8 = p7 + u16_le(h.number_of_line_numbers);
    assert(e.subrange(0, 8) =~= h.name@);
    lemma_le_at_concat(p0, u32_le(h.virtual_size), e.skip(12));
    assert(p0 + u32_le(h.virtual_size) + e.skip(12) =~= e);
    lemma_le_at_concat(p1, u32_le(h.virtual_address), e.skip(16));
    assert(p1 + u32_le(h.virtual_address) + e.skip(16) =~= e);
    lemma_le_at_concat(p2, u32_le(h.size_of_raw_data), e.skip(20));
    assert(p2 + u32_le(h.size_of_raw_data) + e.skip(20) =~= e);
    lemma_le_at_concat(p3, u32_le(h.pointer_to_raw_data), e.skip(24));
    assert(p3 + u32_le(h.pointer_to_raw_data) + e.skip(24) =~= e);
    lemma_le_at_concat(p4, u32_le(h.pointer_to_relocations), e.skip(28));
    assert(p4 + u32_le(h.pointer_to_relocations) + e.skip(28) =~= e);
    lemma_le_at_concat(p5, u32_le(h.pointer_to_line_numbers), e.skip(32));
    assert(p5 + u32_le(h.pointer_to_line_numbers) + e.skip(32) =~= e);
    lemma_le_at_concat(p6, u16_le(h.number_of_relocations), e.skip(34));
    assert(p6 + u16_le(h.number_of_relocations) + e.skip(34) =~= e);
    lemma_le_at_concat(p7, u16_le(h.number_of_line_numbers), e.skip(36));
    assert(p7 + u16_le(h.number_of_line_numbers) + e.skip(36) =~= e);
    lemma_le_at_concat(p8, u32_le(h.characteristics), e.skip(40));
    assert(p8 + u32_le(h.characteristics) + e.skip(40) =~= e);
}

} // verus!
