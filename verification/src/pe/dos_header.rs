//! DOS header: 64 bytes, with the PE header right after it (e_lfanew = 0x40).
use vstd::prelude::*;

use crate::binary_io::{u16_le, u32_le, WriteExt};

verus! {

pub struct DosHeader {
    /// e_magic: 0x5a4d ("MZ")
    pub magic_number: u16,
    pub last_page_size: u16,
    pub number_of_pages: u16,
    pub number_of_relocation_entries: u16,
    pub header_size: u16,
    pub min_extra_memory: u16,
    pub max_extra_memory: u16,
    pub stack_segment: u16,
    pub stack_pointer: u16,
    pub checksum: u16,
    pub instruction_pointer: u16,
    pub code_segment: u16,
    pub relocation_table_offset: u16,
    pub overlay_number: u16,
    pub reserved1: [u8; 8],
    pub oem_id: u16,
    pub oem_info: u16,
    pub reserved2: [u8; 20],
    /// e_lfanew: file offset of the PE header.
    pub pe_header_offset: u32,
}

/// Whether `h` is the DOS header of every image: the usual stub values, and the PE
/// header right after the 64 bytes of the DOS header.
pub open spec fn is_default_dos_header(h: DosHeader) -> bool {
    &&& h.magic_number == 0x5a4d
    &&& h.last_page_size == 0x90
    &&& h.number_of_pages == 0x03
    &&& h.number_of_relocation_entries == 0
    &&& h.header_size == 0x4
    &&& h.min_extra_memory == 0
    &&& h.max_extra_memory == 0xffff
    &&& h.stack_segment == 0
    &&& h.stack_pointer == 0xb8
    &&& h.checksum == 0
    &&& h.instruction_pointer == 0
    &&& h.code_segment == 0
    &&& h.relocation_table_offset == 0x40
    &&& h.overlay_number == 0
    &&& h.reserved1@ == Seq::new(8, |i: int| 0u8)
    &&& h.oem_id == 0
    &&& h.oem_info == 0
    &&& h.reserved2@ == Seq::new(20, |i: int| 0u8)
    &&& h.pe_header_offset == 0x40
}

impl Default for DosHeader {
    fn default() -> (h: Self)
        ensures
            is_default_dos_header(h),
    {
        let h = Self {
            magic_number: 0x5a4d,
            last_page_size: 0x90,
            number_of_pages: 0x03,
            number_of_relocation_entries: 0,
            header_size: 0x4,
            min_extra_memory: 0,
            max_extra_memory: 0xffff,
            stack_segment: 0,
            stack_pointer: 0xb8,
            checksum: 0,
            instruction_pointer: 0,
            code_segment: 0,
            relocation_table_offset: 0x40,
            overlay_number: 0,
            reserved1: [0u8; 8],
            oem_id: 0,
            oem_info: 0,
            reserved2: [0u8; 20],
            pe_header_offset: 0x40,
        };
        assert(h.reserved1@ =~= Seq::new(8, |i: int| 0u8));
        assert(h.reserved2@ =~= Seq::new(20, |i: int| 0u8));
        h
    }
}

impl DosHeader {
    /// Size in bytes (equal to the fixed e_lfanew).
    pub const SIZE: u32 = 0x40;

    /// The 64 bytes of the header, fields in order, little-endian.
    #[verifier::opaque]
    pub open spec fn encoded(self) -> Seq<u8> {
        u16_le(self.magic_number) + u16_le(self.last_page_size) + u16_le(self.number_of_pages)
            + u16_le(self.number_of_relocation_entries) + u16_le(self.header_size) + u16_le(
            self.min_extra_memory,
        ) + u16_le(self.max_extra_memory) + u16_le(self.stack_segment) + u16_le(
            self.stack_pointer,
        ) + u16_le(self.checksum) + u16_le(self.instruction_pointer) + u16_le(self.code_segment)
            + u16_le(self.relocation_table_offset) + u16_le(self.overlay_number) + self.reserved1@
            + u16_le(self.oem_id) + u16_le(self.oem_info) + self.reserved2@ + u32_le(
            self.pe_header_offset,
        )
    }

    pub fn write(&self, w: &mut Vec<u8>)
        ensures
            final(w)@ == old(w)@ + self.encoded(),
    {
        proof {
            reveal(DosHeader::encoded);
        }
        w.write_u16_le(self.magic_number);
        w.write_u16_le(self.last_page_size);
        w.write_u16_le(self.number_of_pages);
        w.write_u16_le(self.number_of_relocation_entries);
        w.write_u16_le(self.header_size);
        w.write_u16_le(self.min_extra_memory);
        w.write_u16_le(self.max_extra_memory);
        w.write_u16_le(self.stack_segment);
        w.write_u16_le(self.stack_pointer);
        w.write_u16_le(self.checksum);
        w.write_u16_le(self.instruction_pointer);
        w.write_u16_le(self.code_segment);
        w.write_u16_le(self.relocation_table_offset);
        w.write_u16_le(self.overlay_number);
        w.write_bytes(self.reserved1.as_slice());
        w.write_u16_le(self.oem_id);
        w.write_u16_le(self.oem_info);
        w.write_bytes(self.reserved2.as_slice());
        w.write_u32_le(self.pe_header_offset);
        assert(w@ =~= old(w)@ + self.encoded());
    }
}

} // verus!
