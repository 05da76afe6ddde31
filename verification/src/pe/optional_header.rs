//! PE optional header (32-bit): 224 bytes (0xe0), data directories included.
use vstd::prelude::*;

use crate::binary_io::{u16_le, u32_le, WriteExt};

pub mod dd;
pub mod subsystem;

verus! {

#[derive(Debug, Clone, Copy)]
pub struct DataDirectory {
    pub virtual_address: u32,
    pub size: u32,
}

impl Default for DataDirectory {
    fn default() -> (d: Self)
        ensures
            d.virtual_address == 0,
            d.size == 0,
    {
        DataDirectory { virtual_address: 0, size: 0 }
    }
}

impl DataDirectory {
    pub const SIZE: u32 = 8;

    pub open spec fn encoded(self) -> Seq<u8> {
        u32_le(self.virtual_address) + u32_le(self.size)
    }

    pub fn write(&self, w: &mut Vec<u8>)
        ensures
            final(w)@ == old(w)@ + self.encoded(),
    {
        w.write_u32_le(self.virtual_address);
        w.write_u32_le(self.size);
        assert(w@ =~= old(w)@ + self.encoded());
    }
}

/// The data directories, one after the other.
pub open spec fn directories_encoded(ds: Seq<DataDirectory>) -> Seq<u8>
    decreases ds.len(),
{
    if ds.len() == 0 {
        Seq::empty()
    } else {
        directories_encoded(ds.drop_last()) + ds.last().encoded()
    }
}

pub struct OptionalHeader32 {
    // Standard fields
    /// 0x10b: PE32
    pub magic_number: u16,
    pub major_linker_version: u8,
    pub minor_linker_version: u8,
    pub size_of_code: u32,
    pub size_of_initialized_data: u32,
    pub size_of_uninitialized_data: u32,
    pub address_of_entry_point: u32,
    pub base_of_code: u32,
    pub base_of_data: u32,
    // Windows-specific fields
    pub image_base: u32,
    pub section_alignment: u32,
    pub file_alignment: u32,
    pub major_operating_system_version: u16,
    pub minor_operating_system_version: u16,
    pub major_image_version: u16,
    pub minor_image_version: u16,
    pub major_subsystem_version: u16,
    pub minor_subsystem_version: u16,
    /// Reserved, 0.
    pub win32_version_value: u32,
    pub size_of_image: u32,
    pub size_of_headers: u32,
    pub check_sum: u32,
    pub subsystem: u16,
    pub dll_characteristics: u16,
    pub size_of_stack_reserve: u32,
    pub size_of_stack_commit: u32,
    pub size_of_heap_reserve: u32,
    pub size_of_heap_commit: u32,
    /// Reserved, 0.
    pub loader_flags: u32,
    /// Always 16.
    pub number_of_rva_and_sizes: u32,
    pub data_directories: [DataDirectory; 16],
}

impl OptionalHeader32 {
    pub const SIZE: u32 = 96 + 16 * DataDirectory::SIZE;

    /// The standard fields: 28 bytes.
    pub open spec fn standard_encoded(self) -> Seq<u8> {
        u16_le(self.magic_number) + seq![self.major_linker_version] + seq![
            self.minor_linker_version,
        ] + u32_le(self.size_of_code) + u32_le(self.size_of_initialized_data) + u32_le(
            self.size_of_uninitialized_data,
        ) + u32_le(self.address_of_entry_point) + u32_le(self.base_of_code) + u32_le(
            self.base_of_data,
        )
    }

    /// The Windows-specific fields up to the version fields: 24 bytes.
    pub open spec fn layout_encoded(self) -> Seq<u8> {
        u32_le(self.image_base) + u32_le(self.section_alignment) + u32_le(self.file_alignment)
            + u16_le(self.major_operating_system_version) + u16_le(
            self.minor_operating_system_version,
        ) + u16_le(self.major_image_version) + u16_le(self.minor_image_version) + u16_le(
            self.major_subsystem_version,
        ) + u16_le(self.minor_subsystem_version)
    }

    /// The remaining Windows-specific fields: 44 bytes.
    pub open spec fn sizes_encoded(self) -> Seq<u8> {
        u32_le(self.win32_version_value) + u32_le(self.size_of_image) + u32_le(
            self.size_of_headers,
        ) + u32_le(self.check_sum) + u16_le(self.subsystem) + u16_le(self.dll_characteristics)
            + u32_le(self.size_of_stack_reserve) + u32_le(self.size_of_stack_commit) + u32_le(
            self.size_of_heap_reserve,
        ) + u32_le(self.size_of_heap_commit) + u32_le(self.loader_flags) + u32_le(
            self.number_of_rva_and_sizes,
        )
    }

    /// The fixed 96 bytes before the data directories.
    pub open spec fn fields_encoded(self) -> Seq<u8> {
        self.standard_encoded() + self.layout_encoded() + self.sizes_encoded()
    }

    #[verifier::opaque]
    pub open spec fn encoded(self) -> Seq<u8> {
        self.fields_encoded() + directories_encoded(self.data_directories@)
    }

    fn write_standard(&self, w: &mut Vec<u8>)
        ensures
            final(w)@ == old(w)@ + self.standard_encoded(),
    {
        w.write_u16_le(self.magic_number);
        w.write_u8(self.major_linker_version);
        w.write_u8(self.minor_linker_version);
        w.write_u32_le(self.size_of_code);
        w.write_u32_le(self.size_of_initialized_data);
        w.write_u32_le(self.size_of_uninitialized_data);
        w.write_u32_le(self.address_of_entry_point);
        w.write_u32_le(self.base_of_code);
        w.write_u32_le(self.base_of_data);
        assert(w@ =~= old(w)@ + self.standard_encoded());
    }

    fn write_layout(&self, w: &mut Vec<u8>)
        ensures
            final(w)@ == old(w)@ + self.layout_encoded(),
    {
        w.write_u32_le(self.image_base);
        w.write_u32_le(self.section_alignment);
        w.write_u32_le(self.file_alignment);
        w.write_u16_le(self.major_operating_system_version);
        w.write_u16_le(self.minor_operating_system_version);
        w.write_u16_le(self.major_image_version);
        w.write_u16_le(self.minor_image_version);
        w.write_u16_le(self.major_subsystem_version);
        w.write_u16_le(self.minor_subsystem_version);
        assert(w@ =~= old(w)@ + self.layout_encoded());
    }

    fn write_sizes(&self, w: &mut Vec<u8>)
        ensures
            final(w)@ == old(w)@ + self.sizes_encoded(),
    {
        w.write_u32_le(self.win32_version_value);
        w.write_u32_le(self.size_of_image);
        w.write_u32_le(self.size_of_headers);
        w.write_u32_le(self.check_sum);
        w.write_u16_le(self.subsystem);
        w.write_u16_le(self.dll_characteristics);
        w.write_u32_le(self.size_of_stack_reserve);
        w.write_u32_le(self.size_of_stack_commit);
        w.write_u32_le(self.size_of_heap_reserve);
        w.write_u32_le(self.size_of_heap_commit);
        w.write_u32_le(self.loader_flags);
        w.write_u32_le(self.number_of_rva_and_sizes);
        assert(w@ =~= old(w)@ + self.sizes_encoded());
    }

    pub fn write(&self, w: &mut Vec<u8>)
        ensures
            final(w)@ == old(w)@ + self.encoded(),
    {
        proof {
            reveal(OptionalHeader32::encoded);
        }
        self.write_standard(w);
        self.write_layout(w);
        self.write_sizes(w);
        assert(w@ =~= old(w)@ + self.fields_encoded());
        let ghost start = w@;
        let mut i: usize = 0;
        while i < 16
            invariant
                i <= 16,
                w@ == start + directories_encoded(self.data_directories@.take(i as int)),
            decreases 16 - i,
        {
            self.data_directories[i].write(w);
            assert(self.data_directories@.take(i + 1).drop_last() =~= self.data_directories@.take(
                i as int,
            ));
            i = i + 1;
            assert(w@ =~= start + directories_encoded(self.data_directories@.take(i as int)));
        }
        assert(self.data_directories@.take(16) =~= self.data_directories@);
        assert(w@ =~= old(w)@ + self.encoded());
    }
}

} // verus!
