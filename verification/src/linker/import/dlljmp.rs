//! The `.dlljmp` section: one indirect jump `FF 25 <address of the IAT slot>` of
//! 6 bytes per function called without `__declspec(dllimport)`. It goes first in
//! memory and in the file, so every other section moves.
use vstd::prelude::*;

use crate::coff::section_header::{ch, SectionHeader};
use crate::linker::options::LinkerOptions;
use crate::linker::section::{shifted, PeSectionPosition, SectionLayout};
use crate::linker::symbol::SymbolTable;
use crate::pe::pe_file::{zero_bytes, PeSection};

use super::place::{name8, str_to_name};

verus! {

/// The file size of the `.dlljmp` section for `n` stubs: one file-alignment unit
/// more than the whole units its bytes fill.
pub open spec fn jmp_raw_size(n: int, fa: u32) -> int {
    ((6 * n) / (fa as int) + 1) * fa
}

/// The memory size of the `.dlljmp` section for `n` stubs, likewise.
pub open spec fn jmp_mem_size(n: int, sa: u32) -> int {
    ((6 * n) / (sa as int) + 1) * sa
}

/// Whether `h` is a header made from scratch with these fields (no relocations
/// or line numbers).
pub open spec fn fresh_header(h: SectionHeader, name: Seq<char>, vs: int, va: int, raw: int, ptr: int, characteristics: u32) -> bool {
    &&& h.name@ == name8(name)
    &&& h.virtual_size == vs
    &&& h.virtual_address == va
    &&& h.size_of_raw_data == raw
    &&& h.pointer_to_raw_data == ptr
    &&& h.pointer_to_relocations == 0
    &&& h.pointer_to_line_numbers == 0
    &&& h.number_of_relocations == 0
    &&& h.number_of_line_numbers == 0
    &&& h.characteristics == characteristics
}

/// Whether `h2` is `h` moved `raw` bytes later in the file and `mem` bytes later in memory.
pub open spec fn moved_header(h2: SectionHeader, h: SectionHeader, raw: int, mem: int) -> bool {
    &&& h2.name == h.name
    &&& h2.virtual_size == h.virtual_size
    &&& h2.virtual_address == h.virtual_address + mem
    &&& h2.size_of_raw_data == h.size_of_raw_data
    &&& h2.pointer_to_raw_data == h.pointer_to_raw_data + raw
    &&& h2.pointer_to_relocations == h.pointer_to_relocations
    &&& h2.pointer_to_line_numbers == h.pointer_to_line_numbers
    &&& h2.number_of_relocations == h.number_of_relocations
    &&& h2.number_of_line_numbers == h.number_of_line_numbers
    &&& h2.characteristics == h.characteristics
}

/// The characteristics of `.dlljmp`: code, readable, executable.
pub open spec fn dlljmp_characteristics() -> u32 {
    ch::CONTAINS_CODE | ch::CAN_READ | ch::CAN_EXECUTE
}

/// Whether the shift that inserting `.dlljmp` for `n` stubs makes stays within
/// 32 bits (and the section indices within `usize`).
pub open spec fn dlljmp_fits(layout: SectionLayout, table: Map<Seq<char>, PeSectionPosition>, n: int, opts: LinkerOptions) -> bool {
    let raw = jmp_raw_size(n, opts.file_alignment);
    let mem = jmp_mem_size(n, opts.section_alignment);
    &&& 6 * n <= u32::MAX
    &&& raw <= u32::MAX
    &&& mem <= u32::MAX
    &&& layout.size_of_code + raw <= u32::MAX
    &&& layout.base_of_data + mem <= u32::MAX
    &&& forall|i: int|
        0 <= i < layout.pe_sections@.len() ==> (#[trigger] layout.pe_sections@[i]).header.pointer_to_raw_data + raw
            <= u32::MAX && layout.pe_sections@[i].header.virtual_address + mem <= u32::MAX
    &&& forall|k: (usize, Seq<char>)| #[trigger] layout.obj_section_map@.contains_key(k)
        ==> layout.obj_section_map@[k].section_index < usize::MAX
    &&& forall|k: Seq<char>| #[trigger] table.contains_key(k) ==> table[k].section_index < usize::MAX
}

/// Moves one header.
fn move_header(h: &SectionHeader, raw: u32, mem: u32) -> (r: SectionHeader)
    requires
        h.pointer_to_raw_data + raw <= u32::MAX,
        h.virtual_address + mem <= u32::MAX,
    ensures
        moved_header(r, *h, raw as int, mem as int),
{
    SectionHeader {
        name: h.name,
        virtual_size: h.virtual_size,
        virtual_address: h.virtual_address + mem,
        size_of_raw_data: h.size_of_raw_data,
        pointer_to_raw_data: h.pointer_to_raw_data + raw,
        pointer_to_relocations: h.pointer_to_relocations,
        pointer_to_line_numbers: h.pointer_to_line_numbers,
        number_of_relocations: h.number_of_relocations,
        number_of_line_numbers: h.number_of_line_numbers,
        characteristics: h.characteristics,
    }
}

/// Inserts an empty `.dlljmp` section of `num_stubs` stubs in front of the other
/// sections, moving them and every recorded position one section later.
pub fn insert_dlljmp(layout: &mut SectionLayout, symbol_table: &mut SymbolTable, num_stubs: usize, opts: &LinkerOptions)
    requires
        old(layout).obj_section_map.wf(),
        old(symbol_table).wf(),
        opts.file_alignment > 0,
        opts.section_alignment > 0,
        dlljmp_fits(*old(layout), old(symbol_table)@, num_stubs as int, *opts),
    ensures
        ({
            let raw = jmp_raw_size(num_stubs as int, opts.file_alignment);
            let mem = jmp_mem_size(num_stubs as int, opts.section_alignment);
            &&& final(layout).pe_sections@.len() == old(layout).pe_sections@.len() + 1
            &&& fresh_header(
                final(layout).pe_sections@[0].header,
                ".dlljmp"@,
                6 * num_stubs,
                opts.section_alignment as int,
                raw,
                old(layout).size_of_headers as int,
                dlljmp_characteristics(),
            )
            &&& final(layout).pe_sections@[0].data@ == crate::binary_io::zeros((6 * num_stubs) as nat)
            &&& forall|i: int|
                0 <= i < old(layout).pe_sections@.len() ==> moved_header(
                    (#[trigger] final(layout).pe_sections@[i + 1]).header,
                    old(layout).pe_sections@[i].header,
                    raw,
                    mem,
                ) && final(layout).pe_sections@[i + 1].data@ == old(layout).pe_sections@[i].data@
            &&& final(layout).size_of_code == old(layout).size_of_code + raw
            &&& final(layout).base_of_data == old(layout).base_of_data + mem
            &&& final(layout).size_of_headers == old(layout).size_of_headers
            &&& final(layout).size_of_initialized_data == old(layout).size_of_initialized_data
            &&& final(layout).size_of_uninitialized_data == old(layout).size_of_uninitialized_data
            &&& final(layout).base_of_code == old(layout).base_of_code
            &&& final(layout).obj_section_map.wf()
            &&& final(layout).obj_section_map@ == old(layout).obj_section_map@.map_values(|p: PeSectionPosition| shifted(p))
            &&& final(symbol_table).wf()
            &&& final(symbol_table)@ == old(symbol_table)@.map_values(|p: PeSectionPosition| shifted(p))
        }),
{
    let fa = opts.file_alignment;
    let sa = opts.section_alignment;
    let jmp_data_size: u32 = (num_stubs * 6) as u32;
    let raw_size: u32 = (jmp_data_size / fa + 1) * fa;
    let mem_size: u32 = (jmp_data_size / sa + 1) * sa;
    let mut old_sections: Vec<PeSection> = Vec::new();
    std::mem::swap(&mut old_sections, &mut layout.pe_sections);
    let ghost olds = old_sections@;
    let total = old_sections.len();
    assert(jmp_data_size == 6 * num_stubs);
    assert(raw_size == jmp_raw_size(num_stubs as int, fa));
    assert(mem_size == jmp_mem_size(num_stubs as int, sa));
    let mut moved: Vec<PeSection> = Vec::new();
    moved.push(PeSection {
        header: SectionHeader {
            name: str_to_name(".dlljmp"),
            virtual_size: jmp_data_size,
            virtual_address: sa,
            size_of_raw_data: raw_size,
            pointer_to_raw_data: layout.size_of_headers,
            pointer_to_relocations: 0,
            pointer_to_line_numbers: 0,
            number_of_relocations: 0,
            number_of_line_numbers: 0,
            characteristics: ch::CONTAINS_CODE | ch::CAN_READ | ch::CAN_EXECUTE,
        },
        data: zero_bytes(num_stubs * 6),
    });
    let mut i: usize = 0;
    while i < total
        invariant
            olds == old(layout).pe_sections@,
            total == olds.len(),
            dlljmp_fits(*old(layout), old(symbol_table)@, num_stubs as int, *opts),
            raw_size == jmp_raw_size(num_stubs as int, fa),
            mem_size == jmp_mem_size(num_stubs as int, sa),
            i + old_sections@.len() == olds.len(),
            old_sections@ == olds.skip(i as int),
            moved@.len() == i + 1,
            moved@[0].header.name@ == name8(".dlljmp"@),
            moved@[0].header.virtual_size == 6 * num_stubs,
            moved@[0].header.virtual_address == sa,
            moved@[0].header.size_of_raw_data == raw_size,
            moved@[0].header.pointer_to_raw_data == old(layout).size_of_headers,
            moved@[0].header.pointer_to_relocations == 0,
            moved@[0].header.pointer_to_line_numbers == 0,
            moved@[0].header.number_of_relocations == 0,
            moved@[0].header.number_of_line_numbers == 0,
            moved@[0].header.characteristics == dlljmp_characteristics(),
            moved@[0].data@ == crate::binary_io::zeros((6 * num_stubs) as nat),
            fa == opts.file_alignment,
            sa == opts.section_alignment,
            forall|k: int|
                0 <= k < i ==> moved_header((#[trigger] moved@[k + 1]).header, olds[k].header, raw_size as int, mem_size as int)
                    && moved@[k + 1].data@ == olds[k].data@,
        decreases old_sections@.len(),
    {
        let s = old_sections.remove(0);
        assert(s == olds[i as int]);
        let h = move_header(&s.header, raw_size, mem_size);
        moved.push(PeSection { header: h, data: s.data });
        i = i + 1;
        assert(old_sections@ =~= olds.skip(i as int));
    }
    layout.pe_sections = moved;
    layout.size_of_code = layout.size_of_code + raw_size;
    layout.base_of_data = layout.base_of_data + mem_size;
    layout.obj_section_map.shift_sections();
    symbol_table.shift_sections();
}

} // verus!
