//! Assembling the executable: the entry point, the image size and the headers.
use vstd::prelude::*;

use crate::coff::file_header::{machine, FileHeader};
use crate::error::{LinkerError, Result};
use crate::pe::dos_header::{is_default_dos_header, DosHeader};
use crate::pe::optional_header::{dd, subsystem, DataDirectory, OptionalHeader32};
use crate::pe::pe_file::{PeFile, PeSection};
use crate::pe::pe_header::PeHeader;
use crate::text::owned;

use super::import::ImportResult;
use super::options::LinkerOptions;
use super::section::SectionLayout;
use super::symbol::SymbolTable;

verus! {

/// The RVA of the entry point symbol `entry`: the virtual address of the PE section
/// it landed in plus its offset there. A symbol that no object defines is an
/// `EntryPointNotFound` error.
pub fn entry_point_address(symbol_table: &SymbolTable, layout: &SectionLayout, entry: &str) -> (r: Result<u32>)
    requires
        symbol_table.wf(),
        symbol_table@.contains_key(entry@) ==> ({
            let pos = symbol_table@[entry@];
            &&& pos.section_index < layout.pe_sections@.len()
            &&& layout.pe_sections@[pos.section_index as int].header.virtual_address + pos.offset <= u32::MAX
        }),
    ensures
        r is Ok <==> symbol_table@.contains_key(entry@),
        r matches Ok(a) ==> a == layout.pe_sections@[symbol_table@[entry@].section_index as int].header.virtual_address
            + symbol_table@[entry@].offset,
        r matches Err(e) ==> e matches LinkerError::EntryPointNotFound(s) && s@ == entry@,
{
    match symbol_table.get(entry) {
        Some(pos) => Ok(layout.pe_sections[pos.section_index].header.virtual_address + pos.offset),
        None => Err(LinkerError::EntryPointNotFound(owned(entry))),
    }
}

/// `x` in whole units of `unit`, plus one unit.
pub open spec fn units_above(x: u32, unit: u32) -> int {
    (x / unit + 1) * unit
}

/// The memory taken by the first `k` sections, each counted as `units_above` its file size.
pub open spec fn sections_extent(s: Seq<PeSection>, unit: u32, k: int) -> int
    decreases k,
{
    if k <= 0 {
        0
    } else {
        sections_extent(s, unit, k - 1) + units_above(s[k - 1].header.size_of_raw_data, unit)
    }
}

/// The size of the image in memory: the headers and each section, each counted in
/// whole units of the section alignment plus one.
pub open spec fn image_size(layout: SectionLayout, sa: u32) -> int {
    sections_extent(layout.pe_sections@, sa, layout.pe_sections@.len() as int) + units_above(layout.size_of_headers, sa)
}

proof fn lemma_extent_mono(s: Seq<PeSection>, unit: u32, j: int, k: int)
    requires
        0 <= j <= k,
        unit > 0,
    ensures
        sections_extent(s, unit, j) <= sections_extent(s, unit, k),
    decreases k - j,
{
    if j < k {
        lemma_extent_mono(s, unit, j, k - 1);
        let x = s[k - 1].header.size_of_raw_data;
        assert((x / unit + 1) * unit >= 0) by (nonlinear_arith)
            requires
                unit > 0,
        ;
    }
}

/// The file sizes of the first `k` sections together.
pub open spec fn raw_total(s: Seq<PeSection>, k: int) -> int
    decreases k,
{
    if k <= 0 {
        0
    } else {
        raw_total(s, k - 1) + s[k - 1].header.size_of_raw_data
    }
}

/// Each term of `SizeOfImage` is the next multiple of the section alignment strictly
/// above the size it counts: a multiple of the alignment, above the size, and at
/// most one alignment unit above it.
pub proof fn law_units_above(x: u32, unit: u32)
    requires
        unit > 0,
    ensures
        units_above(x, unit) % (unit as int) == 0,
        x < units_above(x, unit) <= x + unit,
{
    let q = (x / unit) as int;
    let u = unit as int;
    vstd::arithmetic::div_mod::lemma_fundamental_div_mod(x as int, u);
    vstd::arithmetic::div_mod::lemma_mod_multiples_basic(q + 1, u);
    assert(units_above(x, unit) == (q + 1) * u);
    assert(0 <= (x as int) % u < u);
    assert((q + 1) * u == u * q + u) by (nonlinear_arith);
}

proof fn lemma_extent_terms(s: Seq<PeSection>, unit: u32, k: int)
    requires
        unit > 0,
        0 <= k,
    ensures
        sections_extent(s, unit, k) % (unit as int) == 0,
        raw_total(s, k) + k <= sections_extent(s, unit, k) <= raw_total(s, k) + k * unit,
    decreases k,
{
    if k > 0 {
        lemma_extent_terms(s, unit, k - 1);
        let x = s[k - 1].header.size_of_raw_data;
        law_units_above(x, unit);
        let a = sections_extent(s, unit, k - 1);
        let b = units_above(x, unit);
        let u = unit as int;
        assert(a == u * (a / u)) by {
            vstd::arithmetic::div_mod::lemma_fundamental_div_mod(a, u);
        }
        assert(b == u * (b / u)) by {
            vstd::arithmetic::div_mod::lemma_fundamental_div_mod(b, u);
        }
        assert((a + b) % u == 0) by {
            assert(a + b == (a / u + b / u) * u) by (nonlinear_arith)
                requires
                    a == u * (a / u),
                    b == u * (b / u),
            ;
            vstd::arithmetic::div_mod::lemma_mod_multiples_basic(a / u + b / u, u);
        }
        assert((k - 1) * u + u == k * u) by (nonlinear_arith);
    }
}

/// `SizeOfImage` is a multiple of the section alignment; it counts the headers and
/// every section, each at more than its file size and by at most one alignment unit
/// more.
pub proof fn law_image_size(layout: SectionLayout, sa: u32)
    requires
        sa > 0,
    ensures
        image_size(layout, sa) % (sa as int) == 0,
        layout.size_of_headers + raw_total(layout.pe_sections@, layout.pe_sections@.len() as int)
            + layout.pe_sections@.len() + 1 <= image_size(layout, sa),
        image_size(layout, sa) <= layout.size_of_headers + raw_total(
            layout.pe_sections@,
            layout.pe_sections@.len() as int,
        ) + (layout.pe_sections@.len() + 1) * sa,
{
    let s = layout.pe_sections@;
    let n = s.len() as int;
    let u = sa as int;
    lemma_extent_terms(s, sa, n);
    law_units_above(layout.size_of_headers, sa);
    let a = sections_extent(s, sa, n);
    let b = units_above(layout.size_of_headers, sa);
    assert(a == u * (a / u)) by {
        vstd::arithmetic::div_mod::lemma_fundamental_div_mod(a, u);
    }
    assert(b == u * (b / u)) by {
        vstd::arithmetic::div_mod::lemma_fundamental_div_mod(b, u);
    }
    assert(a + b == (a / u + b / u) * u) by (nonlinear_arith)
        requires
            a == u * (a / u),
            b == u * (b / u),
    ;
    vstd::arithmetic::div_mod::lemma_mod_multiples_basic(a / u + b / u, u);
    assert(n * u + u == (n + 1) * u) by (nonlinear_arith);
}

/// `SizeOfImage` of the layout, or `None` where it does not fit in 32 bits.
pub fn try_size_of_image(layout: &SectionLayout, opts: &LinkerOptions) -> (r: Option<u32>)
    requires
        opts.section_alignment > 0,
    ensures
        r is Some <==> image_size(*layout, opts.section_alignment) <= u32::MAX,
        r matches Some(v) ==> v == image_size(*layout, opts.section_alignment),
{
    let sa = opts.section_alignment;
    let ghost s = layout.pe_sections@;
    let n = layout.pe_sections.len();
    let max: u64 = u32::MAX as u64;
    let mut total: u64 = 0;
    let mut i: usize = 0;
    while i < n
        invariant
            n == s.len(),
            s == layout.pe_sections@,
            sa == opts.section_alignment,
            sa > 0,
            max == u32::MAX,
            i <= n,
            total == sections_extent(s, sa, i as int),
            total <= max,
        decreases n - i,
    {
        let x = layout.pe_sections[i].header.size_of_raw_data;
        proof {
            assert((x / sa + 1) * sa <= 0x1_0000_0000 * 0xffff_ffff) by (nonlinear_arith)
                requires
                    x / sa + 1 <= 0x1_0000_0000,
                    sa <= 0xffff_ffff,
            ;
        }
        let term: u64 = (x as u64 / sa as u64 + 1) * sa as u64;
        if total + term > max {
            proof {
                lemma_extent_mono(s, sa, i + 1, n as int);
                assert(units_above(layout.size_of_headers, sa) >= 0) by (nonlinear_arith)
                    requires
                        sa > 0,
                ;
            }
            return None;
        }
        total = total + term;
        i = i + 1;
    }
    let h = layout.size_of_headers;
    proof {
        assert((h / sa + 1) * sa <= 0x1_0000_0000 * 0xffff_ffff) by (nonlinear_arith)
            requires
                h / sa + 1 <= 0x1_0000_0000,
                sa <= 0xffff_ffff,
        ;
    }
    let head: u64 = (h as u64 / sa as u64 + 1) * sa as u64;
    if total + head > max {
        return None;
    }
    Some((total + head) as u32)
}

/// `SizeOfImage` of the layout.
pub fn size_of_image(layout: &SectionLayout, opts: &LinkerOptions) -> (r: u32)
    requires
        opts.section_alignment > 0,
        image_size(*layout, opts.section_alignment) <= u32::MAX,
    ensures
        r == image_size(*layout, opts.section_alignment),
{
    try_size_of_image(layout, opts).unwrap()
}

/// The PE file for `layout`: an i386 executable (relocations and debug information
/// stripped, 32-bit machine) with the entry point, image size and time stamp given,
/// the import and IAT directories of `imports`, and the sizes and alignments of the
/// layout and the options.
pub fn build_pe_file(
    layout: SectionLayout,
    imports: &ImportResult,
    opts: &LinkerOptions,
    address_of_entry_point: u32,
    size_of_image: u32,
    time_date_stamp: u32,
) -> (pe: PeFile)
    requires
        layout.pe_sections@.len() > 0,
    ensures
        pe.sections@ == layout.pe_sections@,
        pe.pe_header.signature == 0x4550,
        pe.pe_header.file_header.machine == machine::I386,
        pe.pe_header.file_header.number_of_sections == layout.pe_sections@.len() as u16,
        pe.pe_header.file_header.time_date_stamp == time_date_stamp,
        pe.pe_header.file_header.pointer_to_symbol_table == 0,
        pe.pe_header.file_header.number_of_symbols == 0,
        pe.pe_header.file_header.size_of_optional_header == OptionalHeader32::SIZE,
        pe.pe_header.file_header.characteristics == 0x0303,
        ({
            let o = pe.pe_header.optional_header;
            &&& o.magic_number == 0x010b
            &&& o.major_linker_version == 1 && o.minor_linker_version == 0
            &&& o.size_of_code == layout.size_of_code
            &&& o.size_of_initialized_data == layout.size_of_initialized_data
            &&& o.size_of_uninitialized_data == layout.size_of_uninitialized_data
            &&& o.address_of_entry_point == address_of_entry_point
            &&& o.base_of_code == layout.pe_sections@[0].header.virtual_address
            &&& o.base_of_data == layout.base_of_data
            &&& o.image_base == opts.image_base
            &&& o.section_alignment == opts.section_alignment
            &&& o.file_alignment == opts.file_alignment
            &&& o.major_operating_system_version == 4 && o.minor_operating_system_version == 0
            &&& o.major_image_version == 1 && o.minor_image_version == 0
            &&& o.major_subsystem_version == 4 && o.minor_subsystem_version == 0
            &&& o.win32_version_value == 0
            &&& o.size_of_image == size_of_image
            &&& o.size_of_headers == layout.size_of_headers
            &&& o.check_sum == 0
            &&& o.subsystem == subsystem::WINDOWS_CUI
            &&& o.dll_characteristics == 0
            &&& o.size_of_stack_reserve == opts.stack_reserve
            &&& o.size_of_stack_commit == opts.stack_commit
            &&& o.size_of_heap_reserve == opts.heap_reserve
            &&& o.size_of_heap_commit == opts.heap_commit
            &&& o.loader_flags == 0
            &&& o.number_of_rva_and_sizes == 16
            &&& o.data_directories@[dd::IMPORT as int] == imports.import_dir
            &&& o.data_directories@[dd::IAT as int] == imports.iat_dir
            &&& forall|i: int|
                0 <= i < 16 && i != dd::IMPORT && i != dd::IAT ==> (#[trigger] o.data_directories@[i]).virtual_address == 0
                    && o.data_directories@[i].size == 0
        }),
        is_default_dos_header(pe.dos_header),
{
    assert(0x0001u16 | 0x0002u16 | 0x0100u16 | 0x0200u16 == 0x0303u16) by (bit_vector);
    let zero = DataDirectory { virtual_address: 0, size: 0 };
    let mut data_directories: [DataDirectory; 16] = [zero; 16];
    data_directories[dd::IMPORT] = imports.import_dir;
    data_directories[dd::IAT] = imports.iat_dir;
    let file_header = FileHeader {
        machine: machine::I386,
        number_of_sections: layout.pe_sections.len() as u16,
        time_date_stamp,
        pointer_to_symbol_table: 0,
        number_of_symbols: 0,
        size_of_optional_header: OptionalHeader32::SIZE as u16,
        characteristics: 0x0001 | 0x0002 | 0x0100 | 0x0200,
    };
    let optional_header = OptionalHeader32 {
        magic_number: 0x010b,
        major_linker_version: 1,
        minor_linker_version: 0,
        size_of_code: layout.size_of_code,
        size_of_initialized_data: layout.size_of_initialized_data,
        size_of_uninitialized_data: layout.size_of_uninitialized_data,
        address_of_entry_point,
        base_of_code: layout.pe_sections[0].header.virtual_address,
        base_of_data: layout.base_of_data,
        image_base: opts.image_base,
        section_alignment: opts.section_alignment,
        file_alignment: opts.file_alignment,
        major_operating_system_version: 4,
        minor_operating_system_version: 0,
        major_image_version: 1,
        minor_image_version: 0,
        major_subsystem_version: 4,
        minor_subsystem_version: 0,
        win32_version_value: 0,
        size_of_image,
        size_of_headers: layout.size_of_headers,
        check_sum: 0,
        subsystem: subsystem::WINDOWS_CUI,
        dll_characteristics: 0,
        size_of_stack_reserve: opts.stack_reserve,
        size_of_stack_commit: opts.stack_commit,
        size_of_heap_reserve: opts.heap_reserve,
        size_of_heap_commit: opts.heap_commit,
        loader_flags: 0,
        number_of_rva_and_sizes: 16,
        data_directories,
    };
    PeFile {
        dos_header: DosHeader::default(),
        pe_header: PeHeader { signature: 0x0000_4550, file_header, optional_header },
        sections: layout.pe_sections,
    }
}

} // verus!
