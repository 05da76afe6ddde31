use std::collections::HashMap;

use rslinker::coff::file_header::FileHeader;
use rslinker::coff::object_file::{ObjectFile, ObjectSection, RelocType, RelocationEntry};
use rslinker::coff::section_header::SectionHeader;
use rslinker::coff::symbol::{StandardSymbol, SymbolEntry};
use rslinker::error::LinkerError;
use rslinker::linker::dll::LoadedDll;
use rslinker::linker::import::{build_imports, try_build_imports};
use rslinker::linker::name_map::{NameMap, ObjSectionMap};
use rslinker::linker::options::LinkerOptions;
use rslinker::linker::section::PeSectionPosition;
use rslinker::linker::output::{build_pe_file, entry_point_address, size_of_image, try_size_of_image};
use rslinker::linker::relocation::{apply_relocations, try_apply_relocations};
use rslinker::linker::section::{merge_and_layout, try_merge_and_layout};
use rslinker::linker::symbol::build_symbol_table;

fn header(name: &[u8; 8], size: u32, characteristics: u32) -> SectionHeader {
    SectionHeader {
        name: *name,
        virtual_size: 0,
        virtual_address: 0,
        size_of_raw_data: size,
        pointer_to_raw_data: 0,
        pointer_to_relocations: 0,
        pointer_to_line_numbers: 0,
        number_of_relocations: 0,
        number_of_line_numbers: 0,
        characteristics,
    }
}

fn symbol(name: [u8; 8], value: u32, section_number: u16, storage_class: u8) -> SymbolEntry {
    SymbolEntry {
        symbol: StandardSymbol {
            name,
            value,
            section_number,
            sym_type: 0x20,
            storage_class,
            number_of_aux_symbols: 0,
        },
        aux: Vec::new(),
    }
}

fn file_header(n: u16) -> FileHeader {
    FileHeader {
        machine: 0x14c,
        number_of_sections: n,
        time_date_stamp: 0,
        pointer_to_symbol_table: 0,
        number_of_symbols: 0,
        size_of_optional_header: 0,
        characteristics: 0,
    }
}

/// `_main: call _ExitProcess@4; ret`, the callee named through the string table.
fn caller_object() -> ObjectFile {
    let mut data = vec![0u8; 16];
    data[0] = 0xE8;
    data[5] = 0xC3;
    let mut strings = HashMap::new();
    strings.insert(4u32, "_ExitProcess@4".to_string());
    ObjectFile {
        file_header: file_header(1),
        sections: vec![ObjectSection {
            header: header(b".text\0\0\0", 16, 0x6000_0020),
            data,
            relocations: vec![RelocationEntry { virtual_address: 1, symbol_index: 1, reloc_type: RelocType::Rel32 }],
        }],
        symbols: vec![
            symbol(*b"_main\0\0\0", 0, 1, 2),
            symbol([0, 0, 0, 0, 4, 0, 0, 0], 0, 0, 2),
        ],
        string_table: strings,
    }
}

fn kernel32() -> LoadedDll {
    LoadedDll::from_exports(
        "C:\\Windows\\System32\\kernel32.dll".to_string(),
        "kernel32.dll".to_string(),
        vec!["ExitProcess".to_string(), "Sleep".to_string()],
    )
}

#[test]
fn lays_out_merged_sections_by_kind() {
    let a = ObjectFile {
        file_header: file_header(2),
        sections: vec![
            ObjectSection { header: header(b".data\0\0\0", 8, 0xC000_0040), data: vec![1; 8], relocations: vec![] },
            ObjectSection { header: header(b".text\0\0\0", 3, 0x6000_0020), data: vec![2; 3], relocations: vec![] },
        ],
        symbols: vec![],
        string_table: HashMap::new(),
    };
    let b = ObjectFile {
        file_header: file_header(1),
        sections: vec![ObjectSection { header: header(b".text\0\0\0", 2, 0x6000_0020), data: vec![3; 2], relocations: vec![] }],
        symbols: vec![],
        string_table: HashMap::new(),
    };
    let opts = LinkerOptions::default();
    let layout = merge_and_layout(&[a, b], &opts);
    assert_eq!(layout.size_of_headers, 0x200);
    assert_eq!(layout.pe_sections.len(), 2);
    let text = &layout.pe_sections[0];
    assert_eq!(text.header.name, *b".text\0\0\0");
    assert_eq!(text.data, vec![2, 2, 2, 3, 3]);
    assert_eq!(text.header.virtual_address, 0x1000);
    assert_eq!(text.header.virtual_size, 5);
    assert_eq!(text.header.pointer_to_raw_data, 0x200);
    assert_eq!(text.header.size_of_raw_data, 0x200);
    let data = &layout.pe_sections[1];
    assert_eq!(data.header.virtual_address, 0x2000);
    assert_eq!(data.header.pointer_to_raw_data, 0x400);
    assert_eq!(layout.size_of_code, 0x200);
    assert_eq!(layout.size_of_initialized_data, 0x200);
    assert_eq!(layout.base_of_code, 0x1000);
    assert_eq!(layout.base_of_data, 0x2000);
    assert_eq!(layout.obj_section_map.get(1, ".text").unwrap().offset, 3);
    assert_eq!(layout.obj_section_map.get(1, ".text").unwrap().section_index, 0);
    assert_eq!(layout.obj_section_map.get(0, ".data").unwrap().section_index, 1);
}

#[test]
fn a_symbol_defined_twice_is_an_error() {
    let one = || ObjectFile {
        file_header: file_header(1),
        sections: vec![ObjectSection { header: header(b".text\0\0\0", 1, 0x6000_0020), data: vec![0xC3], relocations: vec![] }],
        symbols: vec![symbol(*b"_f\0\0\0\0\0\0", 0, 1, 2)],
        string_table: HashMap::new(),
    };
    let objs = [one(), one()];
    let layout = merge_and_layout(&objs, &LinkerOptions::default());
    match build_symbol_table(&objs, &layout) {
        Err(LinkerError::DuplicateSymbol(s)) => assert_eq!(s, "_f"),
        _ => panic!("expected a DuplicateSymbol error"),
    }
}

#[test]
fn symbols_land_at_their_section_offset() {
    let objs = [caller_object()];
    let layout = merge_and_layout(&objs, &LinkerOptions::default());
    let table = build_symbol_table(&objs, &layout).unwrap();
    assert_eq!(table.len(), 1);
    let p = table.get("_main").unwrap();
    assert_eq!((p.section_index, p.offset), (0, 0));
}

#[test]
fn links_a_call_into_a_dll() {
    let objs = [caller_object()];
    let opts = LinkerOptions::default();
    let mut layout = merge_and_layout(&objs, &opts);
    let mut table = build_symbol_table(&objs, &layout).unwrap();
    let dlls = [kernel32()];
    let imports = build_imports(&objs, &mut layout, &mut table, &opts, &dlls).unwrap();

    assert_eq!(layout.pe_sections.len(), 3);
    let jmp = &layout.pe_sections[0];
    assert_eq!(jmp.header.name, *b".dlljmp\0");
    assert_eq!(jmp.header.virtual_address, 0x1000);
    assert_eq!(jmp.header.virtual_size, 6);
    assert_eq!(jmp.header.size_of_raw_data, 0x200);
    assert_eq!(jmp.header.pointer_to_raw_data, 0x200);
    assert_eq!(jmp.data, vec![0xFF, 0x25, 0x30, 0x30, 0x40, 0x00]);
    let text = &layout.pe_sections[1];
    assert_eq!(text.header.virtual_address, 0x2000);
    assert_eq!(text.header.pointer_to_raw_data, 0x400);
    let idata = &layout.pe_sections[2];
    assert_eq!(idata.header.name, *b".idata\0\0");
    assert_eq!(idata.header.virtual_address, 0x3000);
    assert_eq!(idata.header.virtual_size, 0x53);
    assert_eq!(idata.header.size_of_raw_data, 0x200);
    assert_eq!(idata.header.pointer_to_raw_data, 0x600);
    assert_eq!(layout.size_of_code, 0x400);
    assert_eq!(layout.size_of_initialized_data, 0x200);
    assert_eq!(layout.base_of_data, 0x1000);

    let d = &idata.data;
    assert_eq!(d.len(), 0x53);
    assert_eq!(&d[0..20], &[0x28, 0x30, 0, 0, 0, 0, 0, 0, 0, 0, 0, 0, 0x46, 0x30, 0, 0, 0x30, 0x30, 0, 0]);
    assert_eq!(&d[20..40], &[0u8; 20]);
    assert_eq!(&d[0x28..0x30], &[0x38, 0x30, 0, 0, 0, 0, 0, 0]);
    assert_eq!(&d[0x30..0x38], &[0x38, 0x30, 0, 0, 0, 0, 0, 0]);
    assert_eq!(&d[0x38..0x46], b"\0\0ExitProcess\0");
    assert_eq!(&d[0x46..0x53], b"kernel32.dll\0");

    assert_eq!(imports.dlls.len(), 1);
    assert_eq!(imports.dlls[0].name, "kernel32.dll");
    assert_eq!(imports.dlls[0].imports[0].function_name, "ExitProcess");
    assert_eq!(imports.dlls[0].imports[0].iat_rva, 0x3030);
    assert_eq!(imports.symbol_to_jmp_va.get("_ExitProcess@4"), Some(&0x1000));
    assert_eq!(imports.imp_symbol_to_iat_rva.len(), 0);
    assert_eq!((imports.import_dir.virtual_address, imports.import_dir.size), (0x3000, 0x53));
    assert_eq!((imports.iat_dir.virtual_address, imports.iat_dir.size), (0x3028, 8));
    assert_eq!(table.get("_main").unwrap().section_index, 1);
    assert_eq!(layout.obj_section_map.get(0, ".text").unwrap().section_index, 1);

    apply_relocations(&objs, &mut layout, &table, &imports, &opts).unwrap();
    assert_eq!(&layout.pe_sections[1].data[0..6], &[0xE8, 0xFB, 0xEF, 0xFF, 0xFF, 0xC3]);

    let entry = entry_point_address(&table, &layout, "_main").unwrap();
    assert_eq!(entry, 0x2000);
    assert_eq!(size_of_image(&layout, &opts), 0x4000);
    let pe = build_pe_file(layout, &imports, &opts, entry, 0x4000, 7);
    assert_eq!(pe.pe_header.file_header.number_of_sections, 3);
    assert_eq!(pe.pe_header.file_header.characteristics, 0x0303);
    assert_eq!(pe.pe_header.optional_header.base_of_code, 0x1000);
    assert_eq!(pe.pe_header.optional_header.data_directories[1].virtual_address, 0x3000);
    assert_eq!(pe.pe_header.optional_header.data_directories[12].size, 8);
    let image = pe.image();
    assert_eq!(image.len(), 0x800);
    assert_eq!(&image[0..2], b"MZ");
    assert_eq!(&image[0x40..0x44], b"PE\0\0");
    assert_eq!(&image[0x200..0x206], &[0xFF, 0x25, 0x30, 0x30, 0x40, 0x00]);
    assert_eq!(&image[0x400..0x406], &[0xE8, 0xFB, 0xEF, 0xFF, 0xFF, 0xC3]);
    assert_eq!(&image[0x646..0x652], b"kernel32.dll");
}

#[test]
fn an_imp_symbol_reads_the_iat() {
    let mut objs = [caller_object()];
    objs[0].string_table.insert(4, "__imp__Sleep@4".to_string());
    objs[0].sections[0].relocations[0].reloc_type = RelocType::Dir32va;
    let opts = LinkerOptions::default();
    let mut layout = merge_and_layout(&objs, &opts);
    let mut table = build_symbol_table(&objs, &layout).unwrap();
    let imports = build_imports(&objs, &mut layout, &mut table, &opts, &[kernel32()]).unwrap();
    assert_eq!(layout.pe_sections.len(), 2);
    assert_eq!(layout.pe_sections[1].header.virtual_address, 0x2000);
    assert_eq!(imports.imp_symbol_to_iat_rva.get("__imp__Sleep@4"), Some(&0x2030));
    assert_eq!(imports.symbol_to_jmp_va.len(), 0);
    apply_relocations(&objs, &mut layout, &table, &imports, &opts).unwrap();
    assert_eq!(&layout.pe_sections[0].data[1..5], &[0x30, 0x20, 0x40, 0x00]);
}

#[test]
fn a_function_no_dll_exports_is_undefined() {
    let objs = [caller_object()];
    let opts = LinkerOptions::default();
    let mut layout = merge_and_layout(&objs, &opts);
    let mut table = build_symbol_table(&objs, &layout).unwrap();
    let other = LoadedDll::from_exports("u.dll".to_string(), "u.dll".to_string(), vec!["MessageBoxA".to_string()]);
    match build_imports(&objs, &mut layout, &mut table, &opts, &[other]) {
        Err(LinkerError::UndefinedSymbol(s)) => assert_eq!(s, "_ExitProcess@4"),
        _ => panic!("expected an UndefinedSymbol error"),
    }
    assert_eq!(layout.pe_sections.len(), 1);
}

#[test]
fn no_dll_functions_leave_the_layout_alone() {
    let mut obj = caller_object();
    obj.sections[0].relocations.clear();
    let objs = [obj];
    let opts = LinkerOptions::default();
    let mut layout = merge_and_layout(&objs, &opts);
    let mut table = build_symbol_table(&objs, &layout).unwrap();
    let imports = build_imports(&objs, &mut layout, &mut table, &opts, &[kernel32()]).unwrap();
    assert_eq!(layout.pe_sections.len(), 1);
    assert!(imports.dlls.is_empty());
    assert_eq!(imports.import_dir.virtual_address, 0);
}

#[test]
fn unknown_entry_point() {
    let objs = [caller_object()];
    let layout = merge_and_layout(&objs, &LinkerOptions::default());
    let table = build_symbol_table(&objs, &layout).unwrap();
    match entry_point_address(&table, &layout, "_start") {
        Err(LinkerError::EntryPointNotFound(s)) => assert_eq!(s, "_start"),
        _ => panic!("expected an EntryPointNotFound error"),
    }
}

#[test]
fn an_unresolved_relocation_is_undefined() {
    let objs = [caller_object()];
    let opts = LinkerOptions::default();
    let mut layout = merge_and_layout(&objs, &opts);
    let table = build_symbol_table(&objs, &layout).unwrap();
    let mut same_table = table;
    let imports = build_imports(&[], &mut layout, &mut same_table, &opts, &[]).unwrap();
    match apply_relocations(&objs, &mut layout, &same_table, &imports, &opts) {
        Err(LinkerError::UndefinedSymbol(s)) => assert_eq!(s, "_ExitProcess@4"),
        _ => panic!("expected an UndefinedSymbol error"),
    }
}

#[test]
fn unsupported_relocation_type() {
    let mut objs = [caller_object()];
    objs[0].symbols[1] = symbol(*b"_main\0\0\0", 0, 1, 2);
    objs[0].symbols[0] = symbol(*b"_g\0\0\0\0\0\0", 0, 1, 2);
    objs[0].sections[0].relocations[0].reloc_type = RelocType::Other(0x0B);
    let opts = LinkerOptions::default();
    let mut layout = merge_and_layout(&objs, &opts);
    let mut table = build_symbol_table(&objs, &layout).unwrap();
    let imports = build_imports(&objs, &mut layout, &mut table, &opts, &[]).unwrap();
    match apply_relocations(&objs, &mut layout, &table, &imports, &opts) {
        Err(LinkerError::InvalidFormat(s)) => assert_eq!(s, "unsupported relocation type: 0x000b"),
        _ => panic!("expected an InvalidFormat error"),
    }
}

#[test]
fn a_function_reached_both_ways_is_imported_once() {
    let mut obj = caller_object();
    obj.string_table.insert(20, "__imp__ExitProcess@4".to_string());
    obj.symbols.push(symbol([0, 0, 0, 0, 20, 0, 0, 0], 0, 0, 2));
    obj.sections[0].relocations.push(RelocationEntry { virtual_address: 8, symbol_index: 2, reloc_type: RelocType::Dir32va });
    let objs = [obj];
    let opts = LinkerOptions::default();
    let mut layout = merge_and_layout(&objs, &opts);
    let mut table = build_symbol_table(&objs, &layout).unwrap();
    let imports = build_imports(&objs, &mut layout, &mut table, &opts, &[kernel32()]).unwrap();
    assert_eq!(imports.dlls.len(), 1);
    assert_eq!(imports.dlls[0].imports.len(), 1);
    assert_eq!(imports.imp_symbol_to_iat_rva.get("__imp__ExitProcess@4"), Some(&0x3030));
    assert_eq!(imports.symbol_to_jmp_va.get("_ExitProcess@4"), Some(&0x1000));
    apply_relocations(&objs, &mut layout, &table, &imports, &opts).unwrap();
    assert_eq!(&layout.pe_sections[1].data[8..12], &[0x30, 0x30, 0x40, 0x00]);
}

/// `.text` with a relocation at offset 5 to `_x` at the start of `.data`.
fn text_and_data(reloc_type: RelocType) -> ObjectFile {
    ObjectFile {
        file_header: file_header(2),
        sections: vec![
            ObjectSection {
                header: header(b".text\0\0\0", 16, 0x6000_0020),
                data: vec![0; 16],
                relocations: vec![RelocationEntry { virtual_address: 5, symbol_index: 1, reloc_type }],
            },
            ObjectSection { header: header(b".data\0\0\0", 4, 0xC000_0040), data: vec![0; 4], relocations: vec![] },
        ],
        symbols: vec![symbol(*b"_main\0\0\0", 0, 1, 2), symbol(*b"_x\0\0\0\0\0\0", 0, 2, 2)],
        string_table: HashMap::new(),
    }
}

fn patched(reloc_type: RelocType) -> Vec<u8> {
    let objs = [text_and_data(reloc_type)];
    let opts = LinkerOptions::default();
    let mut layout = merge_and_layout(&objs, &opts);
    let mut table = build_symbol_table(&objs, &layout).unwrap();
    let imports = build_imports(&objs, &mut layout, &mut table, &opts, &[]).unwrap();
    assert_eq!(layout.pe_sections[1].header.virtual_address, 0x2000);
    apply_relocations(&objs, &mut layout, &table, &imports, &opts).unwrap();
    layout.pe_sections[0].data[5..9].to_vec()
}

#[test]
fn rel32_is_the_distance_from_the_end_of_the_operand() {
    // operand at RVA 0x1005, target at 0x2000: 0x2000 - (0x1005 + 4) = 0xFF7
    assert_eq!(patched(RelocType::Rel32), vec![0xF7, 0x0F, 0, 0]);
}

#[test]
fn dir32va_is_the_address_and_dir32rva_the_rva() {
    assert_eq!(patched(RelocType::Dir32va), vec![0x00, 0x20, 0x40, 0x00]);
    assert_eq!(patched(RelocType::Dir32rva), vec![0x00, 0x20, 0x00, 0x00]);
}

#[test]
fn sections_follow_one_another() {
    let mut obj = text_and_data(RelocType::Absolute);
    obj.sections.push(ObjectSection { header: header(b".bss\0\0\0\0", 0, 0xC000_0080), data: vec![0; 0x1800], relocations: vec![] });
    obj.sections.push(ObjectSection { header: header(b".rdata\0\0", 0x300, 0x4000_0040), data: vec![9; 0x300], relocations: vec![] });
    let objs = [obj];
    let layout = merge_and_layout(&objs, &LinkerOptions::default());
    let h: Vec<_> = layout.pe_sections.iter().map(|s| s.header).collect();
    assert_eq!(h.len(), 4);
    assert_eq!(h[0].name, *b".text\0\0\0");
    assert_eq!(h[1].name, *b".data\0\0\0");
    assert_eq!(h[2].name, *b".rdata\0\0");
    assert_eq!(h[3].name, *b".bss\0\0\0\0");
    assert_eq!(
        h.iter().map(|x| x.virtual_address).collect::<Vec<_>>(),
        vec![0x1000, 0x2000, 0x3000, 0x4000]
    );
    assert_eq!(
        h.iter().map(|x| x.pointer_to_raw_data).collect::<Vec<_>>(),
        vec![0x400, 0x600, 0x800, 0]
    );
    assert_eq!(h[2].size_of_raw_data, 0x400);
    assert_eq!(h[3].size_of_raw_data, 0);
    assert_eq!(h[3].virtual_size, 0x1800);
    assert!(layout.pe_sections[3].data.is_empty());
    assert_eq!(layout.size_of_headers, 0x400);
    assert_eq!(layout.size_of_uninitialized_data, 0x1800);
    assert_eq!(layout.size_of_initialized_data, 0x600);
}

#[test]
fn imports_whose_addresses_leave_32_bits_change_nothing() {
    let objs = [caller_object()];
    let mut opts = LinkerOptions::default();
    opts.image_base = 0xFFFF_F000;
    let mut layout = merge_and_layout(&objs, &opts);
    let mut table = build_symbol_table(&objs, &layout).unwrap();
    let dlls = [kernel32()];
    let r = try_build_imports(&objs, &mut layout, &mut table, &opts, &dlls);
    assert!(r.is_none());
    assert_eq!(layout.pe_sections.len(), 1);
    assert_eq!(layout.pe_sections[0].header.virtual_address, 0x1000);

    opts.image_base = 0x40_0000;
    let r = try_build_imports(&objs, &mut layout, &mut table, &opts, &dlls);
    assert!(matches!(r, Some(Ok(_))));
    assert_eq!(layout.pe_sections.len(), 3);
}

#[test]
fn a_layout_past_32_bits_is_refused() {
    let objs = [text_and_data(RelocType::Absolute)];
    let mut opts = LinkerOptions::default();
    opts.section_alignment = 0x8000_0000;
    assert!(try_merge_and_layout(&objs, &opts).is_none());
    opts.section_alignment = 0x1000;
    assert!(try_merge_and_layout(&objs, &opts).is_some());
}

#[test]
fn an_image_size_past_32_bits_is_refused() {
    let objs = [text_and_data(RelocType::Absolute)];
    let opts = LinkerOptions::default();
    let mut layout = merge_and_layout(&objs, &opts);
    assert_eq!(try_size_of_image(&layout, &opts), Some(0x3000));
    layout.pe_sections[0].header.size_of_raw_data = 0xFFFF_F000;
    assert_eq!(try_size_of_image(&layout, &opts), None);
}

#[test]
fn a_relocation_past_its_section_is_refused() {
    let mut obj = text_and_data(RelocType::Dir32va);
    obj.sections[0].relocations[0].virtual_address = 14;
    let objs = [obj];
    let opts = LinkerOptions::default();
    let mut layout = merge_and_layout(&objs, &opts);
    let mut table = build_symbol_table(&objs, &layout).unwrap();
    let imports = build_imports(&objs, &mut layout, &mut table, &opts, &[]).unwrap();
    assert!(try_apply_relocations(&objs, &mut layout, &table, &imports, &opts).is_none());
}

#[test]
fn relocations_before_a_failing_one_stay_applied() {
    let good = [text_and_data(RelocType::Dir32va)];
    let mut bad = text_and_data(RelocType::Dir32va);
    bad.symbols.push(symbol(*b"_y\0\0\0\0\0\0", 0, 0, 2));
    bad.sections[0].relocations.push(RelocationEntry { virtual_address: 10, symbol_index: 2, reloc_type: RelocType::Dir32va });
    let opts = LinkerOptions::default();
    let mut layout = merge_and_layout(&good, &opts);
    let mut table = build_symbol_table(&good, &layout).unwrap();
    let imports = build_imports(&good, &mut layout, &mut table, &opts, &[]).unwrap();
    match apply_relocations(&[bad], &mut layout, &table, &imports, &opts) {
        Err(LinkerError::UndefinedSymbol(s)) => assert_eq!(s, "_y"),
        _ => panic!("expected an undefined symbol"),
    }
    assert_eq!(&layout.pe_sections[0].data[5..9], &[0x00, 0x20, 0x40, 0x00]);
    assert_eq!(&layout.pe_sections[0].data[10..14], &[0, 0, 0, 0]);
    assert_eq!(layout.pe_sections[0].data.len(), 16);
}

#[test]
fn map_keys_come_sorted() {
    let mut m: NameMap<u32> = NameMap::new();
    for (i, k) in ["b", "a", "B", "ab"].iter().enumerate() {
        m.insert(k.to_string(), i as u32);
    }
    assert_eq!(m.sorted_keys(), vec!["B", "a", "ab", "b"]);
    let mut o = ObjSectionMap::new();
    let pos = PeSectionPosition { section_index: 0, offset: 0 };
    o.insert(1, ".data".to_string(), pos);
    o.insert(0, ".text".to_string(), pos);
    o.insert(1, ".bss".to_string(), pos);
    o.insert(0, ".data".to_string(), pos);
    assert_eq!(o.sorted_keys(), vec![(0, ".data"), (0, ".text"), (1, ".bss"), (1, ".data")]);
}
