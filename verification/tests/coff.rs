use std::collections::HashMap;

use rslinker::binary_io::{ByteReader, WriteExt};
use rslinker::coff::file_header::FileHeader;
use rslinker::coff::object_file::{ObjectFile, RelocType};
use rslinker::coff::section_header::SectionHeader;
use rslinker::coff::symbol::{AuxSymbol, StandardSymbol};
use rslinker::error::LinkerError;

fn text_header() -> SectionHeader {
    SectionHeader {
        name: *b".text\0\0\0",
        virtual_size: 0,
        virtual_address: 0,
        size_of_raw_data: 4,
        pointer_to_raw_data: 60,
        pointer_to_relocations: 64,
        pointer_to_line_numbers: 0,
        number_of_relocations: 1,
        number_of_line_numbers: 0,
        characteristics: 0x6000_0020,
    }
}

/// A small object file: one `.text` section of 4 bytes with one relocation, a
/// `.file` symbol with its auxiliary record, and a symbol with a long name.
fn object_bytes() -> Vec<u8> {
    let mut w: Vec<u8> = Vec::new();
    FileHeader {
        machine: 0x14c,
        number_of_sections: 1,
        time_date_stamp: 0,
        pointer_to_symbol_table: 74,
        number_of_symbols: 3,
        size_of_optional_header: 0,
        characteristics: 0,
    }
    .write(&mut w);
    text_header().write(&mut w);
    w.write_bytes(&[1, 2, 3, 4]);
    w.write_u32_le(0);
    w.write_u32_le(2);
    w.write_u16_le(6);
    assert_eq!(w.len(), 74);
    w.write_bytes(b".file\0\0\0");
    w.write_u32_le(0);
    w.write_u16_le(0xFFFE);
    w.write_u16_le(0);
    w.write_u8(103);
    w.write_u8(1);
    w.write_bytes(b"a.c\0\0\0\0\0\0\0\0\0\0\0\0\0\0\0");
    w.write_bytes(&[0, 0, 0, 0, 4, 0, 0, 0]);
    w.write_u32_le(0x10);
    w.write_u16_le(1);
    w.write_u16_le(0x20);
    w.write_u8(2);
    w.write_u8(0);
    w.write_u32_le(19);
    w.write_bytes(b"_long_function\0");
    w
}

#[test]
fn file_header_roundtrip() {
    let h = FileHeader {
        machine: 0x14c,
        number_of_sections: 3,
        time_date_stamp: 0x1234_5678,
        pointer_to_symbol_table: 0x400,
        number_of_symbols: 9,
        size_of_optional_header: 0xE0,
        characteristics: 0x0102,
    };
    let mut w: Vec<u8> = Vec::new();
    h.write(&mut w);
    assert_eq!(w.len(), 20);
    assert_eq!(&w[0..4], &[0x4c, 0x01, 0x03, 0x00]);
    let back = FileHeader::read(&mut ByteReader::new(w)).unwrap();
    assert_eq!(back.machine, 0x14c);
    assert_eq!(back.number_of_sections, 3);
    assert_eq!(back.time_date_stamp, 0x1234_5678);
    assert_eq!(back.pointer_to_symbol_table, 0x400);
    assert_eq!(back.number_of_symbols, 9);
    assert_eq!(back.size_of_optional_header, 0xE0);
    assert_eq!(back.characteristics, 0x0102);
}

#[test]
fn file_header_read_needs_twenty_bytes() {
    assert!(matches!(FileHeader::read(&mut ByteReader::new(vec![0; 19])), Err(LinkerError::Io(_))));
}

#[test]
fn section_header_roundtrip() {
    let mut w: Vec<u8> = Vec::new();
    text_header().write(&mut w);
    assert_eq!(w.len(), 40);
    let back = SectionHeader::read(&mut ByteReader::new(w)).unwrap();
    assert_eq!(back.name, *b".text\0\0\0");
    assert_eq!(back.name_str(), ".text");
    assert_eq!(back.size_of_raw_data, 4);
    assert_eq!(back.pointer_to_raw_data, 60);
    assert_eq!(back.pointer_to_relocations, 64);
    assert_eq!(back.number_of_relocations, 1);
    assert_eq!(back.characteristics, 0x6000_0020);
}

#[test]
fn section_name_uses_all_eight_bytes() {
    let mut h = text_header();
    h.name = *b".textbss";
    assert_eq!(h.name_str(), ".textbss");
}

#[test]
fn reads_an_object_file() {
    let obj = ObjectFile::read(&mut ByteReader::new(object_bytes())).unwrap();
    assert_eq!(obj.file_header.number_of_sections, 1);
    assert_eq!(obj.sections.len(), 1);
    assert_eq!(obj.sections[0].data, vec![1, 2, 3, 4]);
    assert_eq!(obj.sections[0].relocations.len(), 1);
    assert_eq!(obj.sections[0].relocations[0].symbol_index, 2);
    assert!(obj.sections[0].relocations[0].reloc_type == RelocType::Dir32va);
    assert_eq!(obj.symbols.len(), 2);
    assert!(matches!(obj.symbols[0].aux[0], AuxSymbol::File(_)));
    assert_eq!(obj.string_table.get(&4).map(|s| s.as_str()), Some("_long_function"));
}

#[test]
fn symbols_are_found_by_raw_index() {
    let obj = ObjectFile::read(&mut ByteReader::new(object_bytes())).unwrap();
    assert_eq!(obj.symbol_by_raw_index(0).unwrap().storage_class, 103);
    assert!(obj.symbol_by_raw_index(1).is_none());
    let s = obj.symbol_by_raw_index(2).unwrap();
    assert_eq!(s.value, 0x10);
    assert_eq!(s.resolve_name(&obj.string_table), "_long_function");
    assert!(obj.symbol_by_raw_index(3).is_none());
}

#[test]
fn truncated_object_is_an_io_error() {
    let mut b = object_bytes();
    b.truncate(100);
    assert!(matches!(ObjectFile::read(&mut ByteReader::new(b)), Err(LinkerError::Io(_))));
}

#[test]
fn short_and_missing_names() {
    let table: HashMap<u32, String> = HashMap::new();
    let s = StandardSymbol {
        name: *b"_main\0\0\0",
        value: 0,
        section_number: 1,
        sym_type: 0x20,
        storage_class: 2,
        number_of_aux_symbols: 0,
    };
    assert_eq!(s.resolve_name(&table), "_main");
    let long = StandardSymbol { name: [0, 0, 0, 0, 4, 0, 0, 0], ..s };
    assert_eq!(long.resolve_name(&table), "");
}

#[test]
fn relocation_types_by_code() {
    assert!(RelocType::from(0x00) == RelocType::Absolute);
    assert!(RelocType::from(0x06) == RelocType::Dir32va);
    assert!(RelocType::from(0x07) == RelocType::Dir32rva);
    assert!(RelocType::from(0x14) == RelocType::Rel32);
    assert!(RelocType::from(0x09) == RelocType::Other(9));
}

#[test]
fn string_table_keys_are_byte_offsets() {
    let mut w = object_bytes();
    let n = w.len();
    w.truncate(n - 19);
    w.write_u32_le(10);
    w.write_bytes(&[0xE9, b'a', 0, b'_', b'b', 0]);
    let obj = ObjectFile::read(&mut ByteReader::new(w)).unwrap();
    assert_eq!(obj.string_table.get(&4).map(|s| s.as_str()), Some("\u{e9}a"));
    assert_eq!(obj.string_table.get(&7).map(|s| s.as_str()), Some("_b"));
    assert_eq!(obj.string_table.len(), 2);
}
