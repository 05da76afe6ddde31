use rslinker::error::LinkerError;
use rslinker::linker::dll::{load_dll, read_exports, rva_to_offset, str_lt, try_find_dll, LoadedDll};

fn put_u16(b: &mut Vec<u8>, at: usize, v: u16) {
    b[at..at + 2].copy_from_slice(&v.to_le_bytes());
}

fn put_u32(b: &mut Vec<u8>, at: usize, v: u32) {
    b[at..at + 4].copy_from_slice(&v.to_le_bytes());
}

/// A PE32 image with one section (RVA 0x1000 at file offset 0x200) holding an
/// export directory that names `Foo` and `Bar`.
fn pe_with_exports(magic: u16) -> Vec<u8> {
    let mut b = vec![0u8; 0x250];
    put_u32(&mut b, 0x3c, 0x40);
    put_u32(&mut b, 0x40, 0x4550);
    put_u16(&mut b, 0x46, 1);
    put_u16(&mut b, 0x54, 0xE0);
    put_u16(&mut b, 0x58, magic);
    let dd = if magic == 0x20b { 0x58 + 112 } else { 0x58 + 96 };
    put_u32(&mut b, dd, 0x1000);
    put_u32(&mut b, dd + 4, 0x100);
    let sh = 0x58 + 0xE0;
    b[sh..sh + 6].copy_from_slice(b".edata");
    put_u32(&mut b, sh + 8, 0x50);
    put_u32(&mut b, sh + 12, 0x1000);
    put_u32(&mut b, sh + 16, 0x50);
    put_u32(&mut b, sh + 20, 0x200);
    put_u32(&mut b, 0x200 + 24, 2);
    put_u32(&mut b, 0x200 + 32, 0x1028);
    put_u32(&mut b, 0x228, 0x1030);
    put_u32(&mut b, 0x22c, 0x1040);
    b[0x230..0x234].copy_from_slice(b"Foo\0");
    b[0x240..0x244].copy_from_slice(b"Bar\0");
    b
}

fn dll(name: &str, exports: &[&str]) -> LoadedDll {
    LoadedDll::from_exports(
        format!("C:\\dlls\\{name}"),
        name.to_string(),
        exports.iter().map(|s| s.to_string()).collect(),
    )
}

#[test]
fn reads_the_export_names() {
    assert_eq!(read_exports("x.dll", pe_with_exports(0x10b)).unwrap(), vec!["Foo", "Bar"]);
}

#[test]
fn reads_pe32_plus_too() {
    assert_eq!(read_exports("x.dll", pe_with_exports(0x20b)).unwrap(), vec!["Foo", "Bar"]);
}

#[test]
fn not_a_pe_file() {
    let mut b = pe_with_exports(0x10b);
    put_u32(&mut b, 0x40, 0x1234);
    match read_exports("x.dll", b) {
        Err(LinkerError::InvalidFormat(m)) => assert_eq!(m, "x.dll: not a PE file"),
        _ => panic!("expected an InvalidFormat error"),
    }
}

#[test]
fn unknown_magic() {
    match read_exports("y.dll", pe_with_exports(0x999)) {
        Err(LinkerError::InvalidFormat(m)) => assert_eq!(m, "y.dll: unknown optional header magic 0x0999"),
        _ => panic!("expected an InvalidFormat error"),
    }
}

#[test]
fn export_directory_outside_every_section() {
    let mut b = pe_with_exports(0x10b);
    put_u32(&mut b, 0x58 + 96, 0x5000);
    match read_exports("z.dll", b) {
        Err(LinkerError::InvalidFormat(m)) => {
            assert_eq!(m, "z.dll: export directory RVA 0x00005000 not found in sections")
        }
        _ => panic!("expected an InvalidFormat error"),
    }
}

#[test]
fn name_table_outside_every_section() {
    let mut b = pe_with_exports(0x10b);
    put_u32(&mut b, 0x200 + 32, 0x9000);
    match read_exports("z.dll", b) {
        Err(LinkerError::InvalidFormat(m)) => assert_eq!(m, "z.dll: name pointer table RVA not found"),
        _ => panic!("expected an InvalidFormat error"),
    }
}

#[test]
fn no_exports() {
    let mut b = pe_with_exports(0x10b);
    put_u32(&mut b, 0x58 + 96 + 4, 0);
    assert!(read_exports("x.dll", b).unwrap().is_empty());
    let mut c = pe_with_exports(0x10b);
    put_u32(&mut c, 0x200 + 24, 0);
    assert!(read_exports("x.dll", c).unwrap().is_empty());
}

#[test]
fn a_name_outside_every_section_is_passed_over() {
    let mut b = pe_with_exports(0x10b);
    put_u32(&mut b, 0x228, 0x7000);
    assert_eq!(read_exports("x.dll", b).unwrap(), vec!["Bar"]);
}

#[test]
fn truncated_files_are_io_errors() {
    assert!(matches!(read_exports("x.dll", vec![0; 10]), Err(LinkerError::Io(_))));
    let mut b = pe_with_exports(0x10b);
    b.truncate(0x242);
    assert!(matches!(read_exports("x.dll", b), Err(LinkerError::Io(_))));
}

#[test]
fn loads_a_dll() {
    let d = load_dll("C:/dlls/mylib.dll", pe_with_exports(0x10b)).unwrap();
    assert_eq!(d.path, "C:/dlls/mylib.dll");
    assert_eq!(d.name, "mylib.dll");
    assert_eq!(d.export_count(), 2);
    assert_eq!(d.exports_sorted(), vec!["Bar", "Foo"]);
    assert!(load_dll("C:/dlls/bad.dll", vec![1, 2, 3]).is_none());
}

#[test]
fn exports_are_kept_once_and_sorted() {
    let d = dll("k.dll", &["b", "a", "b", "B", "ab"]);
    assert_eq!(d.export_count(), 4);
    assert_eq!(d.exports_sorted(), vec!["B", "a", "ab", "b"]);
}

#[test]
fn text_order() {
    assert!(str_lt("B", "a"));
    assert!(str_lt("a", "ab"));
    assert!(!str_lt("ab", "ab"));
    assert!(!str_lt("b", "ab"));
    assert!(str_lt("", "a"));
}

#[test]
fn rva_lookup_uses_the_first_section_that_holds_it() {
    let secs = [(0x1000, 0x100, 0x400), (0x1080, 0x100, 0x900)];
    assert_eq!(rva_to_offset(0x1000, &secs), Some(0x400));
    assert_eq!(rva_to_offset(0x1090, &secs), Some(0x490));
    assert_eq!(rva_to_offset(0x1150, &secs), Some(0x9D0));
    assert_eq!(rva_to_offset(0x1180, &secs), None);
    assert_eq!(rva_to_offset(0x0fff, &secs), None);
}

#[test]
fn finds_the_exact_name_first() {
    let dlls = [dll("a.dll", &["printf"]), dll("b.dll", &["_printf", "printf"])];
    let (name, base) = try_find_dll("_printf", &dlls).unwrap();
    assert_eq!(name, "_printf");
    assert_eq!(base, "b.dll");
    let (name, base) = try_find_dll("printf", &dlls).unwrap();
    assert_eq!(name, "printf");
    assert_eq!(base, "a.dll");
}

#[test]
fn strips_decoration() {
    let dlls = [dll("kernel32.dll", &["ExitProcess", "Sleep"])];
    let (name, base) = try_find_dll("_ExitProcess@4", &dlls).unwrap();
    assert_eq!(name, "ExitProcess");
    assert_eq!(base, "kernel32.dll");
    let (name, _) = try_find_dll("__Sleep", &dlls).unwrap();
    assert_eq!(name, "Sleep");
    assert!(try_find_dll("_Beep@8", &dlls).is_none());
}

#[test]
fn the_cut_name_itself_is_tried_before_underscores_go() {
    let dlls = [dll("m.dll", &["_f", "f"])];
    let (name, _) = try_find_dll("_f@12", &dlls).unwrap();
    assert_eq!(name, "_f");
}

#[test]
fn a_plain_file_name_is_the_dll_name() {
    let d = load_dll("mylib.dll", pe_with_exports(0x10b)).unwrap();
    assert_eq!(d.path, "mylib.dll");
    assert_eq!(d.name, "mylib.dll");
}

#[test]
fn a_drive_letter_path_loads_under_its_file_name() {
    let path = r"C:\Windows\System32\kernel32.dll";
    let d = load_dll(path, pe_with_exports(0x10b)).unwrap();
    assert_eq!(d.path, path);
    assert!(d.name.ends_with("kernel32.dll"));
    assert!(path.ends_with(d.name.as_str()));
    assert_eq!(d.export_count(), 2);
}

#[test]
fn a_relative_path_loads_under_its_base_name() {
    let d = load_dll("dlls/mylib.dll", pe_with_exports(0x10b)).unwrap();
    assert_eq!(d.name, "mylib.dll");
    assert!(!d.name.contains('/'));
}
