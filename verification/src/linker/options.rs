//! Linker options.
use vstd::prelude::*;

use crate::pe::optional_header::subsystem;
use crate::text::owned;

verus! {

pub struct LinkerOptions {
    /// Alignment of sections in memory (at least a page, a power of two).
    pub section_alignment: u32,
    /// Alignment of sections in the file (512 to 65536, a power of two).
    pub file_alignment: u32,
    /// Image base address.
    pub image_base: u32,
    /// Name of the entry point symbol.
    pub entry_point: String,
    /// Output file name.
    pub output_file: String,
    pub subsystem: u16,
    pub stack_reserve: u32,
    pub stack_commit: u32,
    pub heap_reserve: u32,
    pub heap_commit: u32,
    /// DLLs searched for imported functions.
    pub dll_paths: Vec<String>,
}

impl Default for LinkerOptions {
    fn default() -> (o: Self)
        ensures
            o.section_alignment == 0x1000,
            o.file_alignment == 0x200,
            o.image_base == 0x400000,
            o.entry_point@ == "_main"@,
            o.output_file@ == "a.exe"@,
            o.subsystem == subsystem::WINDOWS_CUI,
            o.stack_reserve == 0x200000,
            o.stack_commit == 0x1000,
            o.heap_reserve == 0x100000,
            o.heap_commit == 0x1000,
            o.dll_paths@.len() == 3,
            o.dll_paths@[0]@ == "C:\\Windows\\System32\\kernel32.dll"@,
            o.dll_paths@[1]@ == "C:\\Windows\\System32\\msvcrt.dll"@,
            o.dll_paths@[2]@ == "C:\\Windows\\System32\\user32.dll"@,
    {
        let mut dll_paths: Vec<String> = Vec::new();
        dll_paths.push(owned("C:\\Windows\\System32\\kernel32.dll"));
        dll_paths.push(owned("C:\\Windows\\System32\\msvcrt.dll"));
        dll_paths.push(owned("C:\\Windows\\System32\\user32.dll"));
        Self {
            section_alignment: 0x1000,
            file_alignment: 0x200,
            image_base: 0x400000,
            entry_point: owned("_main"),
            output_file: owned("a.exe"),
            subsystem: subsystem::WINDOWS_CUI,
            stack_reserve: 0x200000,
            stack_commit: 0x1000,
            heap_reserve: 0x100000,
            heap_commit: 0x1000,
            dll_paths,
        }
    }
}

} // verus!
