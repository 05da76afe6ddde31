# rslinker

A linker for 32-bit Windows (x86): it reads COFF object files (`.obj`) and writes
a PE executable (`.exe`), resolving the functions that no object defines against
the export tables of DLLs.

```
rslinker [-dll DLL] [-out FILE] <obj_file>...
```

`-out` names the output (`a.exe` by default); each `-dll` adds a DLL to search
after the system's `kernel32.dll`, `msvcrt.dll` and `user32.dll`.

## Layout

The library under `src/` is verified with Verus: Verus checks every function in
it, and every public function states in `requires` / `ensures` what it needs and
what it returns, over a mathematical model of its data. Laws that span several
functions stand as public proof functions (`law_*`).

- `binary_io`: little-endian reads from a byte source and writes to a byte sink.
- `coff`: the object file format: file header, section headers, symbols,
  relocations, string table, and the parser of a whole object file.
- `pe`: the executable format: DOS header, PE header, optional header, sections,
  and the bytes of the whole image.
- `linker`: options; merging the object sections into PE sections and laying
  them out; the symbol table; the export tables of DLLs; the imports (the
  `.dlljmp` stubs and the `.idata` section); relocations; the header values of
  the output.

`app/` holds the program around the library: argument handling, file reads and
writes, and functions that print the linker's tables.
