//! DLL export tables, read straight from the PE file (so DLLs of any bitness can be
//! searched), and the search for the DLL that exports a function.
use vstd::prelude::*;

use crate::binary_io::{can_read, le_u16_at, le_u32_at, ByteReader, ReadExt};
use crate::error::{LinkerError, Result};
use crate::text::{
    char_is_alphanumeric, chars_of, is_ascii_alnum, first_zero_from, hex_string, hex_text, is_alphanumeric,
    latin1, owned, push_char, str_eq, string_from_chars,
};

verus! {

// ---------------------------------------------------------------------------
// Loaded DLLs
// ---------------------------------------------------------------------------

/// A DLL and the names of the functions it exports.
pub struct LoadedDll {
    /// Full path (e.g. "C:\\Windows\\System32\\kernel32.dll").
    pub path: String,
    /// Base name (e.g. "kernel32.dll").
    pub name: String,
    exports: Vec<String>,
}

impl LoadedDll {
    /// The exported names, in the order they were first read.
    pub closed spec fn export_list(self) -> Seq<Seq<char>> {
        self.exports@.map_values(|s: String| s@)
    }

    /// The full path, as text.
    pub closed spec fn path_text(self) -> Seq<char> {
        self.path@
    }

    /// The base name, as text.
    pub closed spec fn name_text(self) -> Seq<char> {
        self.name@
    }

    /// No exported name is listed twice.
    pub closed spec fn wf(self) -> bool {
        self.export_list().no_duplicates()
    }

    /// A DLL with the given exports; a name given twice is kept once.
    pub fn from_exports(path: String, name: String, names: Vec<String>) -> (d: LoadedDll)
        ensures
            d.wf(),
            d.path_text() == path@,
            d.name_text() == name@,
            d.export_list() == dedup(name_texts(names@)),
    {
        let ghost nv = name_texts(names@);
        let mut exports: Vec<String> = Vec::new();
        let mut i: usize = 0;
        while i < names.len()
            invariant
                i <= names@.len(),
                nv == name_texts(names@),
                exports@.map_values(|s: String| s@) == dedup(nv.take(i as int)),
                exports@.map_values(|s: String| s@).no_duplicates(),
            decreases names@.len() - i,
        {
            let n = &names[i];
            let ghost before = exports@.map_values(|s: String| s@);
            assert(nv.take(i + 1).drop_last() =~= nv.take(i as int));
            if !contains_name(&exports, n.as_str()) {
                exports.push(n.clone());
                assert(exports@.map_values(|s: String| s@) =~= before.push(n@));
            }
            i = i + 1;
        }
        assert(nv.take(names@.len() as int) =~= nv);
        LoadedDll { path, name, exports }
    }

    /// The number of exported functions.
    pub fn export_count(&self) -> (n: usize)
        ensures
            n == self.export_list().len(),
    {
        self.exports.len()
    }
}

/// `s` with each element kept only at its first occurrence.
pub open spec fn dedup(s: Seq<Seq<char>>) -> Seq<Seq<char>>
    decreases s.len(),
{
    if s.len() == 0 {
        Seq::empty()
    } else {
        let d = dedup(s.drop_last());
        if d.contains(s.last()) {
            d
        } else {
            d.push(s.last())
        }
    }
}

/// Whether `v` holds a string equal to `name`.
pub(crate) fn contains_name(v: &Vec<String>, name: &str) -> (r: bool)
    ensures
        r == v@.map_values(|s: String| s@).contains(name@),
{
    let ghost vv = v@.map_values(|s: String| s@);
    let mut i: usize = 0;
    while i < v.len()
        invariant
            i <= v@.len(),
            vv == v@.map_values(|s: String| s@),
            forall|j: int| 0 <= j < i ==> vv[j] != name@,
        decreases v@.len() - i,
    {
        if str_eq(v[i].as_str(), name) {
            assert(vv[i as int] == name@);
            return true;
        }
        i = i + 1;
    }
    false
}

/// Whether `dll` exports `name`.
fn has_proc(dll: &LoadedDll, name: &str) -> (r: bool)
    ensures
        r == dll.export_list().contains(name@),
{
    contains_name(&dll.exports, name)
}

// ---------------------------------------------------------------------------
// Symbol search
// ---------------------------------------------------------------------------

/// The first DLL (by index, from `i`) that exports `n`.
pub open spec fn first_dll_with(dlls: Seq<LoadedDll>, n: Seq<char>, i: int) -> Option<int>
    decreases dlls.len() - i,
{
    if i >= dlls.len() {
        None
    } else if dlls[i].export_list().contains(n) {
        Some(i)
    } else {
        first_dll_with(dlls, n, i + 1)
    }
}

/// Whether `c` may stand in a plain identifier: alphanumeric or `_`. Among ASCII
/// characters these are the letters, the digits and `_`; beyond ASCII the Unicode
/// tables of `char::is_alphanumeric` decide.
pub open spec fn is_ident_char(c: char) -> bool {
    if (c as u32) < 0x80 {
        is_ascii_alnum(c) || c == '_'
    } else {
        char_is_alphanumeric(c)
    }
}

/// The end of the run of identifier characters of `s` from `i`.
pub open spec fn ident_end(s: Seq<char>, i: int) -> int
    decreases s.len() - i,
{
    if i >= s.len() || !is_ident_char(s[i]) {
        if i >= s.len() {
            s.len() as int
        } else {
            i
        }
    } else {
        ident_end(s, i + 1)
    }
}

/// The end of the run of `_` of `s` from `i`.
pub open spec fn underscore_end(s: Seq<char>, i: int) -> int
    decreases s.len() - i,
{
    if i >= s.len() {
        s.len() as int
    } else if s[i] != '_' {
        i
    } else {
        underscore_end(s, i + 1)
    }
}

/// `name` cut at its first character that is neither alphanumeric nor `_`
/// (`_ExitProcess@4` gives `_ExitProcess`).
pub open spec fn ident_prefix(name: Seq<char>) -> Seq<char> {
    name.take(ident_end(name, 0))
}

/// Tries the names `stripped` without its first `k`, `k + 1`, ... leading underscores
/// (up to all of them), skipping one equal to `name`, against the DLLs in order.
pub open spec fn candidates_search(name: Seq<char>, stripped: Seq<char>, k: int, dlls: Seq<LoadedDll>) -> Option<(Seq<char>, int)>
    decreases underscore_end(stripped, 0) + 1 - k,
{
    if k < 0 || k > underscore_end(stripped, 0) {
        None
    } else {
        let c = stripped.skip(k);
        if c == name {
            candidates_search(name, stripped, k + 1, dlls)
        } else {
            match first_dll_with(dlls, c, 0) {
                Some(d) => Some((c, d)),
                None => candidates_search(name, stripped, k + 1, dlls),
            }
        }
    }
}

/// The name found for `name` and the index of the DLL that exports it: `name` itself
/// in the first DLL exporting it; otherwise the first of the candidates (the name cut
/// at its first character other than alphanumerics and `_`, then with its leading
/// underscores removed one at a time) that some DLL exports.
pub open spec fn find_dll_spec(name: Seq<char>, dlls: Seq<LoadedDll>) -> Option<(Seq<char>, int)> {
    match first_dll_with(dlls, name, 0) {
        Some(d) => Some((name, d)),
        None => candidates_search(name, ident_prefix(name), 0, dlls),
    }
}

/// Whether `i` is the first of `dlls` that exports `n`.
pub open spec fn first_exporter(dlls: Seq<LoadedDll>, n: Seq<char>, i: int) -> bool {
    &&& 0 <= i < dlls.len()
    &&& dlls[i].export_list().contains(n)
    &&& forall|e: int| 0 <= e < i ==> !(#[trigger] dlls[e]).export_list().contains(n)
}

proof fn lemma_first_dll_with(dlls: Seq<LoadedDll>, n: Seq<char>, i: int, from: int)
    requires
        0 <= from <= dlls.len(),
    ensures
        first_exporter(dlls, n, i) && from <= i ==> first_dll_with(dlls, n, from) == Some(i),
        (forall|e: int| from <= e < dlls.len() ==> !(#[trigger] dlls[e]).export_list().contains(n))
            ==> first_dll_with(dlls, n, from) is None,
    decreases dlls.len() - from,
{
    if from < dlls.len() {
        lemma_first_dll_with(dlls, n, i, from + 1);
    }
}

proof fn lemma_candidates_skip(name: Seq<char>, s: Seq<char>, dlls: Seq<LoadedDll>, j: int, k: int)
    requires
        0 <= j <= k <= s.len(),
        forall|x: int| 0 <= x < k ==> s[x] == '_',
        forall|x: int|
            j <= x < k ==> s.skip(x) == name || forall|e: int| 0 <= e < dlls.len() ==> !(
            #[trigger] dlls[e]).export_list().contains(s.skip(x)),
    ensures
        candidates_search(name, s, j, dlls) == candidates_search(name, s, k, dlls),
    decreases k - j,
{
    if j < k {
        lemma_underscores(s, k, 0);
        lemma_first_dll_with(dlls, s.skip(j), 0, 0);
        lemma_candidates_skip(name, s, dlls, j + 1, k);
    }
}

proof fn lemma_underscores(s: Seq<char>, k: int, i: int)
    requires
        0 <= i <= k <= s.len(),
        forall|x: int| 0 <= x < k ==> s[x] == '_',
    ensures
        k <= underscore_end(s, i),
    decreases s.len() - i,
{
    if i < k {
        assert(s[i] == '_');
        lemma_underscores(s, k, i + 1);
    } else {
        lemma_underscore_end_ge(s, i);
    }
}

proof fn lemma_underscore_end_ge(s: Seq<char>, i: int)
    requires
        0 <= i <= s.len(),
    ensures
        i <= underscore_end(s, i),
    decreases s.len() - i,
{
    if i < s.len() && s[i] == '_' {
        lemma_underscore_end_ge(s, i + 1);
    }
}

/// The search for the DLL of `name`: the first DLL exporting `name` itself; failing
/// that, the name cut before its first character that is neither alphanumeric nor
/// `_` (at `cut`), and that with one, two, ... of its leading underscores removed,
/// in that order, skipping a candidate equal to `name`. The first candidate that some
/// DLL exports is found, in the first DLL that exports it.
pub proof fn law_find_dll_order(name: Seq<char>, dlls: Seq<LoadedDll>, cut: int, k: int, i: int)
    requires
        0 <= cut <= name.len(),
        forall|x: int| 0 <= x < cut ==> is_ident_char(#[trigger] name[x]),
        cut == name.len() || !is_ident_char(name[cut]),
        0 <= k <= cut,
        forall|x: int| 0 <= x < k ==> name[x] == '_',
    ensures
        first_exporter(dlls, name, i) ==> find_dll_spec(name, dlls) == Some((name, i)),
        ({
            let s = name.take(cut);
            (forall|e: int| 0 <= e < dlls.len() ==> !(#[trigger] dlls[e]).export_list().contains(name))
                && (forall|x: int|
                0 <= x < k ==> s.skip(x) == name || forall|e: int|
                    0 <= e < dlls.len() ==> !(#[trigger] dlls[e]).export_list().contains(s.skip(x)))
                && s.skip(k) != name && first_exporter(dlls, s.skip(k), i) ==> find_dll_spec(name, dlls) == Some(
                (s.skip(k), i),
            )
        }),
{
    let s = name.take(cut);
    lemma_first_dll_with(dlls, name, i, 0);
    lemma_ident_end(name, cut, 0);
    assert(ident_prefix(name) == s);
    assert forall|x: int| 0 <= x < k implies s[x] == '_' by {}
    lemma_underscores(s, k, 0);
    if (forall|x: int|
        0 <= x < k ==> s.skip(x) == name || forall|e: int|
            0 <= e < dlls.len() ==> !(#[trigger] dlls[e]).export_list().contains(s.skip(x))) {
        lemma_candidates_skip(name, s, dlls, 0, k);
    }
    lemma_first_dll_with(dlls, s.skip(k), i, 0);
}

proof fn lemma_ident_end(name: Seq<char>, cut: int, i: int)
    requires
        0 <= i <= cut <= name.len(),
        forall|x: int| 0 <= x < cut ==> is_ident_char(#[trigger] name[x]),
        cut == name.len() || !is_ident_char(name[cut]),
    ensures
        ident_end(name, i) == cut,
    decreases cut - i,
{
    if i < cut {
        lemma_ident_end(name, cut, i + 1);
    }
}

/// The first DLL that exports `name`, by index.
fn find_in_dlls(dlls: &[LoadedDll], name: &str) -> (r: Option<usize>)
    ensures
        r matches Some(i) ==> first_dll_with(dlls@, name@, 0) == Some(i as int) && i < dlls@.len(),
        r is None ==> first_dll_with(dlls@, name@, 0) is None,
{
    let mut i: usize = 0;
    while i < dlls.len()
        invariant
            i <= dlls@.len(),
            first_dll_with(dlls@, name@, 0) == first_dll_with(dlls@, name@, i as int),
        decreases dlls@.len() - i,
    {
        if has_proc(&dlls[i], name) {
            return Some(i);
        }
        i = i + 1;
    }
    None
}

/// Finds the DLL exporting the function `function_name`.
///
/// Returns the name as the DLL exports it and the DLL's base name. Tried in order:
/// the name itself; the name cut before a suffix such as `@4`; then that with its
/// leading underscores removed one by one (stdcall/cdecl decoration).
pub fn try_find_dll<'a>(function_name: &str, dlls: &'a [LoadedDll]) -> (r: Option<(String, &'a str)>)
    ensures
        r is Some <==> find_dll_spec(function_name@, dlls@) is Some,
        r matches Some((n, d)) ==> (find_dll_spec(function_name@, dlls@) matches Some((fname, i)) && n@
            == fname && 0 <= i < dlls@.len() && d@ == dlls@[i].name_text()),
{
    if let Some(i) = find_in_dlls(dlls, function_name) {
        return Some((owned(function_name), dlls[i].name.as_str()));
    }
    let chars = chars_of(function_name);
    let mut end: usize = 0;
    while end < chars.len() && (is_alphanumeric(chars[end]) || chars[end] == '_')
        invariant
            end <= chars@.len(),
            chars@ == function_name@,
            ident_end(chars@, 0) == ident_end(chars@, end as int),
        decreases chars@.len() - end,
    {
        end = end + 1;
    }
    let mut stripped: Vec<char> = Vec::new();
    let mut i: usize = 0;
    while i < end
        invariant
            i <= end <= chars@.len(),
            stripped@ == chars@.take(i as int),
        decreases end - i,
    {
        stripped.push(chars[i]);
        i = i + 1;
        assert(stripped@ =~= chars@.take(i as int));
    }
    let ghost sv = stripped@;
    assert(sv == ident_prefix(function_name@));
    let mut u: usize = 0;
    while u < stripped.len() && stripped[u] == '_'
        invariant
            u <= stripped@.len(),
            underscore_end(stripped@, 0) == underscore_end(stripped@, u as int),
        decreases stripped@.len() - u,
    {
        u = u + 1;
    }
    let mut k: usize = 0;
    loop
        invariant
            u == underscore_end(sv, 0),
            u <= sv.len(),
            sv == stripped@,
            sv == ident_prefix(function_name@),
            k <= u,
            first_dll_with(dlls@, function_name@, 0) is None,
            candidates_search(function_name@, sv, 0, dlls@) == candidates_search(function_name@, sv, k as int, dlls@),
        ensures
            candidates_search(function_name@, sv, 0, dlls@) is None,
        decreases u - k,
    {
        let mut cand: Vec<char> = Vec::new();
        let mut j: usize = k;
        while j < stripped.len()
            invariant
                k <= j <= stripped@.len(),
                cand@ == stripped@.subrange(k as int, j as int),
            decreases stripped@.len() - j,
        {
            cand.push(stripped[j]);
            j = j + 1;
            assert(cand@ =~= stripped@.subrange(k as int, j as int));
        }
        let alt = string_from_chars(&cand);
        assert(alt@ == sv.skip(k as int));
        if !str_eq(alt.as_str(), function_name) {
            if let Some(d) = find_in_dlls(dlls, alt.as_str()) {
                return Some((alt, dlls[d].name.as_str()));
            }
        }
        if k == u {
            assert(candidates_search(function_name@, sv, k + 1, dlls@) is None);
            break;
        }
        k = k + 1;
    }
    None
}

// ---------------------------------------------------------------------------
// Reading the export table of a PE file
// ---------------------------------------------------------------------------

/// A section as the export reader sees it: (virtual address, size, file offset).
pub type SectionInfo = (u32, u32, u32);

/// The section header at `b`: its virtual address, its size (the size of its raw data,
/// or its virtual size where that is zero) and the file offset of its data.
pub open spec fn section_info_at(d: Seq<u8>, b: int) -> SectionInfo {
    let vs = le_u32_at(d, b + 8);
    let srd = le_u32_at(d, b + 16);
    (le_u32_at(d, b + 12), if srd > 0 { srd } else { vs }, le_u32_at(d, b + 20))
}

/// The `n` section headers of 40 bytes each that start at `base`.
pub open spec fn section_infos(d: Seq<u8>, base: int, n: nat) -> Seq<SectionInfo> {
    Seq::new(n, |k: int| section_info_at(d, base + 40 * k))
}

/// The file offset of `rva` in the first of the sections from `i` on that contains it.
pub open spec fn rva_offset_from(rva: u32, s: Seq<SectionInfo>, i: int) -> Option<int>
    decreases s.len() - i,
{
    if i < 0 || i >= s.len() {
        None
    } else if s[i].0 <= rva && rva < s[i].0 + s[i].1 {
        Some(rva - s[i].0 + s[i].2)
    } else {
        rva_offset_from(rva, s, i + 1)
    }
}

/// The file offset of `rva`: where the first section containing it maps it.
pub open spec fn rva_offset(rva: u32, s: Seq<SectionInfo>) -> Option<int> {
    rva_offset_from(rva, s, 0)
}

/// Converts an RVA to a file offset through the first section that contains it.
pub fn rva_to_offset(rva: u32, sections: &[SectionInfo]) -> (r: Option<u64>)
    ensures
        r matches Some(o) ==> rva_offset(rva, sections@) == Some(o as int) && o <= 2 * 0xffff_ffffu64,
        r is None ==> rva_offset(rva, sections@) is None,
{
    let mut i: usize = 0;
    while i < sections.len()
        invariant
            i <= sections@.len(),
            rva_offset(rva, sections@) == rva_offset_from(rva, sections@, i as int),
        decreases sections@.len() - i,
    {
        let (va, size, ptr) = sections[i];
        if rva >= va && (rva as u64) < va as u64 + size as u64 {
            return Some(rva as u64 - va as u64 + ptr as u64);
        }
        i = i + 1;
    }
    None
}

/// The name stored as a zero-terminated string at `off`, one character per byte;
/// `None` where no zero byte follows before the end.
pub open spec fn name_at(d: Seq<u8>, off: int) -> Option<Seq<char>> {
    let z = first_zero_from(d, off);
    if 0 <= off && z < d.len() {
        Some(latin1(d.subrange(off, z)))
    } else {
        None
    }
}

/// The names that the first `count` entries of the name pointer table at `no` point
/// to, in table order; an entry whose RVA no section holds is passed over. `None`
/// where a name runs past the end of the file.
pub open spec fn export_names(d: Seq<u8>, secs: Seq<SectionInfo>, no: int, count: nat) -> Option<Seq<Seq<char>>>
    decreases count,
{
    if count == 0 {
        Some(Seq::empty())
    } else {
        match export_names(d, secs, no, (count - 1) as nat) {
            None => None,
            Some(l) => match rva_offset(le_u32_at(d, no + 4 * (count - 1)), secs) {
                None => Some(l),
                Some(off) => match name_at(d, off) {
                    None => None,
                    Some(n) => Some(l.push(n)),
                },
            },
        }
    }
}

/// What reading the export table of a file gives.
pub ghost enum ExportsOutcome {
    /// The exported names, in table order.
    Names(Seq<Seq<char>>),
    /// The file ends before a structure that the reader needs.
    Eof,
    /// The file is not a PE file the reader understands; the message says why.
    Invalid(Seq<char>),
}

/// The export table of the PE file `d` (named `path` in messages), PE32 or PE32+.
pub open spec fn exports_outcome(path: Seq<char>, d: Seq<u8>) -> ExportsOutcome {
    if d.len() < 0x40 {
        ExportsOutcome::Eof
    } else {
        let pe = le_u32_at(d, 0x3c) as int;
        if pe + 4 > d.len() {
            ExportsOutcome::Eof
        } else if le_u32_at(d, pe) != 0x4550 {
            ExportsOutcome::Invalid(path + ": not a PE file"@)
        } else if pe + 26 > d.len() {
            ExportsOutcome::Eof
        } else {
            let nsec = le_u16_at(d, pe + 6);
            let soh = le_u16_at(d, pe + 20);
            let opt = pe + 24;
            let magic = le_u16_at(d, opt);
            if magic != 0x10b && magic != 0x20b {
                ExportsOutcome::Invalid(
                    path + ": unknown optional header magic "@ + hex_text(magic as u32, 4),
                )
            } else {
                let dd = opt + if magic == 0x10b { 96int } else { 112int };
                if dd + 8 > d.len() {
                    ExportsOutcome::Eof
                } else {
                    let er = le_u32_at(d, dd);
                    let es = le_u32_at(d, dd + 4);
                    if er == 0 || es == 0 {
                        ExportsOutcome::Names(Seq::empty())
                    } else {
                        exports_from_directory(path, d, section_infos_checked(d, opt + soh, nsec as nat), er)
                    }
                }
            }
        }
    }
}

/// The section table at `base` with `n` entries, or `None` where the file ends inside it.
pub open spec fn section_infos_checked(d: Seq<u8>, base: int, n: nat) -> Option<Seq<SectionInfo>> {
    if n > 0 && base + 40 * n > d.len() {
        None
    } else {
        Some(section_infos(d, base, n))
    }
}

/// The rest of `exports_outcome`, from the section table and the export directory's RVA on.
pub open spec fn exports_from_directory(path: Seq<char>, d: Seq<u8>, secs: Option<Seq<SectionInfo>>, er: u32) -> ExportsOutcome {
    match secs {
        None => ExportsOutcome::Eof,
        Some(secs) => match rva_offset(er, secs) {
            None => ExportsOutcome::Invalid(
                path + ": export directory RVA "@ + hex_text(er, 8) + " not found in sections"@,
            ),
            Some(edo) => if edo + 36 > d.len() {
                ExportsOutcome::Eof
            } else {
                let nn = le_u32_at(d, edo + 24);
                let an = le_u32_at(d, edo + 32);
                if nn == 0 {
                    ExportsOutcome::Names(Seq::empty())
                } else {
                    match rva_offset(an, secs) {
                        None => ExportsOutcome::Invalid(path + ": name pointer table RVA not found"@),
                        Some(no) => if no + 4 * nn > d.len() {
                            ExportsOutcome::Eof
                        } else {
                            match export_names(d, secs, no, nn as nat) {
                                None => ExportsOutcome::Eof,
                                Some(l) => ExportsOutcome::Names(l),
                            }
                        },
                    }
                }
            },
        },
    }
}

/// Reads `n` section headers at the reader's position, keeping what the export
/// reader needs of each.
fn read_section_infos(r: &mut ByteReader, n: u16) -> (res: Result<Vec<SectionInfo>>)
    ensures
        final(r).contents() == old(r).contents(),
        n == 0 || can_read(old(r).contents(), old(r).cursor(), 40 * n) ==> (res matches Ok(v)
            && v@ == section_infos(old(r).contents(), old(r).cursor(), n as nat)),
        n > 0 && !can_read(old(r).contents(), old(r).cursor(), 40 * n) ==> res matches Err(
            LinkerError::Io(_),
        ),
{
    let ghost d = r.contents();
    let ghost base = r.cursor();
    let mut sections: Vec<SectionInfo> = Vec::new();
    let mut k: u16 = 0;
    while k < n
        invariant
            k <= n,
            r.contents() == d,
            base == old(r).cursor(),
            d == old(r).contents(),
            base >= 0,
            r.cursor() == base + 40 * k,
            k > 0 ==> r.cursor() <= d.len(),
            sections@ == section_infos(d, base, k as nat),
        decreases n - k,
    {
        let _name = r.read_bytes(8)?;
        let virtual_size = r.read_u32_le()?;
        let virtual_address = r.read_u32_le()?;
        let size_of_raw_data = r.read_u32_le()?;
        let pointer_to_raw_data = r.read_u32_le()?;
        let _rest = r.read_bytes(16)?;
        let raw_size = if size_of_raw_data > 0 {
            size_of_raw_data
        } else {
            virtual_size
        };
        sections.push((virtual_address, raw_size, pointer_to_raw_data));
        k = k + 1;
        assert(sections@ =~= section_infos(d, base, k as nat));
    }
    Ok(sections)
}

/// Reads a zero-terminated name at the reader's position, one character per byte.
fn read_latin1_cstring(r: &mut ByteReader) -> (res: Result<String>)
    ensures
        final(r).contents() == old(r).contents(),
        name_at(old(r).contents(), old(r).cursor()) matches Some(n) ==> (res matches Ok(s) && s@ == n),
        name_at(old(r).contents(), old(r).cursor()) is None ==> res matches Err(LinkerError::Io(_)),
{
    let ghost d = r.contents();
    let ghost start = r.cursor();
    let mut name = String::new();
    loop
        invariant
            r.contents() == d,
            d == old(r).contents(),
            start == old(r).cursor(),
            0 <= start <= r.cursor(),
            r.cursor() <= d.len() || r.cursor() == start,
            first_zero_from(d, start) == first_zero_from(d, r.cursor()),
            name@ == (if r.cursor() <= d.len() {
                latin1(d.subrange(start, r.cursor()))
            } else {
                Seq::empty()
            }),
        decreases d.len() - r.cursor(),
    {
        let ghost before = r.cursor();
        let b = r.read_u8()?;
        if b == 0 {
            return Ok(name);
        }
        push_char(&mut name, b as char);
        assert(latin1(d.subrange(start, r.cursor())) =~= latin1(d.subrange(start, before)).push(b as char));
    }
}

/// `a` followed by `b`.
fn joined(a: &str, b: &str) -> (s: String)
    ensures
        s@ == a@ + b@,
{
    let mut s = owned(a);
    s.append(b);
    s
}

/// Whether `res` is what a reader of exports gives for `o`.
pub open spec fn exports_result_matches(res: Result<Vec<String>>, o: ExportsOutcome) -> bool {
    match o {
        ExportsOutcome::Names(l) => res matches Ok(v) && v@.map_values(|s: String| s@) == l,
        ExportsOutcome::Eof => res matches Err(LinkerError::Io(_)),
        ExportsOutcome::Invalid(m) => res matches Err(LinkerError::InvalidFormat(s)) && s@ == m,
    }
}

/// Reads the name pointer table of `nn` entries at `no`, then each name it points to.
fn read_export_names(r: &mut ByteReader, secs: &[SectionInfo], no: u64, nn: u32) -> (res: Result<Vec<String>>)
    ensures
        final(r).contents() == old(r).contents(),
        nn > 0 && no + 4 * nn > old(r).contents().len() ==> res matches Err(LinkerError::Io(_)),
        no + 4 * nn <= old(r).contents().len() ==> (export_names(old(r).contents(), secs@, no as int, nn as nat) matches Some(l)
            ==> (res matches Ok(v) && v@.map_values(|s: String| s@) == l)),
        no + 4 * nn <= old(r).contents().len() ==> (export_names(old(r).contents(), secs@, no as int, nn as nat) is None
            ==> res matches Err(LinkerError::Io(_))),
{
    let ghost d = r.contents();
    r.set_position(no)?;
    let mut name_rvas: Vec<u32> = Vec::new();
    let mut i: u32 = 0;
    while i < nn
        invariant
            i <= nn,
            r.contents() == d,
            d == old(r).contents(),
            r.cursor() == no + 4 * i,
            i > 0 ==> r.cursor() <= d.len(),
            name_rvas@.len() == i,
            forall|k: int| 0 <= k < i ==> name_rvas@[k] == le_u32_at(d, no + 4 * k),
        decreases nn - i,
    {
        let v = r.read_u32_le()?;
        name_rvas.push(v);
        i = i + 1;
    }
    let mut exports: Vec<String> = Vec::new();
    let mut j: usize = 0;
    while j < name_rvas.len()
        invariant
            j <= name_rvas@.len(),
            name_rvas@.len() == nn,
            r.contents() == d,
            d == old(r).contents(),
            forall|k: int| 0 <= k < nn ==> name_rvas@[k] == le_u32_at(d, no + 4 * k),
            export_names(d, secs@, no as int, j as nat) == Some(exports@.map_values(|s: String| s@)),
        decreases name_rvas@.len() - j,
    {
        let ghost before = exports@.map_values(|s: String| s@);
        let name_rva = name_rvas[j];
        match rva_to_offset(name_rva, secs) {
            None => {},
            Some(name_offset) => {
                r.set_position(name_offset)?;
                let name = match read_latin1_cstring(r) {
                    Ok(n) => n,
                    Err(e) => {
                        assert(export_names(d, secs@, no as int, (j + 1) as nat) is None);
                        proof {
                            lemma_export_names_stuck(d, secs@, no as int, (j + 1) as nat, nn as nat);
                        }
                        return Err(e);
                    },
                };
                exports.push(name);
                assert(exports@.map_values(|s: String| s@) =~= before.push(name@));
            },
        }
        j = j + 1;
    }
    Ok(exports)
}

/// Once a name runs past the end, so does every longer table.
proof fn lemma_export_names_stuck(d: Seq<u8>, secs: Seq<SectionInfo>, no: int, a: nat, b: nat)
    requires
        a <= b,
        export_names(d, secs, no, a) is None,
    ensures
        export_names(d, secs, no, b) is None,
    decreases b - a,
{
    if a < b {
        lemma_export_names_stuck(d, secs, no, a, (b - 1) as nat);
    }
}

/// Reads the section table at `base`, then the export directory at `er` and the names
/// it lists.
fn read_from_directory(path: &str, r: &mut ByteReader, base: u64, nsec: u16, er: u32) -> (res: Result<Vec<String>>)
    ensures
        final(r).contents() == old(r).contents(),
        exports_result_matches(
            res,
            exports_from_directory(path@, old(r).contents(), section_infos_checked(old(r).contents(), base as int, nsec as nat), er),
        ),
{
    let ghost d = r.contents();
    r.set_position(base)?;
    let sections = read_section_infos(r, nsec)?;
    let export_dir_offset = match rva_to_offset(er, &sections) {
        Some(o) => o,
        None => {
            let mut m = joined(path, ": export directory RVA ");
            let h = hex_string(er, 8);
            m.append(h.as_str());
            m.append(" not found in sections");
            return Err(LinkerError::InvalidFormat(m));
        },
    };
    r.set_position(export_dir_offset)?;
    let _head = r.read_bytes(24)?;
    let number_of_names = r.read_u32_le()?;
    let _address_of_functions = r.read_u32_le()?;
    let address_of_names = r.read_u32_le()?;
    if number_of_names == 0 {
        let v: Vec<String> = Vec::new();
        assert(v@.map_values(|s: String| s@) =~= Seq::<Seq<char>>::empty());
        return Ok(v);
    }
    let names_offset = match rva_to_offset(address_of_names, &sections) {
        Some(o) => o,
        None => {
            return Err(LinkerError::InvalidFormat(joined(path, ": name pointer table RVA not found")));
        },
    };
    read_export_names(r, &sections, names_offset, number_of_names)
}

/// Reads the names that the PE file `data` (PE32 or PE32+) exports; `path` names the
/// file in messages.
pub fn read_exports(path: &str, data: Vec<u8>) -> (res: Result<Vec<String>>)
    ensures
        exports_result_matches(res, exports_outcome(path@, data@)),
{
    let mut r = ByteReader::new(data);
    let ghost d = r.contents();
    r.set_position(0x3c)?;
    let pe_offset = r.read_u32_le()?;
    r.set_position(pe_offset as u64)?;
    let sig = r.read_u32_le()?;
    if sig != 0x0000_4550 {
        return Err(LinkerError::InvalidFormat(joined(path, ": not a PE file")));
    }
    let _machine = r.read_u16_le()?;
    let number_of_sections = r.read_u16_le()?;
    let _time_date_stamp = r.read_u32_le()?;
    let _pointer_to_symbol_table = r.read_u32_le()?;
    let _number_of_symbols = r.read_u32_le()?;
    let size_of_optional_header = r.read_u16_le()?;
    let _characteristics = r.read_u16_le()?;
    let opt_header_offset = r.position()?;
    let magic = r.read_u16_le()?;
    let data_dir_offset: u64 = if magic == 0x010b {
        96
    } else if magic == 0x020b {
        112
    } else {
        let mut m = joined(path, ": unknown optional header magic ");
        let h = hex_string(magic as u32, 4);
        m.append(h.as_str());
        return Err(LinkerError::InvalidFormat(m));
    };
    r.set_position(opt_header_offset + data_dir_offset)?;
    let export_dir_rva = r.read_u32_le()?;
    let export_dir_size = r.read_u32_le()?;
    if export_dir_rva == 0 || export_dir_size == 0 {
        let v: Vec<String> = Vec::new();
        assert(v@.map_values(|s: String| s@) =~= Seq::<Seq<char>>::empty());
        return Ok(v);
    }
    read_from_directory(
        path,
        &mut r,
        opt_header_offset + size_of_optional_header as u64,
        number_of_sections,
        export_dir_rva,
    )
}

// ---------------------------------------------------------------------------
// Loading a DLL
// ---------------------------------------------------------------------------

/// Whether `part` occurs in `whole` as a run of consecutive characters.
pub open spec fn occurs_in(part: Seq<char>, whole: Seq<char>) -> bool {
    exists|i: int| 0 <= i && i + part.len() <= whole.len() && #[trigger] whole.subrange(i, i + part.len()) == part
}

/// Whether `n` is a plain file name: not empty, not `.` or `..`, and without a slash,
/// a backslash or a colon, so that no platform reads a directory, root or drive in it.
pub open spec fn plain_name(n: Seq<char>) -> bool {
    &&& n.len() > 0
    &&& n != seq!['.']
    &&& n != seq!['.', '.']
    &&& forall|i: int| 0 <= i < n.len() ==> #[trigger] n[i] != '/' && n[i] as u32 != 0x5c && n[i] != ':'
}

/// A path separator on some platform: a slash or a backslash.
pub open spec fn is_separator(c: char) -> bool {
    c == '/' || c as u32 == 0x5c
}

/// The characters of `s` after its last slash, backslash or colon (all of `s` where
/// it has none).
pub open spec fn final_run(s: Seq<char>) -> Seq<char>
    decreases s.len(),
{
    if s.len() == 0 {
        s
    } else if is_separator(s.last()) || s.last() == ':' {
        Seq::empty()
    } else {
        final_run(s.drop_last()).push(s.last())
    }
}

/// Whether `path` ends in a file name on every platform: the run after its last
/// slash, backslash or colon is neither empty, `.` nor `..`, and the path does not
/// start with two separators (a network share or device).
pub open spec fn has_final_component(path: Seq<char>) -> bool {
    &&& final_run(path).len() > 0
    &&& final_run(path) != seq!['.']
    &&& final_run(path) != seq!['.', '.']
    &&& !two_leading_separators(path)
}

/// Whether `path` starts with two separators: a network share, or on Windows a
/// verbatim or device path, where a slash may not separate.
pub open spec fn two_leading_separators(path: Seq<char>) -> bool {
    path.len() >= 2 && is_separator(path[0]) && is_separator(path[1])
}

/// Whether the suffix `n` of `path` starts a component: it is the whole path, or
/// the character before it is a separator or a colon.
pub open spec fn starts_component(path: Seq<char>, n: Seq<char>) -> bool {
    n.len() == path.len() || (n.len() < path.len() && (is_separator(path[path.len() - n.len() - 1])
        || path[path.len() - n.len() - 1] == ':'))
}

/// Whether `s` ends with `t`.
pub open spec fn ends_with(s: Seq<char>, t: Seq<char>) -> bool {
    t.len() <= s.len() && s.skip(s.len() - t.len()) == t
}

/// `Path::file_name` of `path`, as text. The documentation promises the final component
/// of the path: a nonempty run of its characters, nothing for an empty path, and a
/// plain file name itself. Where the path ends in a file name on every platform
/// (`has_final_component`), there is a final component; it ends the path and ends in
/// the run after the last separator or colon, and it starts a component. A slash
/// separates on every platform, so no final component holds one (but on Windows in
/// a verbatim path, which starts with two separators). Which of the other
/// characters split the path depends on the platform (Unix splits at slashes only),
/// so no more is said of it.
#[verifier::external_body]
fn path_file_name(path: &str) -> (r: Option<String>)
    ensures
        path@.len() == 0 ==> r is None,
        r matches Some(n) ==> n@.len() > 0 && occurs_in(n@, path@),
        plain_name(path@) ==> r is Some,
        r matches Some(n) ==> (plain_name(path@) ==> n@ == path@),
        has_final_component(path@) ==> r is Some,
        r matches Some(n) ==> (has_final_component(path@) ==> ends_with(path@, n@) && ends_with(n@, final_run(path@))),
        r matches Some(n) ==> (has_final_component(path@) ==> starts_component(path@, n@)),
        r matches Some(n) ==> (!two_leading_separators(path@) ==> !n@.contains('/')),
{
    match std::path::Path::new(path).file_name() {
        Some(n) => Some(n.to_string_lossy().into_owned()),
        None => None,
    }
}

/// The DLL whose file `path` holds `data`, with its export table; `None` where the
/// export table cannot be read or the path names no file.
pub fn load_dll(path: &str, data: Vec<u8>) -> (r: Option<LoadedDll>)
    ensures
        !(exports_outcome(path@, data@) is Names) ==> r is None,
        r matches Some(d) ==> (exports_outcome(path@, data@) matches ExportsOutcome::Names(l) && d.wf()
            && d.export_list() == dedup(l) && d.path_text() == path@ && d.name_text().len() > 0
            && occurs_in(d.name_text(), path@)),
        exports_outcome(path@, data@) is Names && plain_name(path@) ==> (r matches Some(d) && d.name_text() == path@),
        exports_outcome(path@, data@) is Names && has_final_component(path@) ==> r is Some,
        r matches Some(d) ==> (has_final_component(path@) ==> ends_with(path@, d.name_text()) && ends_with(
            d.name_text(),
            final_run(path@),
        ) && starts_component(path@, d.name_text())),
        r matches Some(d) ==> (!two_leading_separators(path@) ==> !d.name_text().contains('/')),
{
    let exports = match read_exports(path, data) {
        Ok(v) => v,
        Err(_) => return None,
    };
    let name = path_file_name(path)?;
    Some(LoadedDll::from_exports(owned(path), name, exports))
}

// ---------------------------------------------------------------------------
// Sorted exports
// ---------------------------------------------------------------------------

/// `a` comes before `b` in the order of `str`: by code point, a proper prefix first.
pub open spec fn text_lt(a: Seq<char>, b: Seq<char>) -> bool
    decreases a.len(),
{
    if a.len() == 0 {
        b.len() > 0
    } else if b.len() == 0 {
        false
    } else if a[0] != b[0] {
        (a[0] as int) < (b[0] as int)
    } else {
        text_lt(a.drop_first(), b.drop_first())
    }
}

proof fn lemma_text_lt_irreflexive(a: Seq<char>)
    ensures
        !text_lt(a, a),
    decreases a.len(),
{
    if a.len() > 0 {
        lemma_text_lt_irreflexive(a.drop_first());
    }
}

proof fn lemma_text_lt_total(a: Seq<char>, b: Seq<char>)
    ensures
        a != b ==> text_lt(a, b) || text_lt(b, a),
        text_lt(a, b) ==> !text_lt(b, a),
    decreases a.len(),
{
    if a.len() > 0 && b.len() > 0 {
        lemma_text_lt_total(a.drop_first(), b.drop_first());
        if a != b && a[0] == b[0] {
            assert(a =~= seq![a[0]] + a.drop_first());
            assert(b =~= seq![b[0]] + b.drop_first());
        }
    } else if a.len() == 0 && b.len() == 0 {
        assert(a =~= b);
    }
}

proof fn lemma_text_lt_transitive(a: Seq<char>, b: Seq<char>, c: Seq<char>)
    requires
        text_lt(a, b),
        text_lt(b, c),
    ensures
        text_lt(a, c),
    decreases a.len(),
{
    if a.len() > 0 && a[0] == b[0] && b[0] == c[0] {
        lemma_text_lt_transitive(a.drop_first(), b.drop_first(), c.drop_first());
    }
}

/// `text_lt` is a strict total order.
pub proof fn lemma_text_lt_order(a: Seq<char>, b: Seq<char>, c: Seq<char>)
    ensures
        !text_lt(a, a),
        text_lt(a, b) ==> !text_lt(b, a),
        a != b ==> text_lt(a, b) || text_lt(b, a),
        text_lt(a, b) && text_lt(b, c) ==> text_lt(a, c),
{
    lemma_text_lt_irreflexive(a);
    lemma_text_lt_total(a, b);
    if text_lt(a, b) && text_lt(b, c) {
        lemma_text_lt_transitive(a, b, c);
    }
}

/// Whether `a` comes before `b` in the order of `str`.
pub fn str_lt(a: &str, b: &str) -> (r: bool)
    ensures
        r == text_lt(a@, b@),
{
    let x = chars_of(a);
    let y = chars_of(b);
    let mut i: usize = 0;
    assert(x@.skip(0) =~= x@);
    assert(y@.skip(0) =~= y@);
    while i < x.len() && i < y.len() && x[i] == y[i]
        invariant
            i <= x@.len(),
            i <= y@.len(),
            x@ == a@,
            y@ == b@,
            text_lt(a@, b@) == text_lt(x@.skip(i as int), y@.skip(i as int)),
        decreases x@.len() - i,
    {
        assert(x@.skip(i as int).drop_first() =~= x@.skip(i + 1));
        assert(y@.skip(i as int).drop_first() =~= y@.skip(i + 1));
        i = i + 1;
    }
    if i == x.len() {
        i < y.len()
    } else if i == y.len() {
        false
    } else {
        x[i] < y[i]
    }
}

/// Whether `s` is in strictly increasing order of `text_lt`.
pub open spec fn strictly_sorted(s: Seq<Seq<char>>) -> bool {
    forall|i: int, j: int| 0 <= i < j < s.len() ==> text_lt(#[trigger] s[i], #[trigger] s[j])
}

/// The texts of `names`.
pub open spec fn name_texts(names: Seq<String>) -> Seq<Seq<char>> {
    names.map_values(|s: String| s@)
}

/// The names `names`, each different, in the order of `str` (by code point).
pub fn sort_names(names: &Vec<String>) -> (v: Vec<&str>)
    requires
        name_texts(names@).no_duplicates(),
    ensures
        v@.len() == names@.len(),
        strictly_sorted(v@.map_values(|s: &str| s@)),
        forall|x: Seq<char>| #![trigger name_texts(names@).contains(x)]
            name_texts(names@).contains(x) <==> v@.map_values(|s: &str| s@).contains(x),
{
    let ghost ev = name_texts(names@);
    let mut out: Vec<&str> = Vec::new();
    let mut i: usize = 0;
    while i < names.len()
        invariant
            i <= names@.len(),
            ev == name_texts(names@),
            ev.no_duplicates(),
            out@.len() == i,
            strictly_sorted(out@.map_values(|s: &str| s@)),
            forall|k: int| 0 <= k < i ==> out@.map_values(|s: &str| s@).contains(#[trigger] ev[k]),
            forall|m: int| 0 <= m < out@.len() ==> ev.take(i as int).contains(#[trigger] out@[m]@),
        decreases names@.len() - i,
    {
        let e: &str = names[i].as_str();
        let ghost ov = out@.map_values(|s: &str| s@);
        assert(e@ == ev[i as int]);
        let mut p: usize = 0;
        while p < out.len() && !str_lt(e, out[p])
            invariant
                p <= out@.len(),
                ov == out@.map_values(|s: &str| s@),
                forall|k: int| 0 <= k < p ==> !text_lt(e@, #[trigger] ov[k]),
            decreases out@.len() - p,
        {
            p = p + 1;
        }
        proof {
            assert forall|k: int| 0 <= k < ov.len() implies ov[k] != e@ by {
                let m = choose|m: int| 0 <= m < i && #[trigger] ev[m] == out@[k]@;
                assert(ev.take(i as int).contains(out@[k]@));
            }
        }
        out.insert(p, e);
        let ghost nv = out@.map_values(|s: &str| s@);
        assert(nv =~= ov.insert(p as int, e@));
        proof {
            assert forall|a: int, b: int| 0 <= a < b < nv.len() implies text_lt(#[trigger] nv[a], #[trigger] nv[b]) by {
                lemma_text_lt_order(nv[a], e@, nv[b]);
                if a < p && b == p {
                    lemma_text_lt_order(e@, ov[a], e@);
                } else if a < p && b > p {
                    lemma_text_lt_order(ov[a], ov[p as int], ov[b - 1]);
                } else if a == p && b > p {
                    lemma_text_lt_order(e@, ov[p as int], ov[b - 1]);
                }
            }
            assert forall|k: int| 0 <= k < i + 1 implies nv.contains(#[trigger] ev[k]) by {
                if k < i {
                    let m = choose|m: int| 0 <= m < ov.len() && ov[m] == ev[k];
                    if m < p {
                        assert(nv[m] == ev[k]);
                    } else {
                        assert(nv[m + 1] == ev[k]);
                    }
                } else {
                    assert(nv[p as int] == ev[k]);
                }
            }
            assert forall|m: int| 0 <= m < out@.len() implies ev.take(i + 1).contains(#[trigger] out@[m]@) by {
                if m == p {
                    assert(ev.take(i + 1)[i as int] == e@);
                } else {
                    let mm = if m < p { m } else { m - 1 };
                    assert(ov[mm] == out@[m]@);
                    let w = choose|w: int| 0 <= w < i && ev.take(i as int)[w] == ov[mm];
                    assert(ev.take(i + 1)[w] == ov[mm]);
                }
            }
        }
        i = i + 1;
    }
    proof {
        assert(ev.take(i as int) =~= ev);
    }
    out
}

impl LoadedDll {
    /// The exported names in the order of `str` (by code point).
    pub fn exports_sorted(&self) -> (v: Vec<&str>)
        requires
            self.wf(),
        ensures
            v@.len() == self.export_list().len(),
            strictly_sorted(v@.map_values(|s: &str| s@)),
            forall|x: Seq<char>| #![trigger self.export_list().contains(x)]
                self.export_list().contains(x) <==> v@.map_values(|s: &str| s@).contains(x),
    {
        assert(name_texts(self.exports@) == self.export_list());
        sort_names(&self.exports)
    }
}

} // verus!
