//! The layout and bytes of the `.idata` section: the import directory, one entry of
//! 20 bytes per DLL and a zero entry; the import lookup tables of all DLLs, each
//! ending in a zero entry; the import address tables, a copy of the lookup tables;
//! the hint/name entries (a zero hint, the name, a zero byte); the DLL names.
use vstd::prelude::*;

use crate::binary_io::{u32_le, zeros};
use crate::pe::pe_file::{write_at, zero_bytes};

use super::collect::{dlls_view, texts, DllImportData};

verus! {

/// The DLLs with the functions imported from each.
pub type DllTable = Seq<(Seq<char>, Seq<Seq<char>>)>;

/// The length of `s` in UTF-8.
pub open spec fn enc_len(s: Seq<char>) -> int {
    vstd::utf8::encode_utf8(s).len() as int
}

/// The lookup-table entries of the first `d` DLLs, terminators included.
pub open spec fn entries_before(dl: DllTable, d: int) -> int
    decreases d,
{
    if d <= 0 {
        0
    } else {
        entries_before(dl, d - 1) + dl[d - 1].1.len() + 1
    }
}

/// The bytes of the hint/name entries of the first `j` names of `fs`.
pub open spec fn hint_bytes(fs: Seq<Seq<char>>, j: int) -> int
    decreases j,
{
    if j <= 0 {
        0
    } else {
        hint_bytes(fs, j - 1) + enc_len(fs[j - 1]) + 3
    }
}

/// The bytes of the hint/name entries of the functions of the first `d` DLLs.
pub open spec fn hints_before(dl: DllTable, d: int) -> int
    decreases d,
{
    if d <= 0 {
        0
    } else {
        hints_before(dl, d - 1) + hint_bytes(dl[d - 1].1, dl[d - 1].1.len() as int)
    }
}

/// The bytes of the names of the first `d` DLLs, each with its zero byte.
pub open spec fn names_before(dl: DllTable, d: int) -> int
    decreases d,
{
    if d <= 0 {
        0
    } else {
        names_before(dl, d - 1) + enc_len(dl[d - 1].0) + 1
    }
}

/// The size of the import directory, its zero entry included.
pub open spec fn dir_size(dl: DllTable) -> int {
    20 * (dl.len() + 1) as int
}

/// The size of all lookup tables together (the same as of all address tables).
pub open spec fn ilt_size(dl: DllTable) -> int {
    4 * entries_before(dl, dl.len() as int)
}

/// The RVA of the lookup table of DLL `d`, the section starting at `base`.
pub open spec fn ilt_rva(dl: DllTable, base: int, d: int) -> int {
    base + dir_size(dl) + 4 * entries_before(dl, d)
}

/// The RVA of the address table of DLL `d`.
pub open spec fn iat_rva(dl: DllTable, base: int, d: int) -> int {
    ilt_rva(dl, base, d) + ilt_size(dl)
}

/// The RVA of the hint/name entry of function `j` of DLL `d`.
pub open spec fn hint_rva(dl: DllTable, base: int, d: int, j: int) -> int {
    base + dir_size(dl) + 2 * ilt_size(dl) + hints_before(dl, d) + hint_bytes(dl[d].1, j)
}

/// The RVA of the name of DLL `d`.
pub open spec fn name_rva(dl: DllTable, base: int, d: int) -> int {
    base + dir_size(dl) + 2 * ilt_size(dl) + hints_before(dl, dl.len() as int) + names_before(dl, d)
}

/// The RVA just past the section's contents.
pub open spec fn idata_end(dl: DllTable, base: int) -> int {
    name_rva(dl, base, dl.len() as int)
}

/// `buf` with `v` written at `off`, little-endian.
pub open spec fn put_u32(buf: Seq<u8>, off: int, v: int) -> Seq<u8> {
    write_at(buf, off, u32_le(v as u32))
}

/// The import directory entries of the first `d` DLLs written into `buf`.
pub open spec fn dir_writes(buf: Seq<u8>, dl: DllTable, base: int, d: int) -> Seq<u8>
    decreases d,
{
    if d <= 0 {
        buf
    } else {
        let b = dir_writes(buf, dl, base, d - 1);
        let at = 20 * (d - 1);
        let b1 = put_u32(b, at, ilt_rva(dl, base, d - 1));
        let b2 = put_u32(b1, at + 4, 0);
        let b3 = put_u32(b2, at + 8, 0);
        let b4 = put_u32(b3, at + 12, name_rva(dl, base, d - 1));
        put_u32(b4, at + 16, iat_rva(dl, base, d - 1))
    }
}

/// The lookup entry, address entry and hint/name entry of the first `j` functions of
/// DLL `d` written into `buf`.
pub open spec fn fn_writes(buf: Seq<u8>, dl: DllTable, base: int, d: int, j: int) -> Seq<u8>
    decreases j,
{
    if j <= 0 {
        buf
    } else {
        let b = fn_writes(buf, dl, base, d, j - 1);
        let h = hint_rva(dl, base, d, j - 1);
        let b1 = put_u32(b, ilt_rva(dl, base, d) - base + 4 * (j - 1), h);
        let b2 = put_u32(b1, iat_rva(dl, base, d) - base + 4 * (j - 1), h);
        write_at(b2, h - base + 2, vstd::utf8::encode_utf8(dl[d].1[j - 1]))
    }
}

/// The function entries and the names of the first `d` DLLs written into `buf`.
pub open spec fn dll_writes(buf: Seq<u8>, dl: DllTable, base: int, d: int) -> Seq<u8>
    decreases d,
{
    if d <= 0 {
        buf
    } else {
        let b = fn_writes(dll_writes(buf, dl, base, d - 1), dl, base, d - 1, dl[d - 1].1.len() as int);
        write_at(b, name_rva(dl, base, d - 1) - base, vstd::utf8::encode_utf8(dl[d - 1].0))
    }
}

/// The bytes of the `.idata` section for `dl`, the section starting at `base`.
pub open spec fn idata_image(dl: DllTable, base: int) -> Seq<u8> {
    let size = idata_end(dl, base) - base;
    let n = dl.len() as int;
    dll_writes(dir_writes(zeros(size as nat), dl, base, n), dl, base, n)
}

pub(crate) proof fn lemma_hint_bytes_mono(fs: Seq<Seq<char>>, j1: int, j2: int)
    requires
        0 <= j1 <= j2,
    ensures
        hint_bytes(fs, j1) + 3 * (j2 - j1) <= hint_bytes(fs, j2),
    decreases j2 - j1,
{
    if j1 < j2 {
        lemma_hint_bytes_mono(fs, j1, j2 - 1);
    }
}

/// The running sums only grow.
pub proof fn lemma_sums_mono(dl: DllTable, d1: int, d2: int)
    requires
        0 <= d1 <= d2,
    ensures
        entries_before(dl, d1) <= entries_before(dl, d2),
        hints_before(dl, d1) <= hints_before(dl, d2),
        names_before(dl, d1) <= names_before(dl, d2),
        d2 <= dl.len() ==> entries_before(dl, d1) + (d2 - d1) <= entries_before(dl, d2),
    decreases d2 - d1,
{
    if d1 < d2 {
        lemma_sums_mono(dl, d1, d2 - 1);
        lemma_hint_bytes_mono(dl[d2 - 1].1, 0, dl[d2 - 1].1.len() as int);
    }
}

/// The RVAs of the parts of the `.idata` section.
pub struct IdataLayout {
    pub dir_size: u32,
    pub ilt_size: u32,
    /// Per DLL: lookup table, address table, name.
    pub ilt: Vec<u32>,
    pub iat: Vec<u32>,
    pub names: Vec<u32>,
    /// Per DLL and function: the hint/name entry.
    pub hints: Vec<Vec<u32>>,
    /// Just past the contents.
    pub end: u32,
}

/// Whether `l` holds the layout of `dl` at `base`.
pub open spec fn layout_holds(l: IdataLayout, dl: DllTable, base: int) -> bool {
    &&& l.dir_size == dir_size(dl)
    &&& l.ilt_size == ilt_size(dl)
    &&& l.end == idata_end(dl, base)
    &&& l.ilt@.len() == dl.len() && l.iat@.len() == dl.len() && l.names@.len() == dl.len()
    &&& l.hints@.len() == dl.len()
    &&& forall|d: int| 0 <= d < dl.len() ==> #[trigger] l.ilt@[d] == ilt_rva(dl, base, d)
    &&& forall|d: int| 0 <= d < dl.len() ==> #[trigger] l.iat@[d] == iat_rva(dl, base, d)
    &&& forall|d: int| 0 <= d < dl.len() ==> #[trigger] l.names@[d] == name_rva(dl, base, d)
    &&& forall|d: int| 0 <= d < dl.len() ==> (#[trigger] l.hints@[d])@.len() == dl[d].1.len()
    &&& forall|d: int, j: int|
        0 <= d < dl.len() && 0 <= j < dl[d].1.len() ==> #[trigger] l.hints@[d]@[j] == hint_rva(dl, base, d, j)
}

/// Lays out the `.idata` section of `dll_data` at `base`.
#[verifier::rlimit(50)]
pub fn layout_idata(dll_data: &Vec<DllImportData>, base: u32) -> (l: IdataLayout)
    requires
        idata_end(dlls_view(dll_data@), base as int) <= u32::MAX,
    ensures
        layout_holds(l, dlls_view(dll_data@), base as int),
{
    let ghost dl = dlls_view(dll_data@);
    let n = dll_data.len();
    proof {
        lemma_sums_mono(dl, 0, n as int);
        lemma_hint_bytes_mono(dl[0].1, 0, 0);
    }
    let dir_sz: u32 = (n as u32 + 1) * 20;
    let mut entries: u32 = 0;
    let mut i: usize = 0;
    while i < n
        invariant
            n == dll_data@.len(),
            dl == dlls_view(dll_data@),
            i <= n,
            entries == entries_before(dl, i as int),
            entries_before(dl, n as int) <= idata_end(dl, base as int),
            idata_end(dl, base as int) <= u32::MAX,
        decreases n - i,
    {
        proof {
            lemma_sums_mono(dl, i + 1, n as int);
        }
        entries = entries + dll_data[i].functions.len() as u32 + 1;
        i = i + 1;
    }
    let ilt_sz: u32 = entries * 4;
    let hint_start: u32 = base + dir_sz + ilt_sz * 2;
    let mut ilt: Vec<u32> = Vec::new();
    let mut iat: Vec<u32> = Vec::new();
    let mut ilt_cursor: u32 = base + dir_sz;
    let mut d: usize = 0;
    while d < n
        invariant
            n == dll_data@.len(),
            dl == dlls_view(dll_data@),
            d <= n,
            dir_sz == dir_size(dl),
            ilt_sz == ilt_size(dl),
            idata_end(dl, base as int) <= u32::MAX,
            ilt_cursor == ilt_rva(dl, base as int, d as int),
            ilt@.len() == d,
            iat@.len() == d,
            forall|e: int| 0 <= e < d ==> #[trigger] ilt@[e] == ilt_rva(dl, base as int, e),
            forall|e: int| 0 <= e < d ==> #[trigger] iat@[e] == iat_rva(dl, base as int, e),
        decreases n - d,
    {
        proof {
            lemma_sums_mono(dl, d + 1, n as int);
            lemma_sums_mono(dl, 0, n as int);
            lemma_hint_bytes_mono(dl[0].1, 0, 0);
        }
        ilt.push(ilt_cursor);
        iat.push(ilt_cursor + ilt_sz);
        ilt_cursor = ilt_cursor + (dll_data[d].functions.len() as u32 + 1) * 4;
        d = d + 1;
    }
    let mut hint: u32 = hint_start;
    let mut hints: Vec<Vec<u32>> = Vec::new();
    let mut d: usize = 0;
    while d < n
        invariant
            n == dll_data@.len(),
            dl == dlls_view(dll_data@),
            d <= n,
            dir_sz == dir_size(dl),
            ilt_sz == ilt_size(dl),
            idata_end(dl, base as int) <= u32::MAX,
            hint == hint_rva(dl, base as int, d as int, 0) || (d == n && hint == name_rva(dl, base as int, 0)),
            hint == base + dir_size(dl) + 2 * ilt_size(dl) + hints_before(dl, d as int),
            hints@.len() == d,
            forall|e: int| 0 <= e < d ==> (#[trigger] hints@[e])@.len() == dl[e].1.len(),
            forall|e: int, j: int|
                0 <= e < d && 0 <= j < dl[e].1.len() ==> #[trigger] hints@[e]@[j] == hint_rva(dl, base as int, e, j),
        decreases n - d,
    {
        let fs = &dll_data[d].functions;
        let mut row: Vec<u32> = Vec::new();
        let mut j: usize = 0;
        while j < fs.len()
            invariant
                n == dll_data@.len(),
                dl == dlls_view(dll_data@),
                d < n,
                *fs == dll_data@[d as int].functions,
                idata_end(dl, base as int) <= u32::MAX,
                j <= fs@.len(),
                hint == hint_rva(dl, base as int, d as int, j as int),
                row@.len() == j,
                forall|k: int| 0 <= k < j ==> #[trigger] row@[k] == hint_rva(dl, base as int, d as int, k),
            decreases fs@.len() - j,
        {
            proof {
                assert(dl[d as int].1 == texts(fs@));
                assert(dl[d as int].1[j as int] == fs@[j as int]@);
                lemma_hint_bytes_mono(dl[d as int].1, j + 1, fs@.len() as int);
                lemma_sums_mono(dl, d + 1, n as int);
                lemma_sums_mono(dl, 0, n as int);
                lemma_hint_bytes_mono(dl[0].1, 0, 0);
            }
            row.push(hint);
            hint = hint + fs[j].as_str().len() as u32 + 3;
            j = j + 1;
        }
        hints.push(row);
        d = d + 1;
    }
    let mut names: Vec<u32> = Vec::new();
    let mut d: usize = 0;
    while d < n
        invariant
            n == dll_data@.len(),
            dl == dlls_view(dll_data@),
            d <= n,
            idata_end(dl, base as int) <= u32::MAX,
            hint == name_rva(dl, base as int, d as int),
            names@.len() == d,
            forall|e: int| 0 <= e < d ==> #[trigger] names@[e] == name_rva(dl, base as int, e),
        decreases n - d,
    {
        proof {
            lemma_sums_mono(dl, d + 1, n as int);
        }
        names.push(hint);
        hint = hint + dll_data[d].name.as_str().len() as u32 + 1;
        d = d + 1;
    }
    IdataLayout { dir_size: dir_sz, ilt_size: ilt_sz, ilt, iat, names, hints, end: hint }
}


/// Writes `value` little-endian over the four bytes at `offset`.
pub fn write_u32(data: &mut Vec<u8>, offset: usize, value: u32)
    requires
        offset + 4 <= old(data)@.len() <= usize::MAX,
    ensures
        final(data)@ == put_u32(old(data)@, offset as int, value as int),
        final(data)@.len() == old(data)@.len(),
{
    data.set(offset, (value % 0x100) as u8);
    data.set(offset + 1, ((value / 0x100) % 0x100) as u8);
    data.set(offset + 2, ((value / 0x1_0000) % 0x100) as u8);
    data.set(offset + 3, (value / 0x100_0000) as u8);
    assert(data@ =~= put_u32(old(data)@, offset as int, value as int));
}

/// Copies `bytes` over the bytes of `data` at `pos`.
pub fn overwrite(data: &mut Vec<u8>, pos: usize, bytes: &[u8])
    requires
        pos + bytes@.len() <= old(data)@.len() <= usize::MAX,
    ensures
        final(data)@ == write_at(old(data)@, pos as int, bytes@),
        final(data)@.len() == old(data)@.len(),
{
    let mut i: usize = 0;
    while i < bytes.len()
        invariant
            pos + bytes@.len() <= old(data)@.len() <= usize::MAX,
            i <= bytes@.len(),
            data@.len() == old(data)@.len(),
            data@ == old(data)@.take(pos as int) + bytes@.take(i as int) + old(data)@.skip(pos + i),
        decreases bytes@.len() - i,
    {
        data.set(pos + i, bytes[i]);
        i = i + 1;
        assert(data@ =~= old(data)@.take(pos as int) + bytes@.take(i as int) + old(data)@.skip(pos + i));
    }
    assert(bytes@.take(i as int) =~= bytes@);
    assert(data@ =~= write_at(old(data)@, pos as int, bytes@));
}

/// The facts about the sizes that the writers need.
pub proof fn lemma_idata_bounds(dl: DllTable, base: int, d: int)
    requires
        0 <= d < dl.len(),
    ensures
        0 <= dir_size(dl),
        20 * d + 20 <= dir_size(dl),
        entries_before(dl, d) + dl[d].1.len() + 1 <= entries_before(dl, dl.len() as int),
        hints_before(dl, d) + hint_bytes(dl[d].1, dl[d].1.len() as int) <= hints_before(dl, dl.len() as int),
        names_before(dl, d) + enc_len(dl[d].0) + 1 <= names_before(dl, dl.len() as int),
        0 <= entries_before(dl, d),
        0 <= hints_before(dl, d),
        0 <= names_before(dl, d),
        0 <= hint_bytes(dl[d].1, 0),
        0 <= hint_bytes(dl[d].1, dl[d].1.len() as int),
        dir_size(dl) + 4 * entries_before(dl, dl.len() as int) <= idata_end(dl, base) - base,
        dir_size(dl) + 2 * ilt_size(dl) + hints_before(dl, dl.len() as int) + names_before(dl, d) + enc_len(dl[d].0) + 1
            <= idata_end(dl, base) - base,
{
    lemma_hint_bytes_mono(dl[d].1, 0, dl[d].1.len() as int);
    lemma_sums_mono(dl, d + 1, dl.len() as int);
    lemma_sums_mono(dl, 0, d);
    lemma_hint_bytes_mono(dl[d].1, 0, 0);
}

/// Writes the import directory entries of all DLLs.
#[verifier::rlimit(50)]
fn write_directory(data: &mut Vec<u8>, l: &IdataLayout, Ghost(dl): Ghost<DllTable>, base: u32)
    requires
        layout_holds(*l, dl, base as int),
        old(data)@.len() == idata_end(dl, base as int) - base,
        idata_end(dl, base as int) <= u32::MAX,
    ensures
        final(data)@ == dir_writes(old(data)@, dl, base as int, dl.len() as int),
        final(data)@.len() == old(data)@.len(),
{
    let n = l.ilt.len();
    let mut d: usize = 0;
    while d < n
        invariant
            n == dl.len(),
            layout_holds(*l, dl, base as int),
            old(data)@.len() == idata_end(dl, base as int) - base,
            idata_end(dl, base as int) <= u32::MAX,
            d <= n,
            data@.len() == old(data)@.len(),
            data@ == dir_writes(old(data)@, dl, base as int, d as int),
        decreases n - d,
    {
        proof {
            lemma_idata_bounds(dl, base as int, d as int);
        }
        let off: usize = d * 20;
        write_u32(data, off, l.ilt[d]);
        write_u32(data, off + 4, 0);
        write_u32(data, off + 8, 0);
        write_u32(data, off + 12, l.names[d]);
        write_u32(data, off + 16, l.iat[d]);
        d = d + 1;
    }
}

/// Writes the lookup, address and hint/name entries of the functions `fs` of DLL `d`.
#[verifier::rlimit(50)]
fn write_functions(data: &mut Vec<u8>, l: &IdataLayout, fs: &Vec<String>, d: usize, Ghost(dl): Ghost<DllTable>, base: u32)
    requires
        layout_holds(*l, dl, base as int),
        old(data)@.len() == idata_end(dl, base as int) - base,
        idata_end(dl, base as int) <= u32::MAX,
        d < dl.len(),
        dl[d as int].1 == texts(fs@),
    ensures
        final(data)@ == fn_writes(old(data)@, dl, base as int, d as int, fs@.len() as int),
        final(data)@.len() == old(data)@.len(),
{
    proof {
        lemma_idata_bounds(dl, base as int, d as int);
    }
    let ilt_off: usize = (l.ilt[d] - base) as usize;
    let iat_off: usize = (l.iat[d] - base) as usize;
    let mut j: usize = 0;
    while j < fs.len()
        invariant
            layout_holds(*l, dl, base as int),
            old(data)@.len() == idata_end(dl, base as int) - base,
            idata_end(dl, base as int) <= u32::MAX,
            d < dl.len(),
            dl[d as int].1 == texts(fs@),
            ilt_off == ilt_rva(dl, base as int, d as int) - base,
            iat_off == iat_rva(dl, base as int, d as int) - base,
            entries_before(dl, d as int) + dl[d as int].1.len() + 1 <= entries_before(dl, dl.len() as int),
            hints_before(dl, d as int) + hint_bytes(dl[d as int].1, dl[d as int].1.len() as int) <= hints_before(dl, dl.len() as int),
            0 <= entries_before(dl, d as int),
            0 <= hints_before(dl, d as int),
            0 <= names_before(dl, dl.len() as int),
            j <= fs@.len(),
            data@.len() == old(data)@.len(),
            data@ == fn_writes(old(data)@, dl, base as int, d as int, j as int),
        decreases fs@.len() - j,
    {
        proof {
            lemma_hint_bytes_mono(dl[d as int].1, j + 1, fs@.len() as int);
            lemma_hint_bytes_mono(dl[d as int].1, 0, j as int);
            assert(dl[d as int].1[j as int] == fs@[j as int]@);
        }
        let h = l.hints[d][j];
        write_u32(data, ilt_off + j * 4, h);
        write_u32(data, iat_off + j * 4, h);
        let hn = (h - base) as usize;
        overwrite(data, hn + 2, fs[j].as_str().as_bytes());
        j = j + 1;
    }
}

/// The bytes of the `.idata` section laid out as `l`.
#[verifier::rlimit(50)]
pub fn write_idata(dll_data: &Vec<DllImportData>, l: &IdataLayout, base: u32) -> (v: Vec<u8>)
    requires
        layout_holds(*l, dlls_view(dll_data@), base as int),
        idata_end(dlls_view(dll_data@), base as int) <= u32::MAX,
    ensures
        v@ == idata_image(dlls_view(dll_data@), base as int),
{
    let ghost dl = dlls_view(dll_data@);
    let n = dll_data.len();
    proof {
        lemma_sums_mono(dl, 0, n as int);
        lemma_hint_bytes_mono(dl[0].1, 0, 0);
    }
    let mut data = zero_bytes((l.end - base) as usize);
    write_directory(&mut data, l, Ghost(dl), base);
    let ghost d0 = data@;
    let mut d: usize = 0;
    while d < n
        invariant
            n == dll_data@.len(),
            dl == dlls_view(dll_data@),
            layout_holds(*l, dl, base as int),
            idata_end(dl, base as int) <= u32::MAX,
            d0 == dir_writes(zeros((idata_end(dl, base as int) - base) as nat), dl, base as int, n as int),
            d <= n,
            data@.len() == idata_end(dl, base as int) - base,
            data@ == dll_writes(d0, dl, base as int, d as int),
        decreases n - d,
    {
        proof {
            lemma_idata_bounds(dl, base as int, d as int);
            assert(dl[d as int].1 == texts(dll_data@[d as int].functions@));
            assert(dl[d as int].0 == dll_data@[d as int].name@);
        }
        write_functions(&mut data, l, &dll_data[d].functions, d, Ghost(dl), base);
        overwrite(&mut data, (l.names[d] - base) as usize, dll_data[d].name.as_str().as_bytes());
        d = d + 1;
    }
    data
}

} // verus!
