//! Resolving symbols against DLL exports, and building the `.dlljmp` and `.idata`
//! sections.
use vstd::prelude::*;

use crate::binary_io::{u32_le, WriteExt};
use crate::coff::object_file::{raw_start, ObjectFile};
use crate::coff::section_header::{ch, SectionHeader};
use crate::error::{LinkerError, Result};
use crate::pe::optional_header::DataDirectory;
use crate::pe::pe_file::PeSection;

use super::dll::LoadedDll;
use super::name_map::NameMap;
use super::options::LinkerOptions;
use super::section::{shifted, PeSectionPosition, SectionLayout};
use super::symbol::SymbolTable;

pub mod check;
pub mod collect;
pub mod dlljmp;
pub mod idata;
pub mod order;
pub mod place;
pub mod readback;

use self::check::imports_fit_check;
use self::collect::{
    collect_imports, dlls_view, holds_plan, lemma_listed_once, lemma_plan_objects_wf, listed, plan_objects,
    plan_wf, texts, Collected, DllImportData, ImportPlan, PlanOutcome,
};
use self::dlljmp::{
    dlljmp_characteristics, dlljmp_fits, fresh_header, insert_dlljmp, jmp_mem_size, jmp_raw_size,
    moved_header,
};
use self::idata::{
    entries_before, lemma_idata_bounds, IdataLayout, dir_size, idata_end, idata_image, ilt_size, iat_rva, layout_holds, layout_idata, write_idata,
    DllTable,
};
use self::place::{
    ends_fit, geometries, next_raw_address, next_raw_spec, next_va_spec, next_virtual_address,
    raw_ends_fit, str_to_name, Geometry,
};

verus! {

/// One imported function.
pub struct ImportEntry {
    pub function_name: String,
    pub iat_rva: u32,
}

/// The functions imported from one DLL.
pub struct ImportDll {
    /// DLL base name (e.g. "kernel32.dll").
    pub name: String,
    pub imports: Vec<ImportEntry>,
}

/// What `build_imports` produces.
pub struct ImportResult {
    /// For display: the imports of each DLL.
    pub dlls: Vec<ImportDll>,
    /// `__imp__Foo` symbol to the RVA of its IAT slot.
    pub imp_symbol_to_iat_rva: NameMap<u32>,
    /// Symbol to the address of its `.dlljmp` stub.
    pub symbol_to_jmp_va: NameMap<u32>,
    /// Data directory entry: Import.
    pub import_dir: DataDirectory,
    /// Data directory entry: IAT.
    pub iat_dir: DataDirectory,
}

// ---------------------------------------------------------------------------
// What adding the imports does
// ---------------------------------------------------------------------------

/// The IAT RVA of function `f` of the table `dl` laid out at `base`.
pub open spec fn iat_of(dl: DllTable, base: int, f: Seq<char>) -> int {
    let (d, j) = choose|d: int, j: int| 0 <= d < dl.len() && 0 <= j < dl[d].1.len() && #[trigger] dl[d].1[j] == f;
    iat_rva(dl, base, d) + 4 * j
}

/// The stubs of the first `k` slots: `FF 25` and the address of the function's IAT slot.
pub open spec fn stub_bytes(slots: Seq<Seq<char>>, dl: DllTable, base: int, image_base: u32, k: int) -> Seq<u8>
    decreases k,
{
    if k <= 0 {
        Seq::empty()
    } else {
        stub_bytes(slots, dl, base, image_base, k - 1) + seq![0xFFu8, 0x25u8] + u32_le(
            (image_base + iat_of(dl, base, slots[k - 1])) as u32,
        )
    }
}

/// The places of the sections once `.dlljmp` for `n` stubs is in front (if `n > 0`).
pub open spec fn geometries_after_jmp(layout: SectionLayout, n: int, opts: LinkerOptions) -> Seq<Geometry> {
    let g0 = geometries(layout.pe_sections@);
    let raw = jmp_raw_size(n, opts.file_alignment);
    let mem = jmp_mem_size(n, opts.section_alignment);
    if n > 0 {
        seq![(opts.section_alignment, (6 * n) as u32, layout.size_of_headers, raw as u32)] + g0.map_values(
            |g: Geometry| ((g.0 + mem) as u32, g.1, (g.2 + raw) as u32, g.3),
        )
    } else {
        g0
    }
}

/// The virtual address of `.idata`.
pub open spec fn idata_base(p: ImportPlan, layout: SectionLayout, opts: LinkerOptions) -> int {
    next_va_spec(geometries_after_jmp(layout, p.slots.len() as int, opts), opts.section_alignment)
}

/// The file size of `.idata`: one file-alignment unit more than the whole units its
/// bytes fill.
pub open spec fn idata_raw_size(p: ImportPlan, layout: SectionLayout, opts: LinkerOptions) -> int {
    let base = idata_base(p, layout, opts);
    ((idata_end(p.dlls, base) - base) / (opts.file_alignment as int) + 1) * opts.file_alignment
}

/// The characteristics of `.idata`: initialized data, readable, writable.
pub open spec fn idata_characteristics() -> u32 {
    ch::CONTAINS_INITIALIZED_DATA | ch::CAN_READ | ch::CAN_WRITE
}

/// Whether the arithmetic of adding the imports of `p` stays within 32 bits (and the
/// moved section indices within `usize`): beyond that the image cannot be addressed.
pub open spec fn imports_fit(p: ImportPlan, layout: SectionLayout, table: Map<Seq<char>, PeSectionPosition>, opts: LinkerOptions) -> bool {
    let n = p.slots.len() as int;
    let g1 = geometries_after_jmp(layout, n, opts);
    let base = idata_base(p, layout, opts);
    p.dlls.len() > 0 ==> {
        &&& n > 0 ==> dlljmp_fits(layout, table, n, opts)
        &&& ends_fit(g1, opts.section_alignment)
        &&& raw_ends_fit(g1)
        &&& idata_end(p.dlls, base) <= u32::MAX
        &&& idata_raw_size(p, layout, opts) <= u32::MAX
        &&& layout.size_of_initialized_data + idata_raw_size(p, layout, opts) <= u32::MAX
        &&& forall|s: int|
            0 <= s < n ==> opts.section_alignment + 6 * s <= u32::MAX && opts.image_base + iat_of(
                p.dlls,
                base,
                #[trigger] p.slots[s],
            ) <= u32::MAX
    }
}

/// Whether `r` is the result of adding the imports of `p`, `.idata` at `base`.
pub open spec fn import_result_holds(r: ImportResult, p: ImportPlan, base: int, opts: LinkerOptions) -> bool {
    let dl = p.dlls;
    &&& r.imp_symbol_to_iat_rva.wf()
    &&& r.symbol_to_jmp_va.wf()
    &&& r.imp_symbol_to_iat_rva@ == p.imp.map_values(|f: Seq<char>| iat_of(dl, base, f) as u32)
    &&& r.symbol_to_jmp_va@ == p.via_jmp.map_values(
        |f: Seq<char>| (opts.section_alignment + 6 * p.slots.index_of(f)) as u32,
    )
    &&& r.dlls@.len() == dl.len()
    &&& forall|d: int|
        0 <= d < dl.len() ==> (#[trigger] r.dlls@[d]).name@ == dl[d].0 && r.dlls@[d].imports@.len()
            == dl[d].1.len()
    &&& forall|d: int, j: int|
        0 <= d < dl.len() && 0 <= j < dl[d].1.len() ==> (#[trigger] r.dlls@[d].imports@[j]).function_name@
            == dl[d].1[j] && r.dlls@[d].imports@[j].iat_rva == iat_rva(dl, base, d) + 4 * j
    &&& r.import_dir.virtual_address == base
    &&& r.import_dir.size == idata_end(dl, base) - base
    &&& r.iat_dir.virtual_address == base + dir_size(dl)
    &&& r.iat_dir.size == ilt_size(dl)
}

/// Whether `l2` is `l` with the sections for the imports of `p` added: `.dlljmp` in
/// front when some function is called through a stub (every other section moved
/// after it), and `.idata` last.
pub open spec fn layout_after_imports(l2: SectionLayout, l: SectionLayout, p: ImportPlan, opts: LinkerOptions) -> bool {
    let n = p.slots.len() as int;
    let has = n > 0;
    let k: int = if has { 1 } else { 0 };
    let raw = if has { jmp_raw_size(n, opts.file_alignment) } else { 0 };
    let mem = if has { jmp_mem_size(n, opts.section_alignment) } else { 0 };
    let m = l.pe_sections@.len() as int;
    let dl = p.dlls;
    let base = idata_base(p, l, opts);
    let iraw = idata_raw_size(p, l, opts);
    &&& l2.pe_sections@.len() == m + k + 1
    &&& has ==> fresh_header(
        l2.pe_sections@[0].header,
        ".dlljmp"@,
        6 * n,
        opts.section_alignment as int,
        raw,
        l.size_of_headers as int,
        dlljmp_characteristics(),
    ) && l2.pe_sections@[0].data@ == stub_bytes(p.slots, dl, base, opts.image_base, n)
    &&& forall|j: int|
        k <= j < m + k ==> moved_header((#[trigger] l2.pe_sections@[j]).header, l.pe_sections@[j - k].header, raw, mem)
            && l2.pe_sections@[j].data@ == l.pe_sections@[j - k].data@
    &&& fresh_header(
        l2.pe_sections@[m + k].header,
        ".idata"@,
        idata_end(dl, base) - base,
        base,
        iraw,
        next_raw_spec(geometries_after_jmp(l, n, opts)),
        idata_characteristics(),
    )
    &&& l2.pe_sections@[m + k].data@ == idata_image(dl, base)
    &&& l2.size_of_code == l.size_of_code + raw
    &&& l2.base_of_data == l.base_of_data + mem
    &&& l2.size_of_initialized_data == l.size_of_initialized_data + iraw
    &&& l2.size_of_headers == l.size_of_headers
    &&& l2.size_of_uninitialized_data == l.size_of_uninitialized_data
    &&& l2.base_of_code == l.base_of_code
    &&& l2.obj_section_map.wf()
    &&& l2.obj_section_map@ == (if has {
        l.obj_section_map@.map_values(|q: PeSectionPosition| shifted(q))
    } else {
        l.obj_section_map@
    })
}

// ---------------------------------------------------------------------------
// Helpers of build_imports
// ---------------------------------------------------------------------------

/// Where `f` is listed in `dl` by its first DLL and function, the IAT RVA of that place.
proof fn lemma_iat_of(p: ImportPlan, dlls: Seq<LoadedDll>, base: int, d: int, j: int)
    requires
        plan_wf(p, dlls),
        0 <= d < p.dlls.len(),
        0 <= j < p.dlls[d].1.len(),
    ensures
        iat_of(p.dlls, base, p.dlls[d].1[j]) == iat_rva(p.dlls, base, d) + 4 * j,
{
    let dl = p.dlls;
    let f = dl[d].1[j];
    assert(dl[d].1[j] == f);
    let (e, k) = choose|e: int, k: int| 0 <= e < dl.len() && 0 <= k < dl[e].1.len() && #[trigger] dl[e].1[k] == f;
    lemma_listed_once(p, dlls, d, j, e, k);
}

/// The IAT RVA of every imported function.
fn iat_map_of(
    dll_data: &Vec<DllImportData>,
    l: &IdataLayout,
    Ghost(p): Ghost<ImportPlan>,
    Ghost(dlls): Ghost<Seq<LoadedDll>>,
    base: u32,
) -> (m: NameMap<u32>)
    requires
        plan_wf(p, dlls),
        dlls_view(dll_data@) == p.dlls,
        layout_holds(*l, p.dlls, base as int),
        idata_end(p.dlls, base as int) <= u32::MAX,
    ensures
        m.wf(),
        forall|f: Seq<char>| #[trigger] m@.contains_key(f) <==> listed(p.dlls, f),
        forall|f: Seq<char>| #[trigger] m@.contains_key(f) ==> m@[f] == iat_of(p.dlls, base as int, f),
{
    let ghost dl = p.dlls;
    let mut m: NameMap<u32> = NameMap::new();
    let n = dll_data.len();
    let mut d: usize = 0;
    while d < n
        invariant
            n == dll_data@.len(),
            plan_wf(p, dlls),
            dl == p.dlls,
            dlls_view(dll_data@) == dl,
            layout_holds(*l, dl, base as int),
            idata_end(dl, base as int) <= u32::MAX,
            d <= n,
            m.wf(),
            forall|e: int, k: int|
                0 <= e < d && 0 <= k < dl[e].1.len() ==> m@.contains_key(#[trigger] dl[e].1[k]),
            forall|f: Seq<char>| #[trigger] m@.contains_key(f) ==> listed(dl, f),
            forall|f: Seq<char>| #[trigger] m@.contains_key(f) ==> m@[f] == iat_of(dl, base as int, f),
        decreases n - d,
    {
        let fs = &dll_data[d].functions;
        proof {
            lemma_idata_bounds(dl, base as int, d as int);
            assert(dl[d as int].1 == texts(fs@));
        }
        let mut j: usize = 0;
        while j < fs.len()
            invariant
                n == dll_data@.len(),
                plan_wf(p, dlls),
                dl == p.dlls,
                dlls_view(dll_data@) == dl,
                layout_holds(*l, dl, base as int),
                idata_end(dl, base as int) <= u32::MAX,
                d < n,
                *fs == dll_data@[d as int].functions,
                dl[d as int].1 == texts(fs@),
                entries_before(dl, d as int) + dl[d as int].1.len() + 1 <= entries_before(dl, dl.len() as int),
                0 <= entries_before(dl, d as int),
                dir_size(dl) + 2 * ilt_size(dl) <= idata_end(dl, base as int) - base,
                j <= fs@.len(),
                m.wf(),
                forall|e: int, k: int|
                    0 <= e < d && 0 <= k < dl[e].1.len() ==> m@.contains_key(#[trigger] dl[e].1[k]),
                forall|k: int| 0 <= k < j ==> m@.contains_key(#[trigger] dl[d as int].1[k]),
                forall|f: Seq<char>| #[trigger] m@.contains_key(f) ==> listed(dl, f),
                forall|f: Seq<char>| #[trigger] m@.contains_key(f) ==> m@[f] == iat_of(dl, base as int, f),
            decreases fs@.len() - j,
        {
            proof {
                assert(dl[d as int].1[j as int] == fs@[j as int]@);
                lemma_iat_of(p, dlls, base as int, d as int, j as int);
            }
            let v: u32 = l.iat[d] + (j as u32) * 4;
            m.insert(fs[j].clone(), v);
            j = j + 1;
        }
        d = d + 1;
    }
    proof {
        assert forall|f: Seq<char>| listed(dl, f) implies #[trigger] m@.contains_key(f) by {
            let (e, k) = choose|e: int, k: int| 0 <= e < dl.len() && 0 <= k < dl[e].1.len() && #[trigger] dl[e].1[k] == f;
        }
    }
    m
}

/// The IAT RVA of each `__imp__` symbol's function.
fn imp_map_of(
    imp: &NameMap<String>,
    iat: &NameMap<u32>,
    Ghost(p): Ghost<ImportPlan>,
    Ghost(base): Ghost<int>,
) -> (m: NameMap<u32>)
    requires
        imp.wf(),
        iat.wf(),
        imp@.map_values(|s: String| s@) == p.imp,
        forall|s: Seq<char>| #[trigger] p.imp.contains_key(s) ==> listed(p.dlls, p.imp[s]),
        forall|f: Seq<char>| #[trigger] iat@.contains_key(f) <==> listed(p.dlls, f),
        forall|f: Seq<char>| #[trigger] iat@.contains_key(f) ==> iat@[f] == iat_of(p.dlls, base, f),
    ensures
        m.wf(),
        m@ == p.imp.map_values(|f: Seq<char>| iat_of(p.dlls, base, f) as u32),
{
    let ghost target = p.imp.map_values(|f: Seq<char>| iat_of(p.dlls, base, f) as u32);
    let keys = imp.keys();
    let mut m: NameMap<u32> = NameMap::new();
    let mut i: usize = 0;
    while i < keys.len()
        invariant
            imp.wf(),
            iat.wf(),
            imp@.map_values(|s: String| s@) == p.imp,
            forall|s: Seq<char>| #[trigger] p.imp.contains_key(s) ==> listed(p.dlls, p.imp[s]),
            forall|f: Seq<char>| #[trigger] iat@.contains_key(f) <==> listed(p.dlls, f),
            forall|f: Seq<char>| #[trigger] iat@.contains_key(f) ==> iat@[f] == iat_of(p.dlls, base, f),
            target == p.imp.map_values(|f: Seq<char>| iat_of(p.dlls, base, f) as u32),
            forall|t: int| 0 <= t < keys@.len() ==> imp@.contains_key((#[trigger] keys@[t])@),
            i <= keys@.len(),
            m.wf(),
            forall|k: Seq<char>| #[trigger] m@.contains_key(k) ==> target.contains_key(k) && m@[k] == target[k],
            forall|t: int| 0 <= t < i ==> m@.contains_key((#[trigger] keys@[t])@),
        decreases keys@.len() - i,
    {
        let key = &keys[i];
        assert(imp@.contains_key(key@));
        let func = match imp.get(key.as_str()) {
            Some(r) => r,
            None => {
                assert(false);
                i = i + 1;
                continue;
            },
        };
        assert(p.imp.contains_key(key@) && p.imp[key@] == func@);
        match iat.get(func.as_str()) {
            Some(v) => {
                m.insert(key.clone(), *v);
            },
            None => {
                assert(false);
            },
        }
        i = i + 1;
    }
    proof {
        assert forall|k: Seq<char>| target.contains_key(k) implies #[trigger] m@.contains_key(k) by {
            assert(imp@.contains_key(k));
            let t = choose|t: int| 0 <= t < keys@.len() && (#[trigger] keys@[t])@ == k;
        }
        assert(m@ =~= target);
    }
    m
}

/// The position of `name` in `v`, if it is there.
fn position_of(v: &Vec<String>, name: &str) -> (r: Option<usize>)
    ensures
        r matches Some(i) ==> i < v@.len() && v@[i as int]@ == name@,
        r is None ==> !texts(v@).contains(name@),
{
    let mut i: usize = 0;
    while i < v.len()
        invariant
            i <= v@.len(),
            forall|k: int| 0 <= k < i ==> (#[trigger] v@[k])@ != name@,
        decreases v@.len() - i,
    {
        if crate::text::str_eq(v[i].as_str(), name) {
            return Some(i);
        }
        i = i + 1;
    }
    proof {
        assert forall|k: int| 0 <= k < texts(v@).len() implies texts(v@)[k] != name@ by {
            assert(texts(v@)[k] == v@[k]@);
        }
    }
    None
}

/// The address of the stub of each symbol called through `.dlljmp`.
fn jmp_map_of(
    via_jmp: &NameMap<String>,
    slots: &Vec<String>,
    sa: u32,
    Ghost(p): Ghost<ImportPlan>,
) -> (m: NameMap<u32>)
    requires
        via_jmp.wf(),
        via_jmp@.map_values(|s: String| s@) == p.via_jmp,
        texts(slots@) == p.slots,
        p.slots.no_duplicates(),
        forall|s: Seq<char>| #[trigger] p.via_jmp.contains_key(s) ==> p.slots.contains(p.via_jmp[s]),
        p.slots.len() > 0 ==> sa + 6 * (p.slots.len() - 1) <= u32::MAX,
    ensures
        m.wf(),
        m@ == p.via_jmp.map_values(|f: Seq<char>| (sa + 6 * p.slots.index_of(f)) as u32),
{
    let ghost target = p.via_jmp.map_values(|f: Seq<char>| (sa + 6 * p.slots.index_of(f)) as u32);
    let keys = via_jmp.keys();
    let mut m: NameMap<u32> = NameMap::new();
    let mut i: usize = 0;
    while i < keys.len()
        invariant
            via_jmp.wf(),
            via_jmp@.map_values(|s: String| s@) == p.via_jmp,
            texts(slots@) == p.slots,
            p.slots.no_duplicates(),
            forall|s: Seq<char>| #[trigger] p.via_jmp.contains_key(s) ==> p.slots.contains(p.via_jmp[s]),
            p.slots.len() > 0 ==> sa + 6 * (p.slots.len() - 1) <= u32::MAX,
            target == p.via_jmp.map_values(|f: Seq<char>| (sa + 6 * p.slots.index_of(f)) as u32),
            forall|t: int| 0 <= t < keys@.len() ==> via_jmp@.contains_key((#[trigger] keys@[t])@),
            i <= keys@.len(),
            m.wf(),
            forall|k: Seq<char>| #[trigger] m@.contains_key(k) ==> target.contains_key(k) && m@[k] == target[k],
            forall|t: int| 0 <= t < i ==> m@.contains_key((#[trigger] keys@[t])@),
        decreases keys@.len() - i,
    {
        let key = &keys[i];
        assert(via_jmp@.contains_key(key@));
        let func = match via_jmp.get(key.as_str()) {
            Some(r) => r,
            None => {
                assert(false);
                i = i + 1;
                continue;
            },
        };
        assert(p.via_jmp.contains_key(key@) && p.via_jmp[key@] == func@);
        match position_of(slots, func.as_str()) {
            Some(slot) => {
                proof {
                    assert(p.slots[slot as int] == func@);
                    let w = p.slots.index_of(func@);
                    assert(p.slots.contains(func@));
                    assert(p.slots[w] == func@);
                    if w != slot as int {
                        assert(p.slots[w] != p.slots[slot as int]);
                    }
                }
                m.insert(key.clone(), sa + (slot as u32) * 6);
            },
            None => {
                assert(false);
            },
        }
        i = i + 1;
    }
    proof {
        assert forall|k: Seq<char>| target.contains_key(k) implies #[trigger] m@.contains_key(k) by {
            assert(via_jmp@.contains_key(k));
            let t = choose|t: int| 0 <= t < keys@.len() && (#[trigger] keys@[t])@ == k;
        }
        assert(m@ =~= target);
    }
    m
}

/// The stubs of all slots.
fn stub_data(
    slots: &Vec<String>,
    iat: &NameMap<u32>,
    image_base: u32,
    Ghost(p): Ghost<ImportPlan>,
    Ghost(base): Ghost<int>,
) -> (v: Vec<u8>)
    requires
        iat.wf(),
        texts(slots@) == p.slots,
        forall|s: int| 0 <= s < p.slots.len() ==> listed(p.dlls, #[trigger] p.slots[s]),
        forall|f: Seq<char>| #[trigger] iat@.contains_key(f) <==> listed(p.dlls, f),
        forall|f: Seq<char>| #[trigger] iat@.contains_key(f) ==> iat@[f] == iat_of(p.dlls, base, f),
        forall|s: int|
            0 <= s < p.slots.len() ==> image_base + iat_of(p.dlls, base, #[trigger] p.slots[s]) <= u32::MAX,
    ensures
        v@ == stub_bytes(p.slots, p.dlls, base, image_base, p.slots.len() as int),
{
    let mut v: Vec<u8> = Vec::new();
    let mut s: usize = 0;
    while s < slots.len()
        invariant
            iat.wf(),
            texts(slots@) == p.slots,
            forall|s: int| 0 <= s < p.slots.len() ==> listed(p.dlls, #[trigger] p.slots[s]),
            forall|f: Seq<char>| #[trigger] iat@.contains_key(f) <==> listed(p.dlls, f),
            forall|f: Seq<char>| #[trigger] iat@.contains_key(f) ==> iat@[f] == iat_of(p.dlls, base, f),
            forall|s: int|
                0 <= s < p.slots.len() ==> image_base + iat_of(p.dlls, base, #[trigger] p.slots[s]) <= u32::MAX,
            s <= slots@.len(),
            v@ == stub_bytes(p.slots, p.dlls, base, image_base, s as int),
        decreases slots@.len() - s,
    {
        let f = &slots[s];
        assert(p.slots[s as int] == f@);
        match iat.get(f.as_str()) {
            Some(rva) => {
                v.write_u8(0xFF);
                v.write_u8(0x25);
                v.write_u32_le(image_base + *rva);
            },
            None => {
                assert(false);
            },
        }
        s = s + 1;
        assert(v@ =~= stub_bytes(p.slots, p.dlls, base, image_base, s as int));
    }
    v
}

/// The imports of each DLL, for display.
fn result_dlls(dll_data: &Vec<DllImportData>, l: &IdataLayout, Ghost(dl): Ghost<DllTable>, Ghost(base): Ghost<int>) -> (r: Vec<ImportDll>)
    requires
        dlls_view(dll_data@) == dl,
        layout_holds(*l, dl, base),
        idata_end(dl, base) <= u32::MAX,
    ensures
        r@.len() == dl.len(),
        forall|d: int|
            0 <= d < dl.len() ==> (#[trigger] r@[d]).name@ == dl[d].0 && r@[d].imports@.len() == dl[d].1.len(),
        forall|d: int, j: int|
            0 <= d < dl.len() && 0 <= j < dl[d].1.len() ==> (#[trigger] r@[d].imports@[j]).function_name@
                == dl[d].1[j] && r@[d].imports@[j].iat_rva == iat_rva(dl, base, d) + 4 * j,
{
    let mut r: Vec<ImportDll> = Vec::new();
    let n = dll_data.len();
    let mut d: usize = 0;
    while d < n
        invariant
            n == dll_data@.len(),
            dlls_view(dll_data@) == dl,
            layout_holds(*l, dl, base),
            idata_end(dl, base) <= u32::MAX,
            d <= n,
            r@.len() == d,
            forall|e: int|
                0 <= e < d ==> (#[trigger] r@[e]).name@ == dl[e].0 && r@[e].imports@.len() == dl[e].1.len(),
            forall|e: int, j: int|
                0 <= e < d && 0 <= j < dl[e].1.len() ==> (#[trigger] r@[e].imports@[j]).function_name@
                    == dl[e].1[j] && r@[e].imports@[j].iat_rva == iat_rva(dl, base, e) + 4 * j,
        decreases n - d,
    {
        let fs = &dll_data[d].functions;
        proof {
            lemma_idata_bounds(dl, base, d as int);
            assert(dl[d as int].1 == texts(fs@));
            assert(dl[d as int].0 == dll_data@[d as int].name@);
        }
        let mut imports: Vec<ImportEntry> = Vec::new();
        let mut j: usize = 0;
        while j < fs.len()
            invariant
                n == dll_data@.len(),
                dlls_view(dll_data@) == dl,
                layout_holds(*l, dl, base),
                idata_end(dl, base) <= u32::MAX,
                d < n,
                *fs == dll_data@[d as int].functions,
                dl[d as int].1 == texts(fs@),
                entries_before(dl, d as int) + dl[d as int].1.len() + 1 <= entries_before(dl, dl.len() as int),
                0 <= entries_before(dl, d as int),
                dir_size(dl) + 2 * ilt_size(dl) <= idata_end(dl, base) - base,
                j <= fs@.len(),
                imports@.len() == j,
                forall|k: int|
                    0 <= k < j ==> (#[trigger] imports@[k]).function_name@ == dl[d as int].1[k]
                        && imports@[k].iat_rva == iat_rva(dl, base, d as int) + 4 * k,
            decreases fs@.len() - j,
        {
            proof {
                assert(dl[d as int].1[j as int] == fs@[j as int]@);
            }
            imports.push(ImportEntry { function_name: fs[j].clone(), iat_rva: l.iat[d] + (j as u32) * 4 });
            j = j + 1;
        }
        r.push(ImportDll { name: dll_data[d].name.clone(), imports });
        d = d + 1;
    }
    r
}


// ---------------------------------------------------------------------------
// build_imports
// ---------------------------------------------------------------------------

/// Whether `l1` is `l0` with `.dlljmp` for `n` stubs put in front (empty stubs yet),
/// or `l0` itself when `n` is zero.
pub open spec fn jmp_placed(l1: SectionLayout, l0: SectionLayout, n: int, opts: LinkerOptions) -> bool {
    let has = n > 0;
    let k: int = if has { 1 } else { 0 };
    let raw = if has { jmp_raw_size(n, opts.file_alignment) } else { 0 };
    let mem = if has { jmp_mem_size(n, opts.section_alignment) } else { 0 };
    let m = l0.pe_sections@.len() as int;
    &&& l1.pe_sections@.len() == m + k
    &&& has ==> fresh_header(
        l1.pe_sections@[0].header,
        ".dlljmp"@,
        6 * n,
        opts.section_alignment as int,
        raw,
        l0.size_of_headers as int,
        dlljmp_characteristics(),
    )
    &&& forall|j: int|
        k <= j < m + k ==> moved_header((#[trigger] l1.pe_sections@[j]).header, l0.pe_sections@[j - k].header, raw, mem)
            && l1.pe_sections@[j].data@ == l0.pe_sections@[j - k].data@
    &&& l1.size_of_code == l0.size_of_code + raw
    &&& l1.base_of_data == l0.base_of_data + mem
    &&& l1.size_of_initialized_data == l0.size_of_initialized_data
    &&& l1.size_of_headers == l0.size_of_headers
    &&& l1.size_of_uninitialized_data == l0.size_of_uninitialized_data
    &&& l1.base_of_code == l0.base_of_code
    &&& l1.obj_section_map.wf()
    &&& l1.obj_section_map@ == (if has {
        l0.obj_section_map@.map_values(|q: PeSectionPosition| shifted(q))
    } else {
        l0.obj_section_map@
    })
}

/// Puts `.dlljmp` in front when there are stubs, and gives the address of `.idata`.
fn place_dlljmp(
    layout: &mut SectionLayout,
    symbol_table: &mut SymbolTable,
    num_stubs: usize,
    opts: &LinkerOptions,
    Ghost(p): Ghost<ImportPlan>,
) -> (idata_va: u32)
    requires
        old(layout).obj_section_map.wf(),
        old(symbol_table).wf(),
        opts.file_alignment > 0,
        opts.section_alignment > 0,
        p.slots.len() == num_stubs,
        p.dlls.len() > 0,
        imports_fit(p, *old(layout), old(symbol_table)@, *opts),
    ensures
        jmp_placed(*final(layout), *old(layout), num_stubs as int, *opts),
        geometries(final(layout).pe_sections@) == geometries_after_jmp(*old(layout), num_stubs as int, *opts),
        idata_va == idata_base(p, *old(layout), *opts),
        final(symbol_table).wf(),
        final(symbol_table)@ == (if num_stubs > 0 {
            old(symbol_table)@.map_values(|q: PeSectionPosition| shifted(q))
        } else {
            old(symbol_table)@
        }),
{
    let ghost l0 = *layout;
    if num_stubs > 0 {
        insert_dlljmp(layout, symbol_table, num_stubs, opts);
    }
    proof {
        let g1 = geometries_after_jmp(l0, num_stubs as int, *opts);
        if num_stubs > 0 {
            assert forall|i: int| 0 <= i < g1.len() implies geometries(layout.pe_sections@)[i] == g1[i] by {
                if i > 0 {
                    assert(moved_header(
                        layout.pe_sections@[(i - 1) + 1].header,
                        l0.pe_sections@[i - 1].header,
                        jmp_raw_size(num_stubs as int, opts.file_alignment),
                        jmp_mem_size(num_stubs as int, opts.section_alignment),
                    ));
                }
            }
        } else {
            assert forall|j: int| 0 <= j < l0.pe_sections@.len() implies moved_header(
                (#[trigger] layout.pe_sections@[j]).header,
                l0.pe_sections@[j - 0].header,
                0,
                0,
            ) by {}
        }
        if num_stubs > 0 {
            let raw = jmp_raw_size(num_stubs as int, opts.file_alignment);
            let mem = jmp_mem_size(num_stubs as int, opts.section_alignment);
            assert forall|j: int| 1 <= j < l0.pe_sections@.len() + 1 implies moved_header(
                (#[trigger] layout.pe_sections@[j]).header,
                l0.pe_sections@[j - 1].header,
                raw,
                mem,
            ) && layout.pe_sections@[j].data@ == l0.pe_sections@[j - 1].data@ by {
                assert(layout.pe_sections@[(j - 1) + 1] == layout.pe_sections@[j]);
            }
        }
        assert(geometries(layout.pe_sections@) =~= g1);
    }
    next_virtual_address(&layout.pe_sections, opts)
}

/// Replaces the data of the first section (the stubs of `.dlljmp`).
fn set_first_data(sections: &mut Vec<PeSection>, data: Vec<u8>)
    requires
        old(sections)@.len() > 0,
    ensures
        final(sections)@.len() == old(sections)@.len(),
        final(sections)@[0].header == old(sections)@[0].header,
        final(sections)@[0].data@ == data@,
        forall|i: int| 0 < i < old(sections)@.len() ==> #[trigger] final(sections)@[i] == old(sections)@[i],
{
    let mut first = sections.remove(0);
    first.data = data;
    sections.insert(0, first);
}

/// The maps from symbols to IAT slots and stubs, and the stub bytes.
fn import_maps(
    c: &Collected,
    l: &IdataLayout,
    idata_va: u32,
    opts: &LinkerOptions,
    Ghost(p): Ghost<ImportPlan>,
    Ghost(dlls): Ghost<Seq<LoadedDll>>,
    Ghost(l0): Ghost<SectionLayout>,
    Ghost(table): Ghost<Map<Seq<char>, PeSectionPosition>>,
) -> (r: (NameMap<u32>, NameMap<u32>, Vec<u8>))
    requires
        holds_plan(*c, p),
        plan_wf(p, dlls),
        p.dlls.len() > 0,
        imports_fit(p, l0, table, *opts),
        idata_va == idata_base(p, l0, *opts),
        layout_holds(*l, p.dlls, idata_va as int),
    ensures
        r.0.wf(),
        r.0@ == p.imp.map_values(|f: Seq<char>| iat_of(p.dlls, idata_va as int, f) as u32),
        r.1.wf(),
        r.1@ == p.via_jmp.map_values(|f: Seq<char>| (opts.section_alignment + 6 * p.slots.index_of(f)) as u32),
        r.2@ == stub_bytes(p.slots, p.dlls, idata_va as int, opts.image_base, p.slots.len() as int),
{
    let ghost base = idata_va as int;
    proof {
        assert(dlls_view(c.dlls@) == p.dlls);
    }
    let iat = iat_map_of(&c.dlls, l, Ghost(p), Ghost(dlls), idata_va);
    let imp = imp_map_of(&c.imp, &iat, Ghost(p), Ghost(base));
    proof {
        if p.slots.len() > 0 {
            let w = p.slots[p.slots.len() - 1];
        }
    }
    let jmp = jmp_map_of(&c.via_jmp, &c.slots, opts.section_alignment, Ghost(p));
    let stubs = stub_data(&c.slots, &iat, opts.image_base, Ghost(p), Ghost(base));
    (imp, jmp, stubs)
}

/// Puts the stubs into `.dlljmp` (when there are stubs) and appends `.idata`.
fn finish_sections(
    layout: &mut SectionLayout,
    stubs: Vec<u8>,
    idata: PeSection,
    idata_raw: u32,
    num_stubs: usize,
)
    requires
        num_stubs > 0 ==> old(layout).pe_sections@.len() > 0,
        old(layout).size_of_initialized_data + idata_raw <= u32::MAX,
    ensures
        final(layout).pe_sections@.len() == old(layout).pe_sections@.len() + 1,
        num_stubs > 0 ==> final(layout).pe_sections@[0].header == old(layout).pe_sections@[0].header
            && final(layout).pe_sections@[0].data@ == stubs@,
        forall|i: int|
            (if num_stubs > 0 { 1int } else { 0int }) <= i < old(layout).pe_sections@.len() ==> #[trigger] final(layout).pe_sections@[i] == old(layout).pe_sections@[i],
        final(layout).pe_sections@[old(layout).pe_sections@.len() as int] == idata,
        final(layout).size_of_initialized_data == old(layout).size_of_initialized_data + idata_raw,
        final(layout).size_of_code == old(layout).size_of_code,
        final(layout).base_of_data == old(layout).base_of_data,
        final(layout).size_of_headers == old(layout).size_of_headers,
        final(layout).size_of_uninitialized_data == old(layout).size_of_uninitialized_data,
        final(layout).base_of_code == old(layout).base_of_code,
        final(layout).obj_section_map == old(layout).obj_section_map,
{
    if num_stubs > 0 {
        set_first_data(&mut layout.pe_sections, stubs);
    }
    layout.pe_sections.push(idata);
    layout.size_of_initialized_data = layout.size_of_initialized_data + idata_raw;
}

/// Putting the pieces together: `.dlljmp` placed, its stubs filled in, `.idata` appended.
proof fn lemma_layout_after(
    l0: SectionLayout,
    l1: SectionLayout,
    l3: SectionLayout,
    p: ImportPlan,
    opts: LinkerOptions,
)
    requires
        jmp_placed(l1, l0, p.slots.len() as int, opts),
        l3.pe_sections@.len() == l1.pe_sections@.len() + 1,
        p.slots.len() > 0 ==> l3.pe_sections@[0].header == l1.pe_sections@[0].header
            && l3.pe_sections@[0].data@ == stub_bytes(
            p.slots,
            p.dlls,
            idata_base(p, l0, opts),
            opts.image_base,
            p.slots.len() as int,
        ),
        forall|i: int|
            (if p.slots.len() > 0 { 1int } else { 0int }) <= i < l1.pe_sections@.len() ==> #[trigger] l3.pe_sections@[i]
                == l1.pe_sections@[i],
        fresh_header(
            l3.pe_sections@[l1.pe_sections@.len() as int].header,
            ".idata"@,
            idata_end(p.dlls, idata_base(p, l0, opts)) - idata_base(p, l0, opts),
            idata_base(p, l0, opts),
            idata_raw_size(p, l0, opts),
            next_raw_spec(geometries_after_jmp(l0, p.slots.len() as int, opts)),
            idata_characteristics(),
        ),
        l3.pe_sections@[l1.pe_sections@.len() as int].data@ == idata_image(p.dlls, idata_base(p, l0, opts)),
        l3.size_of_initialized_data == l1.size_of_initialized_data + idata_raw_size(p, l0, opts),
        l3.size_of_code == l1.size_of_code,
        l3.base_of_data == l1.base_of_data,
        l3.size_of_headers == l1.size_of_headers,
        l3.size_of_uninitialized_data == l1.size_of_uninitialized_data,
        l3.base_of_code == l1.base_of_code,
        l3.obj_section_map == l1.obj_section_map,
    ensures
        layout_after_imports(l3, l0, p, opts),
{
    let n = p.slots.len() as int;
    let k: int = if n > 0 { 1 } else { 0 };
    let m = l0.pe_sections@.len() as int;
    let raw = if n > 0 { jmp_raw_size(n, opts.file_alignment) } else { 0 };
    let mem = if n > 0 { jmp_mem_size(n, opts.section_alignment) } else { 0 };
    assert forall|j: int| k <= j < m + k implies moved_header((#[trigger] l3.pe_sections@[j]).header, l0.pe_sections@[j - k].header, raw, mem)
        && l3.pe_sections@[j].data@ == l0.pe_sections@[j - k].data@ by {
        assert(l3.pe_sections@[j] == l1.pe_sections@[j]);
    }
}

/// Adds `.dlljmp` (if there are stubs) and `.idata` for the plan `p` that `c` holds.
#[verifier::rlimit(100)]
fn add_import_sections(
    layout: &mut SectionLayout,
    symbol_table: &mut SymbolTable,
    c: &Collected,
    opts: &LinkerOptions,
    Ghost(p): Ghost<ImportPlan>,
    Ghost(dlls): Ghost<Seq<LoadedDll>>,
) -> (r: ImportResult)
    requires
        old(layout).obj_section_map.wf(),
        old(symbol_table).wf(),
        opts.file_alignment > 0,
        opts.section_alignment > 0,
        holds_plan(*c, p),
        plan_wf(p, dlls),
        p.dlls.len() > 0,
        imports_fit(p, *old(layout), old(symbol_table)@, *opts),
    ensures
        layout_after_imports(*final(layout), *old(layout), p, *opts),
        import_result_holds(r, p, idata_base(p, *old(layout), *opts), *opts),
        final(symbol_table).wf(),
        final(symbol_table)@ == (if p.slots.len() > 0 {
            old(symbol_table)@.map_values(|q: PeSectionPosition| shifted(q))
        } else {
            old(symbol_table)@
        }),
{
    let ghost dl = p.dlls;
    let ghost l0 = *layout;
    let ghost table = symbol_table@;
    let num_stubs = c.slots.len();
    proof {
        assert(num_stubs == p.slots.len());
        assert(dlls_view(c.dlls@) == dl);
    }
    let idata_va = place_dlljmp(layout, symbol_table, num_stubs, opts, Ghost(p));
    let ghost l1 = *layout;
    let ghost base = idata_va as int;
    proof {
        lemma_idata_bounds(dl, base, 0);
    }
    let l = layout_idata(&c.dlls, idata_va);
    let idata_size = l.end - idata_va;
    let idata_raw = (idata_size / opts.file_alignment + 1) * opts.file_alignment;
    let raw_cursor = next_raw_address(&layout.pe_sections);
    let (imp_symbol_to_iat_rva, symbol_to_jmp_va, stubs) = import_maps(
        c,
        &l,
        idata_va,
        opts,
        Ghost(p),
        Ghost(dlls),
        Ghost(l0),
        Ghost(table),
    );
    let idata_data = write_idata(&c.dlls, &l, idata_va);
    let idata = PeSection {
        header: SectionHeader {
            name: str_to_name(".idata"),
            virtual_size: idata_size,
            virtual_address: idata_va,
            size_of_raw_data: idata_raw,
            pointer_to_raw_data: raw_cursor,
            pointer_to_relocations: 0,
            pointer_to_line_numbers: 0,
            number_of_relocations: 0,
            number_of_line_numbers: 0,
            characteristics: ch::CONTAINS_INITIALIZED_DATA | ch::CAN_READ | ch::CAN_WRITE,
        },
        data: idata_data,
    };
    let ghost idata_header = idata.header;
    let ghost idata_bytes = idata.data@;
    finish_sections(layout, stubs, idata, idata_raw, num_stubs);
    let import_dir = DataDirectory { virtual_address: idata_va, size: idata_size };
    let iat_dir = DataDirectory { virtual_address: idata_va + l.dir_size, size: l.ilt_size };
    let result = result_dlls(&c.dlls, &l, Ghost(dl), Ghost(base));
    proof {
        lemma_layout_after(l0, l1, *layout, p, *opts);
    }
    ImportResult { dlls: result, imp_symbol_to_iat_rva, symbol_to_jmp_va, import_dir, iat_dir }
}

/// Whether `res` is what building the imports of `obj_files` against `dlls` gives,
/// the layout going from `l0` to `l1` and the symbol table from `t0` to `t1`.
pub open spec fn imports_built(
    res: Result<ImportResult>,
    obj_files: Seq<ObjectFile>,
    dlls: Seq<LoadedDll>,
    l0: SectionLayout,
    l1: SectionLayout,
    t0: SymbolTable,
    t1: SymbolTable,
    opts: LinkerOptions,
) -> bool {
    match plan_objects(obj_files, obj_files.len() as int, t0@, dlls) {
        PlanOutcome::Undefined(n) => res matches Err(LinkerError::UndefinedSymbol(s)) && s@ == n && l1 == l0
            && t1 == t0,
        PlanOutcome::Plan(p) => res matches Ok(r) && if p.dlls.len() == 0 {
            &&& l1 == l0
            &&& t1 == t0
            &&& r.dlls@.len() == 0
            &&& r.imp_symbol_to_iat_rva.wf() && r.imp_symbol_to_iat_rva@ == Map::<Seq<char>, u32>::empty()
            &&& r.symbol_to_jmp_va.wf() && r.symbol_to_jmp_va@ == Map::<Seq<char>, u32>::empty()
            &&& r.import_dir.virtual_address == 0 && r.import_dir.size == 0
            &&& r.iat_dir.virtual_address == 0 && r.iat_dir.size == 0
        } else {
            &&& layout_after_imports(l1, l0, p, opts)
            &&& import_result_holds(r, p, idata_base(p, l0, opts), opts)
            &&& t1.wf()
            &&& t1@ == (if p.slots.len() > 0 {
                t0@.map_values(|q: PeSectionPosition| shifted(q))
            } else {
                t0@
            })
        },
    }
}

/// Whether the imports of `obj_files` against `dlls` resolve, but adding them to
/// `layout` would take an address or size beyond 32 bits.
pub open spec fn imports_overflow(
    obj_files: Seq<ObjectFile>,
    dlls: Seq<LoadedDll>,
    layout: SectionLayout,
    table: SymbolTable,
    opts: LinkerOptions,
) -> bool {
    plan_objects(obj_files, obj_files.len() as int, table@, dlls) matches PlanOutcome::Plan(p) && !imports_fit(
        p,
        layout,
        table@,
        opts,
    )
}

/// `build_imports` for any input: the arithmetic is checked first, and where it
/// would go beyond 32 bits the result is `None` and nothing changes.
pub fn try_build_imports(
    obj_files: &[ObjectFile],
    layout: &mut SectionLayout,
    symbol_table: &mut SymbolTable,
    opts: &LinkerOptions,
    dlls: &[LoadedDll],
) -> (res: Option<Result<ImportResult>>)
    requires
        old(layout).obj_section_map.wf(),
        old(symbol_table).wf(),
        opts.file_alignment > 0,
        opts.section_alignment > 0,
        forall|i: int|
            0 <= i < obj_files@.len() ==> raw_start(
                (#[trigger] obj_files@[i]).symbols@,
                obj_files@[i].symbols@.len() as int,
            ) <= usize::MAX,
    ensures
        res is None <==> imports_overflow(obj_files@, dlls@, *old(layout), *old(symbol_table), *opts),
        res is None ==> *final(layout) == *old(layout) && *final(symbol_table) == *old(symbol_table),
        res matches Some(r) ==> imports_built(
            r,
            obj_files@,
            dlls@,
            *old(layout),
            *final(layout),
            *old(symbol_table),
            *final(symbol_table),
            *opts,
        ),
{
    let ghost table = symbol_table@;
    let ghost outcome = plan_objects(obj_files@, obj_files@.len() as int, table, dlls@);
    let c = match collect_imports(obj_files, symbol_table, dlls) {
        Ok(c) => c,
        Err(e) => {
            return Some(Err(e));
        },
    };
    let ghost p = outcome->Plan_0;
    proof {
        lemma_plan_objects_wf(obj_files@, obj_files@.len() as int, table, dlls@);
    }
    if c.dlls.len() == 0 {
        return Some(
            Ok(
                ImportResult {
                    dlls: Vec::new(),
                    imp_symbol_to_iat_rva: NameMap::new(),
                    symbol_to_jmp_va: NameMap::new(),
                    import_dir: DataDirectory::default(),
                    iat_dir: DataDirectory::default(),
                },
            ),
        );
    }
    if !imports_fit_check(&c, layout, symbol_table, opts, Ghost(p), Ghost(dlls@)) {
        return None;
    }
    Some(Ok(add_import_sections(layout, symbol_table, &c, opts, Ghost(p), Ghost(dlls@))))
}

/// Resolves the external symbols that no object file defines against the DLLs and
/// builds the sections that call them.
///
/// An `__imp__` symbol (from `__declspec(dllimport)`) reads the IAT slot of its
/// function; any other is called through a 6-byte stub `FF 25 <IAT slot address>` in
/// a `.dlljmp` section put in front of all others (which therefore move, along with
/// every recorded section position). The `.idata` section goes after all others.
/// A symbol that no DLL exports is an `UndefinedSymbol` error, and nothing changes.
pub fn build_imports(
    obj_files: &[ObjectFile],
    layout: &mut SectionLayout,
    symbol_table: &mut SymbolTable,
    opts: &LinkerOptions,
    dlls: &[LoadedDll],
) -> (res: Result<ImportResult>)
    requires
        old(layout).obj_section_map.wf(),
        old(symbol_table).wf(),
        opts.file_alignment > 0,
        opts.section_alignment > 0,
        forall|i: int|
            0 <= i < obj_files@.len() ==> raw_start(
                (#[trigger] obj_files@[i]).symbols@,
                obj_files@[i].symbols@.len() as int,
            ) <= usize::MAX,
        !imports_overflow(obj_files@, dlls@, *old(layout), *old(symbol_table), *opts),
    ensures
        imports_built(res, obj_files@, dlls@, *old(layout), *final(layout), *old(symbol_table), *final(symbol_table), *opts),
{
    try_build_imports(obj_files, layout, symbol_table, opts, dlls).unwrap()
}

} // verus!
