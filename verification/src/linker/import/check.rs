//! Checking ahead that the arithmetic of adding the imports stays within 32 bits.
use vstd::prelude::*;

use crate::binary_io::align_up;
use crate::linker::dll::LoadedDll;
use crate::linker::options::LinkerOptions;
use crate::linker::section::SectionLayout;
use crate::linker::symbol::SymbolTable;

use super::collect::{dlls_view, holds_plan, listed, plan_wf, texts, Collected, DllImportData, ImportPlan};
use super::dlljmp::{dlljmp_fits, jmp_mem_size, jmp_raw_size};
use super::idata::{
    dir_size, entries_before, hint_bytes, hints_before, idata_end, ilt_size, layout_idata, lemma_hint_bytes_mono,
    lemma_idata_bounds, lemma_sums_mono, names_before,
};
use super::place::{end_va, ends_fit, geometries, max_end_va, next_va_spec, raw_ends_fit, Geometry};
use super::{geometries_after_jmp, iat_map_of, iat_of, idata_base, idata_raw_size, imports_fit};

verus! {

/// Whether inserting `.dlljmp` for `n` stubs keeps every moved quantity in range.
fn dlljmp_fits_check(layout: &SectionLayout, table: &SymbolTable, n: usize, opts: &LinkerOptions) -> (r: bool)
    requires
        layout.obj_section_map.wf(),
        table.wf(),
        opts.file_alignment > 0,
        opts.section_alignment > 0,
    ensures
        r == dlljmp_fits(*layout, table@, n as int, *opts),
{
    let max: u64 = u32::MAX as u64;
    let fa = opts.file_alignment as u64;
    let sa = opts.section_alignment as u64;
    if n as u64 > max / 6 {
        return false;
    }
    let size: u64 = n as u64 * 6;
    assert((size / fa + 1) * fa <= 0x1_0000_0000u64 * 0xffff_ffffu64) by (nonlinear_arith)
        requires
            size / fa + 1 <= 0x1_0000_0000u64,
            fa <= 0xffff_ffffu64,
    ;
    assert((size / sa + 1) * sa <= 0x1_0000_0000u64 * 0xffff_ffffu64) by (nonlinear_arith)
        requires
            size / sa + 1 <= 0x1_0000_0000u64,
            sa <= 0xffff_ffffu64,
    ;
    let raw: u64 = (size / fa + 1) * fa;
    let mem: u64 = (size / sa + 1) * sa;
    assert(raw == jmp_raw_size(n as int, opts.file_alignment));
    assert(mem == jmp_mem_size(n as int, opts.section_alignment));
    if raw > max || mem > max || layout.size_of_code as u64 + raw > max || layout.base_of_data as u64 + mem > max {
        return false;
    }
    let mut i: usize = 0;
    while i < layout.pe_sections.len()
        invariant
            i <= layout.pe_sections@.len(),
            max == u32::MAX,
            raw == jmp_raw_size(n as int, opts.file_alignment),
            mem == jmp_mem_size(n as int, opts.section_alignment),
            raw <= max,
            mem <= max,
            forall|k: int|
                0 <= k < i ==> (#[trigger] layout.pe_sections@[k]).header.pointer_to_raw_data + raw <= u32::MAX
                    && layout.pe_sections@[k].header.virtual_address + mem <= u32::MAX,
        decreases layout.pe_sections@.len() - i,
    {
        let h = &layout.pe_sections[i].header;
        if h.pointer_to_raw_data as u64 + raw > max || h.virtual_address as u64 + mem > max {
            return false;
        }
        i = i + 1;
    }
    layout.obj_section_map.can_shift() && table.can_shift()
}

/// The places of the sections once `.dlljmp` for `n` stubs is in front.
fn geometries_after_jmp_exec(layout: &SectionLayout, table: &SymbolTable, n: usize, opts: &LinkerOptions) -> (g: Vec<Geometry>)
    requires
        n > 0 ==> dlljmp_fits(*layout, table@, n as int, *opts),
        opts.file_alignment > 0,
        opts.section_alignment > 0,
    ensures
        g@ == geometries_after_jmp(*layout, n as int, *opts),
{
    let ghost g0 = geometries(layout.pe_sections@);
    let mut g: Vec<Geometry> = Vec::new();
    let mut raw: u32 = 0;
    let mut mem: u32 = 0;
    if n > 0 {
        let size = (n * 6) as u32;
        raw = (size / opts.file_alignment + 1) * opts.file_alignment;
        mem = (size / opts.section_alignment + 1) * opts.section_alignment;
        g.push((opts.section_alignment, size, layout.size_of_headers, raw));
    }
    let k: usize = if n > 0 { 1 } else { 0 };
    let mut i: usize = 0;
    while i < layout.pe_sections.len()
        invariant
            i <= layout.pe_sections@.len(),
            g0 == geometries(layout.pe_sections@),
            k == (if n > 0 { 1usize } else { 0usize }),
            n > 0 ==> dlljmp_fits(*layout, table@, n as int, *opts),
            n > 0 ==> raw == jmp_raw_size(n as int, opts.file_alignment),
            n > 0 ==> mem == jmp_mem_size(n as int, opts.section_alignment),
            n == 0 ==> raw == 0 && mem == 0,
            g@.len() == i + k,
            n > 0 ==> g@[0] == (opts.section_alignment, (6 * n) as u32, layout.size_of_headers, raw),
            forall|j: int|
                0 <= j < i ==> #[trigger] g@[j + k] == ((g0[j].0 + mem) as u32, g0[j].1, (g0[j].2 + raw) as u32, g0[j].3),
        decreases layout.pe_sections@.len() - i,
    {
        let h = &layout.pe_sections[i].header;
        assert(g0[i as int] == (h.virtual_address, h.virtual_size, h.pointer_to_raw_data, h.size_of_raw_data));
        g.push((h.virtual_address + mem, h.virtual_size, h.pointer_to_raw_data + raw, h.size_of_raw_data));
        i = i + 1;
    }
    proof {
        let target = geometries_after_jmp(*layout, n as int, *opts);
        assert forall|j: int| 0 <= j < target.len() implies g@[j] == target[j] by {
            if n > 0 && j > 0 {
                assert(g@[(j - 1) + 1] == g@[j]);
            } else if n == 0 {
                assert(g@[j + 0] == g@[j]);
            }
        }
        assert(g@ =~= target);
    }
    g
}

/// Whether the end in memory of each place is computed within 32 bits.
fn ends_fit_check(g: &Vec<Geometry>, sa: u32) -> (r: bool)
    requires
        sa > 0,
    ensures
        r == ends_fit(g@, sa),
{
    let max: u64 = u32::MAX as u64;
    let mut i: usize = 0;
    while i < g.len()
        invariant
            sa > 0,
            max == u32::MAX,
            i <= g@.len(),
            forall|k: int| 0 <= k < i ==> (#[trigger] g@[k]).1 + sa - 1 <= u32::MAX && end_va(g@[k].0, g@[k].1, sa) <= u32::MAX,
        decreases g@.len() - i,
    {
        let (va, vs, _, _) = g[i];
        if vs as u64 + sa as u64 - 1 > max {
            return false;
        }
        let rounded = align_up(vs, sa);
        let aligned = if rounded >= sa {
            rounded
        } else {
            sa
        };
        if va as u64 + aligned as u64 > max {
            return false;
        }
        i = i + 1;
    }
    true
}

/// Whether the end in the file of each place with file data is within 32 bits.
fn raw_ends_fit_check(g: &Vec<Geometry>) -> (r: bool)
    ensures
        r == raw_ends_fit(g@),
{
    let mut i: usize = 0;
    while i < g.len()
        invariant
            i <= g@.len(),
            forall|k: int| 0 <= k < i && (#[trigger] g@[k]).2 > 0 ==> g@[k].2 + g@[k].3 <= u32::MAX,
        decreases g@.len() - i,
    {
        let (_, _, ptr, raw) = g[i];
        if ptr > 0 && ptr as u64 + raw as u64 > u32::MAX as u64 {
            return false;
        }
        i = i + 1;
    }
    true
}

/// The virtual address of a section added after the places `g`.
fn next_va_of(g: &Vec<Geometry>, sa: u32) -> (r: u32)
    requires
        sa > 0,
        ends_fit(g@, sa),
    ensures
        r == next_va_spec(g@, sa),
{
    if g.len() == 0 {
        return sa;
    }
    let mut best: u32 = 0;
    let mut i: usize = 0;
    while i < g.len()
        invariant
            sa > 0,
            ends_fit(g@, sa),
            i <= g@.len(),
            i > 0 ==> best == max_end_va(g@, sa, i as int),
        decreases g@.len() - i,
    {
        let (va, vs, _, _) = g[i];
        let rounded = align_up(vs, sa);
        let aligned = if rounded >= sa {
            rounded
        } else {
            sa
        };
        let e = va + aligned;
        assert(e == end_va(g@[i as int].0, g@[i as int].1, sa));
        assert(max_end_va(g@, sa, i + 1) == if e > max_end_va(g@, sa, i as int) {
            e as int
        } else {
            max_end_va(g@, sa, i as int)
        });
        if i == 0 || e > best {
            best = e;
        }
        i = i + 1;
    }
    best
}

/// The RVA just past the contents of `.idata` at `base`, where it is within 32 bits.
fn idata_end_check(dll_data: &Vec<DllImportData>, base: u32) -> (r: Option<u32>)
    ensures
        match r {
            Some(e) => e == idata_end(dlls_view(dll_data@), base as int),
            None => idata_end(dlls_view(dll_data@), base as int) > u32::MAX,
        },
{
    let ghost dl = dlls_view(dll_data@);
    let max: u64 = u32::MAX as u64;
    let n = dll_data.len();
    proof {
        lemma_sums_mono(dl, 0, n as int);
    }
    if n as u64 >= max {
        return None;
    }
    let mut acc: u64 = base as u64 + 20 * (n as u64 + 1);
    if acc > max {
        return None;
    }
    let mut d: usize = 0;
    while d < n
        invariant
            n == dll_data@.len(),
            dl == dlls_view(dll_data@),
            max == u32::MAX,
            d <= n,
            acc <= max,
            acc == base + dir_size(dl) + 8 * entries_before(dl, d as int),
            0 <= hints_before(dl, n as int),
            0 <= names_before(dl, n as int),
        decreases n - d,
    {
        proof {
            lemma_sums_mono(dl, d + 1, n as int);
            lemma_sums_mono(dl, 0, d as int);
            assert(dl[d as int].1 == texts(dll_data@[d as int].functions@));
        }
        let len = dll_data[d].functions.len() as u64;
        if len >= max {
            return None;
        }
        acc = acc + 8 * (len + 1);
        if acc > max {
            return None;
        }
        d = d + 1;
    }
    let mut d: usize = 0;
    while d < n
        invariant
            n == dll_data@.len(),
            dl == dlls_view(dll_data@),
            max == u32::MAX,
            d <= n,
            acc <= max,
            acc == base + dir_size(dl) + 2 * ilt_size(dl) + hints_before(dl, d as int),
            0 <= names_before(dl, n as int),
        decreases n - d,
    {
        let fs = &dll_data[d].functions;
        proof {
            lemma_sums_mono(dl, d + 1, n as int);
            assert(dl[d as int].1 == texts(fs@));
        }
        let mut j: usize = 0;
        while j < fs.len()
            invariant
                n == dll_data@.len(),
                dl == dlls_view(dll_data@),
                max == u32::MAX,
                d < n,
                *fs == dll_data@[d as int].functions,
                dl[d as int].1 == texts(fs@),
                hints_before(dl, d as int + 1) <= hints_before(dl, n as int),
                0 <= names_before(dl, n as int),
                j <= fs@.len(),
                acc <= max,
                acc == base + dir_size(dl) + 2 * ilt_size(dl) + hints_before(dl, d as int) + hint_bytes(
                    dl[d as int].1,
                    j as int,
                ),
            decreases fs@.len() - j,
        {
            proof {
                assert(dl[d as int].1[j as int] == fs@[j as int]@);
                lemma_hint_bytes_mono(dl[d as int].1, j + 1, fs@.len() as int);
            }
            let len = fs[j].as_str().as_bytes().len() as u64;
            if len >= max {
                return None;
            }
            acc = acc + len + 3;
            if acc > max {
                return None;
            }
            j = j + 1;
        }
        d = d + 1;
    }
    let mut d: usize = 0;
    while d < n
        invariant
            n == dll_data@.len(),
            dl == dlls_view(dll_data@),
            max == u32::MAX,
            d <= n,
            acc <= max,
            acc == base + dir_size(dl) + 2 * ilt_size(dl) + hints_before(dl, n as int) + names_before(dl, d as int),
        decreases n - d,
    {
        proof {
            lemma_sums_mono(dl, d + 1, n as int);
        }
        let len = dll_data[d].name.as_str().as_bytes().len() as u64;
        if len >= max {
            return None;
        }
        acc = acc + len + 1;
        if acc > max {
            return None;
        }
        d = d + 1;
    }
    Some(acc as u32)
}

/// Whether the arithmetic of adding the imports of the plan `p` that `c` holds stays
/// within 32 bits.
pub(super) fn imports_fit_check(
    c: &Collected,
    layout: &SectionLayout,
    table: &SymbolTable,
    opts: &LinkerOptions,
    Ghost(p): Ghost<ImportPlan>,
    Ghost(dlls): Ghost<Seq<LoadedDll>>,
) -> (r: bool)
    requires
        layout.obj_section_map.wf(),
        table.wf(),
        opts.file_alignment > 0,
        opts.section_alignment > 0,
        holds_plan(*c, p),
        plan_wf(p, dlls),
    ensures
        r == imports_fit(p, *layout, table@, *opts),
{
    let ghost dl = p.dlls;
    let max: u64 = u32::MAX as u64;
    proof {
        assert(dlls_view(c.dlls@) == dl);
        assert(texts(c.slots@) == p.slots);
    }
    if c.dlls.len() == 0 {
        return true;
    }
    let n = c.slots.len();
    if n > 0 && !dlljmp_fits_check(layout, table, n, opts) {
        return false;
    }
    let sa = opts.section_alignment;
    let g = geometries_after_jmp_exec(layout, table, n, opts);
    if !ends_fit_check(&g, sa) || !raw_ends_fit_check(&g) {
        return false;
    }
    let base = next_va_of(&g, sa);
    let end = match idata_end_check(&c.dlls, base) {
        Some(e) => e,
        None => {
            return false;
        },
    };
    proof {
        lemma_idata_bounds(dl, base as int, 0);
    }
    let size: u64 = (end - base) as u64;
    let fa: u64 = opts.file_alignment as u64;
    assert((size / fa + 1) * fa <= 0x1_0000_0000u64 * 0xffff_ffffu64) by (nonlinear_arith)
        requires
            size / fa + 1 <= 0x1_0000_0000u64,
            fa <= 0xffff_ffffu64,
    ;
    let iraw: u64 = (size / fa + 1) * fa;
    assert(iraw == idata_raw_size(p, *layout, *opts));
    if iraw > max || layout.size_of_initialized_data as u64 + iraw > max {
        return false;
    }
    if n > 0 && sa as u64 + 6 * (n as u64 - 1) > max {
        assert(opts.section_alignment + 6 * (p.slots.len() - 1) > u32::MAX);
        assert(p.slots[n - 1] == p.slots[n - 1]);
        return false;
    }
    let l = layout_idata(&c.dlls, base);
    let iat = iat_map_of(&c.dlls, &l, Ghost(p), Ghost(dlls), base);
    let mut s: usize = 0;
    while s < n
        invariant
            n == c.slots@.len(),
            texts(c.slots@) == p.slots,
            plan_wf(p, dlls),
            p.dlls.len() > 0,
            base == idata_base(p, *layout, *opts),
            max == u32::MAX,
            iat.wf(),
            forall|f: Seq<char>| #[trigger] iat@.contains_key(f) <==> listed(p.dlls, f),
            forall|f: Seq<char>| #[trigger] iat@.contains_key(f) ==> iat@[f] == iat_of(p.dlls, base as int, f),
            s <= n,
            forall|t: int| 0 <= t < s ==> opts.image_base + iat_of(p.dlls, base as int, #[trigger] p.slots[t]) <= u32::MAX,
        decreases n - s,
    {
        let f = &c.slots[s];
        assert(p.slots[s as int] == f@);
        match iat.get(f.as_str()) {
            Some(rva) => {
                if opts.image_base as u64 + *rva as u64 > max {
                    assert(opts.image_base + iat_of(p.dlls, base as int, p.slots[s as int]) > u32::MAX);
                    return false;
                }
            },
            None => {
                assert(false);
            },
        }
        s = s + 1;
    }
    true
}

} // verus!
