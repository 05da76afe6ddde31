//! Adding the import sections keeps the sections of the image apart: `.dlljmp`
//! goes between the headers and the first section, and `.idata` after every
//! section, in memory and in the file.
use vstd::prelude::*;

use crate::linker::options::LinkerOptions;
use crate::coff::object_file::ObjectFile;
use crate::linker::dll::LoadedDll;
use crate::linker::section::{
    law_layout_in_order, layout_matches, layout_of, lemma_layout_spread_out, lemma_round_up_ge, merge_objects,
    positions_within, PeSectionPosition, SectionLayout,
};
use crate::linker::symbol::SymbolTable;
use crate::pe::pe_file::PeSection;

use super::collect::{plan_objects, ImportPlan};
use super::dlljmp::{jmp_mem_size, jmp_raw_size};
use super::place::{end_va, max_end_raw, max_end_va, Geometry};
use super::{
    geometries_after_jmp, idata_base, imports_built, imports_fit, imports_overflow, layout_after_imports, ImportResult,
};

verus! {

/// Whether the sections `s` lie after headers of `soh` bytes and one after another
/// without overlapping. In memory each starts after the headers and ends before any
/// later one begins; in the file each with file data starts after the headers and
/// ends before any later one with file data begins.
pub open spec fn sections_apart(s: Seq<PeSection>, soh: u32) -> bool {
    &&& forall|i: int| 0 <= i < s.len() ==> soh < (#[trigger] s[i]).header.virtual_address
    &&& forall|i: int, j: int|
        0 <= i < j < s.len() ==> (#[trigger] s[i]).header.virtual_address + s[i].header.virtual_size
            <= (#[trigger] s[j]).header.virtual_address
    &&& forall|i: int|
        0 <= i < s.len() && (#[trigger] s[i]).header.size_of_raw_data > 0 ==> soh <= s[i].header.pointer_to_raw_data
    &&& forall|i: int, j: int|
        0 <= i < j < s.len() && (#[trigger] s[i]).header.size_of_raw_data > 0
            && (#[trigger] s[j]).header.size_of_raw_data > 0 ==> s[i].header.pointer_to_raw_data
            + s[i].header.size_of_raw_data <= s[j].header.pointer_to_raw_data
}

/// A section ends in memory no later than its size rounded up.
proof fn lemma_end_va_ge(va: u32, vs: u32, sa: u32)
    requires
        sa > 0,
        vs + sa - 1 <= u32::MAX,
    ensures
        va + vs <= end_va(va, vs, sa),
{
    lemma_round_up_ge(vs, (sa - 1) as u32);
}

/// The greatest end in memory is at least the end of each section.
proof fn lemma_max_end_va_ge(g: Seq<Geometry>, sa: u32, k: int, i: int)
    requires
        0 <= i < k <= g.len(),
    ensures
        end_va(g[i].0, g[i].1, sa) <= max_end_va(g, sa, k),
    decreases k,
{
    if i < k - 1 {
        lemma_max_end_va_ge(g, sa, k - 1, i);
    }
}

/// The greatest end in the file is at least the end of each section with a file offset.
proof fn lemma_max_end_raw_ge(g: Seq<Geometry>, k: int, i: int)
    requires
        0 <= i < k <= g.len(),
        g[i].2 > 0,
    ensures
        g[i].2 + g[i].3 <= max_end_raw(g, k),
    decreases k,
{
    if i < k - 1 {
        lemma_max_end_raw_ge(g, k - 1, i);
    }
}

/// A size in whole units plus one unit exceeds the size.
proof fn lemma_units_above(x: int, d: int)
    requires
        0 <= x,
        0 < d,
    ensures
        x < (x / d + 1) * d,
{
    assert(x < (x / d + 1) * d) by (nonlinear_arith)
        requires
            0 <= x,
            0 < d,
    ;
}

/// The places of the sections before `.idata` are those that the imports are laid
/// out around.
proof fn lemma_geometry_after(
    l0: SectionLayout,
    l1: SectionLayout,
    p: ImportPlan,
    table: Map<Seq<char>, PeSectionPosition>,
    opts: LinkerOptions,
    i: int,
)
    requires
        p.dlls.len() > 0,
        imports_fit(p, l0, table, opts),
        layout_after_imports(l1, l0, p, opts),
        0 <= i < l1.pe_sections@.len() - 1,
    ensures
        ({
            let g = geometries_after_jmp(l0, p.slots.len() as int, opts);
            let h = l1.pe_sections@[i].header;
            &&& i < g.len()
            &&& g[i] == (h.virtual_address, h.virtual_size, h.pointer_to_raw_data, h.size_of_raw_data)
        }),
{
    let n = p.slots.len() as int;
    let g = geometries_after_jmp(l0, n, opts);
    let h = l1.pe_sections@[i].header;
    if n > 0 && i > 0 {
        assert(l1.pe_sections@[i] == l1.pe_sections@[i]);
        let h0 = l0.pe_sections@[i - 1].header;
        assert(g[i] == ((h0.virtual_address + jmp_mem_size(n, opts.section_alignment)) as u32, h0.virtual_size, (
        h0.pointer_to_raw_data + jmp_raw_size(n, opts.file_alignment)) as u32, h0.size_of_raw_data));
    } else if n == 0 {
        assert(l1.pe_sections@[i] == l1.pe_sections@[i]);
    }
}

/// Every section before `.idata` ends before it, in memory and in the file.
proof fn lemma_before_idata(
    l0: SectionLayout,
    l1: SectionLayout,
    p: ImportPlan,
    table: Map<Seq<char>, PeSectionPosition>,
    opts: LinkerOptions,
    i: int,
)
    requires
        opts.section_alignment > 0,
        p.dlls.len() > 0,
        imports_fit(p, l0, table, opts),
        layout_after_imports(l1, l0, p, opts),
        0 <= i < l1.pe_sections@.len() - 1,
    ensures
        ({
            let s = l1.pe_sections@;
            let last = s[s.len() - 1].header;
            let h = s[i].header;
            &&& h.virtual_address + h.virtual_size <= last.virtual_address
            &&& h.pointer_to_raw_data > 0 ==> h.pointer_to_raw_data + h.size_of_raw_data <= last.pointer_to_raw_data
        }),
{
    let g = geometries_after_jmp(l0, p.slots.len() as int, opts);
    let sa = opts.section_alignment;
    lemma_geometry_after(l0, l1, p, table, opts, i);
    assert(g.len() == l1.pe_sections@.len() - 1);
    assert(g[i] == g[i]);
    lemma_end_va_ge(g[i].0, g[i].1, sa);
    lemma_max_end_va_ge(g, sa, g.len() as int, i);
    if g[i].2 > 0 {
        lemma_max_end_raw_ge(g, g.len() as int, i);
    }
}

/// Adding the import sections keeps the sections apart (`sections_apart`): `.dlljmp`
/// goes between the headers and the first section, and `.idata` after every section,
/// in memory and in the file. This holds where the headers end before the section
/// alignment, no section starts before it, and some section has file data.
pub proof fn law_imports_keep_sections_apart(
    l0: SectionLayout,
    l1: SectionLayout,
    p: ImportPlan,
    table: Map<Seq<char>, PeSectionPosition>,
    opts: LinkerOptions,
)
    requires
        opts.file_alignment > 0,
        opts.section_alignment > 0,
        0 < l0.size_of_headers < opts.section_alignment,
        sections_apart(l0.pe_sections@, l0.size_of_headers),
        forall|i: int|
            0 <= i < l0.pe_sections@.len() ==> opts.section_alignment <= (
            #[trigger] l0.pe_sections@[i]).header.virtual_address,
        p.slots.len() > 0 || exists|i: int|
            0 <= i < l0.pe_sections@.len() && (#[trigger] l0.pe_sections@[i]).header.size_of_raw_data > 0,
        p.dlls.len() > 0,
        imports_fit(p, l0, table, opts),
        layout_after_imports(l1, l0, p, opts),
    ensures
        sections_apart(l1.pe_sections@, l1.size_of_headers),
{
    let s0 = l0.pe_sections@;
    let s1 = l1.pe_sections@;
    let soh = l0.size_of_headers;
    let sa = opts.section_alignment;
    let fa = opts.file_alignment;
    let n = p.slots.len() as int;
    let k: int = if n > 0 { 1 } else { 0 };
    let m = s0.len() as int;
    let last = m + k;
    let raw = if n > 0 { jmp_raw_size(n, fa) } else { 0 };
    let mem = if n > 0 { jmp_mem_size(n, sa) } else { 0 };
    let base = idata_base(p, l0, opts);
    lemma_units_above(6 * n, sa as int);
    lemma_units_above(6 * n, fa as int);
    lemma_units_above(idata_end_size(p, l0, opts), fa as int);
    assert(s1.len() == last + 1);
    // in memory, after the headers
    assert forall|i: int| 0 <= i < s1.len() implies soh < (#[trigger] s1[i]).header.virtual_address by {
        if i == last {
            if last > 0 {
                lemma_before_idata(l0, l1, p, table, opts, 0);
                if k == 0 {
                    assert(s0[0] == s0[0]);
                }
            }
        } else if i >= k {
            assert(s0[i - k] == s0[i - k]);
        }
    }
    // in memory, one after another
    assert forall|i: int, j: int| 0 <= i < j < s1.len() implies (#[trigger] s1[i]).header.virtual_address
        + s1[i].header.virtual_size <= (#[trigger] s1[j]).header.virtual_address by {
        if j == last {
            lemma_before_idata(l0, l1, p, table, opts, i);
        } else if i < k {
            assert(s0[j - k] == s0[j - k]);
        } else {
            assert(s0[i - k] == s0[i - k] && s0[j - k] == s0[j - k]);
        }
    }
    // in the file, a witness with file data
    let w: int = if n > 0 {
        0
    } else {
        let i0 = choose|i: int| 0 <= i < s0.len() && (#[trigger] s0[i]).header.size_of_raw_data > 0;
        i0
    };
    assert(w < last && s1[w].header.size_of_raw_data > 0 && soh <= s1[w].header.pointer_to_raw_data) by {
        if n == 0 {
            assert(s0[w] == s0[w]);
        }
    }
    lemma_before_idata(l0, l1, p, table, opts, w);
    // in the file, after the headers
    assert forall|i: int| 0 <= i < s1.len() && (#[trigger] s1[i]).header.size_of_raw_data > 0 implies soh
        <= s1[i].header.pointer_to_raw_data by {
        if i < last && i >= k {
            assert(s0[i - k] == s0[i - k]);
        }
    }
    // in the file, one after another
    assert forall|i: int, j: int|
        0 <= i < j < s1.len() && (#[trigger] s1[i]).header.size_of_raw_data > 0
            && (#[trigger] s1[j]).header.size_of_raw_data > 0 implies s1[i].header.pointer_to_raw_data
        + s1[i].header.size_of_raw_data <= s1[j].header.pointer_to_raw_data by {
        if j == last {
            lemma_before_idata(l0, l1, p, table, opts, i);
            if i >= k {
                assert(s0[i - k] == s0[i - k]);
            }
        } else if i < k {
            assert(s0[j - k] == s0[j - k]);
        } else {
            assert(s0[i - k] == s0[i - k] && s0[j - k] == s0[j - k]);
        }
    }
}

/// The size in memory of `.idata`.
spec fn idata_end_size(p: ImportPlan, l0: SectionLayout, opts: LinkerOptions) -> int {
    super::idata::idata_end(p.dlls, idata_base(p, l0, opts)) - idata_base(p, l0, opts)
}

/// Building the imports keeps every recorded position, of an object section or of
/// a symbol, naming one of the sections: the positions move with their sections when
/// `.dlljmp` goes in front.
pub proof fn law_imports_keep_positions(
    objs: Seq<ObjectFile>,
    dlls: Seq<LoadedDll>,
    l0: SectionLayout,
    l1: SectionLayout,
    t0: SymbolTable,
    t1: SymbolTable,
    opts: LinkerOptions,
    r: ImportResult,
)
    requires
        imports_built(Ok(r), objs, dlls, l0, l1, t0, t1, opts),
        positions_within(l0.obj_section_map@, l0.pe_sections@.len() as int),
        positions_within(t0@, l0.pe_sections@.len() as int),
    ensures
        positions_within(l1.obj_section_map@, l1.pe_sections@.len() as int),
        positions_within(t1@, l1.pe_sections@.len() as int),
{
    let p = plan_objects(objs, objs.len() as int, t0@, dlls)->Plan_0;
    if p.dlls.len() > 0 && p.slots.len() > 0 {
        assert forall|k: (usize, Seq<char>)| #[trigger] l1.obj_section_map@.contains_key(k) implies l1.obj_section_map@[k].section_index
            < l1.pe_sections@.len() by {
            assert(l0.obj_section_map@.contains_key(k));
        }
        assert forall|k: Seq<char>| #[trigger] t1@.contains_key(k) implies t1@[k].section_index < l1.pe_sections@.len() by {
            assert(t0@.contains_key(k));
        }
    }
}

/// The layout of `objs` (as `merge_and_layout` returns it in `l`) has its sections
/// apart (`sections_apart`), headers that take some room, and no section before the
/// section alignment; where the section alignment is at least 4 and no merged
/// section holds more than `u32::MAX` bytes.
pub proof fn law_layout_sections_apart(objs: Seq<ObjectFile>, fa: u32, sa: u32, l: SectionLayout)
    requires
        fa > 0,
        sa >= 4,
        layout_of(objs, fa, sa) is Some,
        layout_matches(l, layout_of(objs, fa, sa)->0),
        forall|i: int|
            0 <= i < merge_objects(objs, objs.len() as int).len() ==> (#[trigger] merge_objects(
                objs,
                objs.len() as int,
            )[i]).data.len() <= u32::MAX,
    ensures
        sections_apart(l.pe_sections@, l.size_of_headers),
        0 < l.size_of_headers,
        forall|i: int| 0 <= i < l.pe_sections@.len() ==> sa <= (#[trigger] l.pe_sections@[i]).header.virtual_address,
{
    let st = layout_of(objs, fa, sa)->0;
    law_layout_in_order(objs, fa, sa);
    lemma_layout_spread_out(objs, fa, sa);
    let s = l.pe_sections@;
    assert forall|i: int| 0 <= i < s.len() implies #[trigger] s[i].header == st.sections[i].0 by {}
}

/// Building the imports moves what `.dlljmp` displaces and nothing else: where
/// some function is called through a stub, `.dlljmp` goes first, every earlier
/// section follows it with the same contents, every position of an object section
/// or a symbol moves to the next section index with the same offset, the code grows
/// by `.dlljmp`'s file size and the data base moves by its memory size; otherwise
/// none of these change and the earlier sections keep their indices. The headers'
/// size and the code base never change.
pub proof fn law_imports_shift(
    objs: Seq<ObjectFile>,
    dlls: Seq<LoadedDll>,
    l0: SectionLayout,
    l1: SectionLayout,
    t0: SymbolTable,
    t1: SymbolTable,
    opts: LinkerOptions,
    r: ImportResult,
)
    requires
        imports_built(Ok(r), objs, dlls, l0, l1, t0, t1, opts),
        !imports_overflow(objs, dlls, l0, t0, opts),
    ensures
        ({
            let p = plan_objects(objs, objs.len() as int, t0@, dlls)->Plan_0;
            let n = p.slots.len() as int;
            let k: int = if p.dlls.len() > 0 && n > 0 { 1 } else { 0 };
            let m = l0.pe_sections@.len() as int;
            &&& l1.size_of_headers == l0.size_of_headers
            &&& l1.base_of_code == l0.base_of_code
            &&& l1.size_of_code == l0.size_of_code + (if k == 1 { jmp_raw_size(n, opts.file_alignment) } else { 0 })
            &&& l1.base_of_data == l0.base_of_data + (if k == 1 { jmp_mem_size(n, opts.section_alignment) } else { 0 })
            &&& m + k <= l1.pe_sections@.len()
            &&& forall|i: int| 0 <= i < m ==> (#[trigger] l1.pe_sections@[i + k]).data@ == l0.pe_sections@[i].data@
                && l1.pe_sections@[i + k].header.name == l0.pe_sections@[i].header.name
            &&& forall|key: (usize, Seq<char>)| #[trigger] l1.obj_section_map@.contains_key(key)
                <==> l0.obj_section_map@.contains_key(key)
            &&& forall|key: (usize, Seq<char>)| #[trigger] l0.obj_section_map@.contains_key(key)
                ==> l1.obj_section_map@[key].section_index == l0.obj_section_map@[key].section_index + k
                && l1.obj_section_map@[key].offset == l0.obj_section_map@[key].offset
            &&& forall|name: Seq<char>| #[trigger] t1@.contains_key(name) <==> t0@.contains_key(name)
            &&& forall|name: Seq<char>| #[trigger] t0@.contains_key(name) ==> t1@[name].section_index
                == t0@[name].section_index + k && t1@[name].offset == t0@[name].offset
        }),
{
    let p = plan_objects(objs, objs.len() as int, t0@, dlls)->Plan_0;
    let n = p.slots.len() as int;
    let m = l0.pe_sections@.len() as int;
    if p.dlls.len() > 0 {
        let k: int = if n > 0 { 1 } else { 0 };
        assert forall|i: int| 0 <= i < m implies (#[trigger] l1.pe_sections@[i + k]).data@ == l0.pe_sections@[i].data@
            && l1.pe_sections@[i + k].header.name == l0.pe_sections@[i].header.name by {
            assert(l1.pe_sections@[i + k] == l1.pe_sections@[i + k]);
            assert((i + k) - k == i);
        }
        if n > 0 {
            assert forall|key: (usize, Seq<char>)| #[trigger] l0.obj_section_map@.contains_key(key)
                implies l1.obj_section_map@[key].section_index == l0.obj_section_map@[key].section_index + 1 by {}
            assert forall|name: Seq<char>| #[trigger] t0@.contains_key(name)
                implies t1@[name].section_index == t0@[name].section_index + 1 by {}
        }
    }
}

} // verus!
