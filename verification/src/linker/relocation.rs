//! Applying relocations: each relocation of each object section patches 4 bytes of
//! the merged PE section data with the address of its target.
//!
//! Targets: a section of the same object (static symbols, by section name), a
//! symbol of any object, a DLL `__imp__` symbol (its IAT slot) or a DLL function
//! reached through its `.dlljmp` stub. The first two are added to the 32-bit value
//! already in place; the last two overwrite it.
//!
//! Types: `Dir32va` writes target RVA + image base, `Dir32rva` the target RVA, and
//! `Rel32` the target RVA minus the RVA just after the 4 patched bytes.
use vstd::prelude::*;

use crate::binary_io::{le_u32_at, u32_le};
use crate::coff::object_file::{lemma_raw_start_increasing, raw_start, ObjectFile, ObjectSection, RelocType, RelocationEntry};
use crate::coff::symbol::{storage_class, StandardSymbol};
use crate::error::{LinkerError, Result};
use crate::text::{hex_string, hex_text, owned};

use super::dll::LoadedDll;
use super::import::collect::{lemma_plan_objects_wf, lemma_plan_provides, plan_objects, symbol_at_raw};
use super::import::{imports_built, ImportResult};
use super::options::LinkerOptions;
use super::section::{PeSectionPosition, SectionLayout};
use super::symbol::SymbolTable;

verus! {

/// What a relocation needs to know besides the section data: the virtual address
/// of each PE section, the object-section map, the symbol table, the import maps
/// and the image base.
pub ghost struct RelocContext {
    pub vas: Seq<u32>,
    pub map: Map<(usize, Seq<char>), PeSectionPosition>,
    pub symbols: Map<Seq<char>, PeSectionPosition>,
    pub imp: Map<Seq<char>, u32>,
    pub jmp: Map<Seq<char>, u32>,
    pub image_base: u32,
}

/// Where a symbol resolves to: its RVA and whether the value in place is added to.
pub ghost enum Resolved {
    At(u32, bool),
    Undefined(Seq<char>),
    Panic,
}

/// The RVA of `pos`, where its section exists and the sum fits in 32 bits.
pub open spec fn position_rva(ctx: RelocContext, pos: PeSectionPosition) -> Resolved {
    if pos.section_index >= ctx.vas.len() || ctx.vas[pos.section_index as int] + pos.offset
        > u32::MAX {
        Resolved::Panic
    } else {
        Resolved::At((ctx.vas[pos.section_index as int] + pos.offset) as u32, true)
    }
}

/// Resolves symbol `sym` of object file `obj_index`: a non-external symbol names a
/// section of its own object; an external one is looked up in the symbol table,
/// then among `__imp__` symbols, then among `.dlljmp` stubs.
pub open spec fn resolve_spec(ctx: RelocContext, obj: ObjectFile, obj_index: usize, sym: StandardSymbol) -> Resolved {
    let name = sym.resolved_name(obj.string_table@);
    if sym.storage_class != storage_class::EXTERNAL {
        if ctx.map.contains_key((obj_index, name)) {
            position_rva(ctx, ctx.map[(obj_index, name)])
        } else {
            Resolved::Undefined(name)
        }
    } else if ctx.symbols.contains_key(name) {
        position_rva(ctx, ctx.symbols[name])
    } else if ctx.imp.contains_key(name) {
        Resolved::At(ctx.imp[name], false)
    } else if ctx.jmp.contains_key(name) {
        Resolved::At(ctx.jmp[name], false)
    } else {
        Resolved::Undefined(name)
    }
}

pub open spec fn fits_i32(x: int) -> bool {
    i32::MIN <= x <= i32::MAX
}

/// The value to store, from the value in place `current`: `None` where the
/// arithmetic overflows.
pub open spec fn reloc_value(
    t: RelocType,
    current: i32,
    rva: u32,
    addend: bool,
    operand_rva: u32,
    image_base: u32,
) -> Option<i32> {
    let v: Option<i32> = match t {
        RelocType::Dir32va => if rva + image_base > u32::MAX {
            None
        } else {
            Some(((rva + image_base) as u32) as i32)
        },
        RelocType::Dir32rva => Some(rva as i32),
        _ => {
            let d = (rva as i32) - (operand_rva as i32);
            if !fits_i32(d) || !fits_i32(d - 4) {
                None
            } else {
                Some((d - 4) as i32)
            }
        },
    };
    match v {
        None => None,
        Some(v) => if !addend {
            Some(v)
        } else if fits_i32(current + v) {
            Some((current + v) as i32)
        } else {
            None
        },
    }
}

/// What a relocation stores: for `Dir32va` the target's address (RVA plus image base),
/// for `Dir32rva` its RVA, for `Rel32` the distance from the end of the four patched
/// bytes to the target; with an addend, that plus the value already in place.
pub proof fn law_reloc_value(current: i32, rva: u32, operand_rva: u32, image_base: u32)
    ensures
        reloc_value(RelocType::Dir32va, current, rva, false, operand_rva, image_base) matches Some(v)
            ==> v as u32 == rva + image_base,
        rva + image_base <= u32::MAX ==> reloc_value(RelocType::Dir32va, current, rva, false, operand_rva, image_base) is Some,
        reloc_value(RelocType::Dir32rva, current, rva, false, operand_rva, image_base) == Some(rva as i32),
        reloc_value(RelocType::Rel32, current, rva, false, operand_rva, image_base) matches Some(v)
            ==> (operand_rva as i32) + 4 + v == (rva as i32),
        reloc_value(RelocType::Dir32va, current, rva, true, operand_rva, image_base) matches Some(v) ==> (
            reloc_value(RelocType::Dir32va, current, rva, false, operand_rva, image_base) matches Some(w) && v == current + w),
        reloc_value(RelocType::Dir32rva, current, rva, true, operand_rva, image_base) matches Some(v) ==> (
            reloc_value(RelocType::Dir32rva, current, rva, false, operand_rva, image_base) matches Some(w) && v == current + w),
        reloc_value(RelocType::Rel32, current, rva, true, operand_rva, image_base) matches Some(v) ==> (
            reloc_value(RelocType::Rel32, current, rva, false, operand_rva, image_base) matches Some(w) && v == current + w),
{
    let x = (rva + image_base) as u32;
    assert((x as i32) as u32 == x) by (bit_vector);
}

/// Applying relocations: the data of each PE section, an error, or a panic of the
/// plain arithmetic or indexing (which callers must rule out). An error or a panic
/// carries the data as the relocations before it left it.
pub ghost enum RelocOutcome {
    Data(Seq<Seq<u8>>),
    Undefined(Seq<Seq<u8>>, Seq<char>),
    Unsupported(Seq<Seq<u8>>, u16),
    Panic(Seq<Seq<u8>>),
}

/// The data of each PE section that an outcome leaves.
pub open spec fn outcome_data(o: RelocOutcome) -> Seq<Seq<u8>> {
    match o {
        RelocOutcome::Data(d) => d,
        RelocOutcome::Undefined(d, _) => d,
        RelocOutcome::Unsupported(d, _) => d,
        RelocOutcome::Panic(d) => d,
    }
}

/// `d` with the four bytes at `off` replaced by `v`, little-endian.
pub open spec fn put_i32(d: Seq<u8>, off: int, v: i32) -> Seq<u8> {
    d.take(off) + u32_le(v as u32) + d.skip(off + 4)
}

/// Applies relocation `r` of object file `obj_index`, whose section landed in PE
/// section `index` at offset `base`.
pub open spec fn reloc_step(
    datas: Seq<Seq<u8>>,
    ctx: RelocContext,
    obj: ObjectFile,
    obj_index: usize,
    index: usize,
    base: u32,
    r: RelocationEntry,
) -> RelocOutcome {
    if r.reloc_type == RelocType::Absolute {
        RelocOutcome::Data(datas)
    } else if !(exists|j: int|
        0 <= j < obj.symbols@.len() && raw_start(obj.symbols@, j) == r.symbol_index) {
        RelocOutcome::Data(datas)
    } else {
        let j = choose|j: int| 0 <= j < obj.symbols@.len() && raw_start(obj.symbols@, j) == r.symbol_index;
        let sym = obj.symbols@[j].symbol;
        let off = base + r.virtual_address;
        let va = ctx.vas[index as int];
        if off > u32::MAX || va + base > u32::MAX || va + base + r.virtual_address > u32::MAX {
            RelocOutcome::Panic(datas)
        } else {
            let operand_rva = (va + base + r.virtual_address) as u32;
            match resolve_spec(ctx, obj, obj_index, sym) {
                Resolved::Panic => RelocOutcome::Panic(datas),
                Resolved::Undefined(n) => RelocOutcome::Undefined(datas, n),
                Resolved::At(rva, addend) => {
                    let d = datas[index as int];
                    if off + 4 > d.len() {
                        RelocOutcome::Panic(datas)
                    } else {
                        let current = le_u32_at(d, off) as i32;
                        match r.reloc_type {
                            RelocType::Other(t) => RelocOutcome::Unsupported(datas, t),
                            _ => match reloc_value(r.reloc_type, current, rva, addend, operand_rva, ctx.image_base) {
                                None => RelocOutcome::Panic(datas),
                                Some(v) => RelocOutcome::Data(datas.update(index as int, put_i32(d, off, v))),
                            },
                        }
                    }
                },
            }
        }
    }
}

/// Applies the first `m` relocations of `sec`.
pub open spec fn relocs_fold(
    st: RelocOutcome,
    ctx: RelocContext,
    obj: ObjectFile,
    obj_index: usize,
    index: usize,
    base: u32,
    sec: ObjectSection,
    m: int,
) -> RelocOutcome
    decreases m,
{
    if m <= 0 {
        st
    } else {
        match relocs_fold(st, ctx, obj, obj_index, index, base, sec, m - 1) {
            RelocOutcome::Data(datas) => reloc_step(datas, ctx, obj, obj_index, index, base, sec.relocations@[m - 1]),
            other => other,
        }
    }
}

/// Applies the relocations of the first `k` sections of object file `obj_index`;
/// sections that were not placed are skipped.
pub open spec fn sections_fold(st: RelocOutcome, ctx: RelocContext, obj: ObjectFile, obj_index: usize, k: int) -> RelocOutcome
    decreases k,
{
    if k <= 0 {
        st
    } else {
        let prev = sections_fold(st, ctx, obj, obj_index, k - 1);
        let sec = obj.sections@[k - 1];
        let key = (obj_index, sec.header.name_text());
        match prev {
            RelocOutcome::Data(datas) => if !ctx.map.contains_key(key) {
                prev
            } else if ctx.map[key].section_index >= ctx.vas.len() {
                RelocOutcome::Panic(datas)
            } else {
                relocs_fold(
                    prev,
                    ctx,
                    obj,
                    obj_index,
                    ctx.map[key].section_index,
                    ctx.map[key].offset,
                    sec,
                    sec.relocations@.len() as int,
                )
            },
            other => other,
        }
    }
}

/// Applies the relocations of the first `n` object files to the section data `datas`.
pub open spec fn relocations_fold(datas: Seq<Seq<u8>>, ctx: RelocContext, objs: Seq<ObjectFile>, n: int) -> RelocOutcome
    decreases n,
{
    if n <= 0 {
        RelocOutcome::Data(datas)
    } else {
        sections_fold(relocations_fold(datas, ctx, objs, n - 1), ctx, objs[n - 1], (n - 1) as usize, objs[n - 1].sections@.len() as int)
    }
}

/// The context of `apply_relocations`, from its arguments.
pub open spec fn reloc_context(layout: SectionLayout, symbol_table: SymbolTable, imports: ImportResult, opts: LinkerOptions) -> RelocContext {
    RelocContext {
        vas: layout.pe_sections@.map_values(|p: crate::pe::pe_file::PeSection| p.header.virtual_address),
        map: layout.obj_section_map@,
        symbols: symbol_table@,
        imp: imports.imp_symbol_to_iat_rva@,
        jmp: imports.symbol_to_jmp_va@,
        image_base: opts.image_base,
    }
}

/// The data of the PE sections of `layout`.
pub open spec fn section_datas(layout: SectionLayout) -> Seq<Seq<u8>> {
    layout.pe_sections@.map_values(|p: crate::pe::pe_file::PeSection| p.data@)
}

/// The outcome of applying all relocations of `objs` to `layout`.
pub open spec fn relocations_of(
    objs: Seq<ObjectFile>,
    layout: SectionLayout,
    symbol_table: SymbolTable,
    imports: ImportResult,
    opts: LinkerOptions,
) -> RelocOutcome {
    relocations_fold(section_datas(layout), reloc_context(layout, symbol_table, imports, opts), objs, objs.len() as int)
}

proof fn lemma_relocs_stuck(
    st: RelocOutcome,
    ctx: RelocContext,
    obj: ObjectFile,
    obj_index: usize,
    index: usize,
    base: u32,
    sec: ObjectSection,
    m: int,
    m2: int,
)
    requires
        0 <= m <= m2,
        !(relocs_fold(st, ctx, obj, obj_index, index, base, sec, m) is Data),
    ensures
        relocs_fold(st, ctx, obj, obj_index, index, base, sec, m2) == relocs_fold(st, ctx, obj, obj_index, index, base, sec, m),
    decreases m2 - m,
{
    if m2 > m {
        lemma_relocs_stuck(st, ctx, obj, obj_index, index, base, sec, m, m2 - 1);
    }
}

proof fn lemma_sections_stuck(st: RelocOutcome, ctx: RelocContext, obj: ObjectFile, obj_index: usize, k: int, k2: int)
    requires
        0 <= k <= k2,
        !(sections_fold(st, ctx, obj, obj_index, k) is Data),
    ensures
        sections_fold(st, ctx, obj, obj_index, k2) == sections_fold(st, ctx, obj, obj_index, k),
    decreases k2 - k,
{
    if k2 > k {
        lemma_sections_stuck(st, ctx, obj, obj_index, k, k2 - 1);
    }
}

proof fn lemma_sections_stuck_start(st: RelocOutcome, ctx: RelocContext, obj: ObjectFile, obj_index: usize, k: int)
    requires
        !(st is Data),
    ensures
        sections_fold(st, ctx, obj, obj_index, k) == st,
    decreases k,
{
    if k > 0 {
        lemma_sections_stuck_start(st, ctx, obj, obj_index, k - 1);
    }
}

proof fn lemma_objects_stuck(d0: Seq<Seq<u8>>, ctx: RelocContext, objs: Seq<ObjectFile>, n: int, n2: int)
    requires
        0 <= n <= n2,
        !(relocations_fold(d0, ctx, objs, n) is Data),
    ensures
        relocations_fold(d0, ctx, objs, n2) == relocations_fold(d0, ctx, objs, n),
    decreases n2 - n,
{
    if n2 > n {
        lemma_objects_stuck(d0, ctx, objs, n, n2 - 1);
        lemma_sections_stuck_start(
            relocations_fold(d0, ctx, objs, n2 - 1),
            ctx,
            objs[n2 - 1],
            (n2 - 1) as usize,
            objs[n2 - 1].sections@.len() as int,
        );
    }
}

/// Once the sections of object `oi` get stuck at section `k`, so does everything.
proof fn lemma_stuck_all(d0: Seq<Seq<u8>>, ctx: RelocContext, objs: Seq<ObjectFile>, oi: int, at_obj: Seq<Seq<u8>>, k: int)
    requires
        0 <= oi < objs.len(),
        0 <= k <= objs[oi].sections@.len(),
        relocations_fold(d0, ctx, objs, oi) == RelocOutcome::Data(at_obj),
        !(sections_fold(RelocOutcome::Data(at_obj), ctx, objs[oi], oi as usize, k) is Data),
    ensures
        relocations_fold(d0, ctx, objs, objs.len() as int) == sections_fold(
            RelocOutcome::Data(at_obj),
            ctx,
            objs[oi],
            oi as usize,
            k,
        ),
{
    lemma_sections_stuck(RelocOutcome::Data(at_obj), ctx, objs[oi], oi as usize, k, objs[oi].sections@.len() as int);
    lemma_objects_stuck(d0, ctx, objs, oi + 1, objs.len() as int);
}

/// Once relocation `m` of section `k` of object `oi` does not give data, neither does the whole.
proof fn lemma_stuck_at_reloc(
    d0: Seq<Seq<u8>>,
    ctx: RelocContext,
    objs: Seq<ObjectFile>,
    oi: int,
    at_obj: Seq<Seq<u8>>,
    k: int,
    at_sec: Seq<Seq<u8>>,
    m: int,
)
    requires
        0 <= oi < objs.len(),
        0 <= k < objs[oi].sections@.len(),
        relocations_fold(d0, ctx, objs, oi) == RelocOutcome::Data(at_obj),
        sections_fold(RelocOutcome::Data(at_obj), ctx, objs[oi], oi as usize, k) == RelocOutcome::Data(at_sec),
        ({
            let key = (oi as usize, objs[oi].sections@[k].header.name_text());
            &&& ctx.map.contains_key(key)
            &&& ctx.map[key].section_index < ctx.vas.len()
            &&& 0 <= m < objs[oi].sections@[k].relocations@.len()
            &&& !(relocs_fold(
                RelocOutcome::Data(at_sec),
                ctx,
                objs[oi],
                oi as usize,
                ctx.map[key].section_index,
                ctx.map[key].offset,
                objs[oi].sections@[k],
                m + 1,
            ) is Data)
        }),
    ensures
        !(relocations_fold(d0, ctx, objs, objs.len() as int) is Data),
        relocations_fold(d0, ctx, objs, objs.len() as int) == relocs_fold(
            RelocOutcome::Data(at_sec),
            ctx,
            objs[oi],
            oi as usize,
            ctx.map[(oi as usize, objs[oi].sections@[k].header.name_text())].section_index,
            ctx.map[(oi as usize, objs[oi].sections@[k].header.name_text())].offset,
            objs[oi].sections@[k],
            m + 1,
        ),
{
    let key = (oi as usize, objs[oi].sections@[k].header.name_text());
    let sec = objs[oi].sections@[k];
    lemma_relocs_stuck(
        RelocOutcome::Data(at_sec),
        ctx,
        objs[oi],
        oi as usize,
        ctx.map[key].section_index,
        ctx.map[key].offset,
        sec,
        m + 1,
        sec.relocations@.len() as int,
    );
    lemma_stuck_all(d0, ctx, objs, oi, at_obj, k + 1);
}

/// The text of the error for an unsupported relocation type.
pub open spec fn unsupported_text(t: u16) -> Seq<char> {
    "unsupported relocation type: "@ + hex_text(t as u32, 4)
}

/// Whether `res` is what applying the relocations leads to, given the outcome `o`.
pub open spec fn relocation_result(res: Result<()>, o: RelocOutcome) -> bool {
    match o {
        RelocOutcome::Data(_) => res is Ok,
        RelocOutcome::Undefined(_, n) => res matches Err(LinkerError::UndefinedSymbol(s)) && s@ == n,
        RelocOutcome::Unsupported(_, t) => res matches Err(LinkerError::InvalidFormat(s)) && s@
            == unsupported_text(t),
        RelocOutcome::Panic(_) => false,
    }
}

/// Applies the relocations as `apply_relocations` does, or gives `None` where a
/// relocation lies outside its section or its arithmetic leaves 32 bits. Whatever
/// the result, the data is patched by the relocations before the one that stopped.
pub fn try_apply_relocations(
    obj_files: &[ObjectFile],
    layout: &mut SectionLayout,
    symbol_table: &SymbolTable,
    import_result: &ImportResult,
    opts: &LinkerOptions,
) -> (r: Option<Result<()>>)
    requires
        old(layout).obj_section_map.wf(),
        symbol_table.wf(),
        import_result.imp_symbol_to_iat_rva.wf(),
        import_result.symbol_to_jmp_va.wf(),
        forall|i: int|
            0 <= i < obj_files@.len() ==> raw_start(
                (#[trigger] obj_files@[i]).symbols@,
                obj_files@[i].symbols@.len() as int,
            ) <= usize::MAX,
    ensures
        r is None <==> relocations_of(obj_files@, *old(layout), *symbol_table, *import_result, *opts) is Panic,
        r matches Some(res) ==> relocation_result(res, relocations_of(obj_files@, *old(layout), *symbol_table, *import_result, *opts)),
        section_datas(*final(layout)) == outcome_data(relocations_of(obj_files@, *old(layout), *symbol_table, *import_result, *opts)),
        final(layout).pe_sections@.len() == old(layout).pe_sections@.len(),
        forall|i: int|
            0 <= i < old(layout).pe_sections@.len() ==> (#[trigger] final(layout).pe_sections@[i]).header
                == old(layout).pe_sections@[i].header,
        final(layout).obj_section_map == old(layout).obj_section_map,
        final(layout).size_of_headers == old(layout).size_of_headers,
        final(layout).size_of_code == old(layout).size_of_code,
        final(layout).size_of_initialized_data == old(layout).size_of_initialized_data,
        final(layout).size_of_uninitialized_data == old(layout).size_of_uninitialized_data,
        final(layout).base_of_code == old(layout).base_of_code,
        final(layout).base_of_data == old(layout).base_of_data,
{
    let ghost ctx = reloc_context(*layout, *symbol_table, *import_result, *opts);
    let ghost d0 = section_datas(*layout);
    let ghost whole = relocations_of(obj_files@, *layout, *symbol_table, *import_result, *opts);
    let mut obj_index: usize = 0;
    while obj_index < obj_files.len()
        invariant
            obj_index <= obj_files@.len(),
            old(layout).obj_section_map.wf(),
            symbol_table.wf(),
            import_result.imp_symbol_to_iat_rva.wf(),
            import_result.symbol_to_jmp_va.wf(),
            forall|i: int|
                0 <= i < obj_files@.len() ==> raw_start(
                    (#[trigger] obj_files@[i]).symbols@,
                    obj_files@[i].symbols@.len() as int,
                ) <= usize::MAX,
            ctx == reloc_context(*old(layout), *symbol_table, *import_result, *opts),
            d0 == section_datas(*old(layout)),
            whole == relocations_fold(d0, ctx, obj_files@, obj_files@.len() as int),
            layout.pe_sections@.len() == old(layout).pe_sections@.len(),
            forall|i: int|
                0 <= i < old(layout).pe_sections@.len() ==> (#[trigger] layout.pe_sections@[i]).header
                    == old(layout).pe_sections@[i].header,
            layout.obj_section_map == old(layout).obj_section_map,
            layout.size_of_headers == old(layout).size_of_headers,
            layout.size_of_code == old(layout).size_of_code,
            layout.size_of_initialized_data == old(layout).size_of_initialized_data,
            layout.size_of_uninitialized_data == old(layout).size_of_uninitialized_data,
            layout.base_of_code == old(layout).base_of_code,
            layout.base_of_data == old(layout).base_of_data,
            relocations_fold(d0, ctx, obj_files@, obj_index as int) == RelocOutcome::Data(section_datas(*layout)),
        decreases obj_files@.len() - obj_index,
    {
        let obj = &obj_files[obj_index];
        let ghost at_obj = section_datas(*layout);
        let mut k: usize = 0;
        while k < obj.sections.len()
            invariant
                obj_index < obj_files@.len(),
                *obj == obj_files@[obj_index as int],
                old(layout).obj_section_map.wf(),
            symbol_table.wf(),
            import_result.imp_symbol_to_iat_rva.wf(),
            import_result.symbol_to_jmp_va.wf(),
            forall|i: int|
                0 <= i < obj_files@.len() ==> raw_start(
                    (#[trigger] obj_files@[i]).symbols@,
                    obj_files@[i].symbols@.len() as int,
                ) <= usize::MAX,
            ctx == reloc_context(*old(layout), *symbol_table, *import_result, *opts),
            d0 == section_datas(*old(layout)),
            whole == relocations_fold(d0, ctx, obj_files@, obj_files@.len() as int),
            layout.pe_sections@.len() == old(layout).pe_sections@.len(),
            forall|i: int|
                0 <= i < old(layout).pe_sections@.len() ==> (#[trigger] layout.pe_sections@[i]).header
                    == old(layout).pe_sections@[i].header,
            layout.obj_section_map == old(layout).obj_section_map,
            layout.size_of_headers == old(layout).size_of_headers,
            layout.size_of_code == old(layout).size_of_code,
            layout.size_of_initialized_data == old(layout).size_of_initialized_data,
            layout.size_of_uninitialized_data == old(layout).size_of_uninitialized_data,
            layout.base_of_code == old(layout).base_of_code,
            layout.base_of_data == old(layout).base_of_data,
                relocations_fold(d0, ctx, obj_files@, obj_index as int) == RelocOutcome::Data(at_obj),
                k <= obj.sections@.len(),
                sections_fold(RelocOutcome::Data(at_obj), ctx, *obj, obj_index, k as int)
                    == RelocOutcome::Data(section_datas(*layout)),
            decreases obj.sections@.len() - k,
        {
            let obj_sec = &obj.sections[k];
            let section_name = obj_sec.header.name_str();
            let changed_pos = match layout.obj_section_map.get(obj_index, section_name) {
                Some(p) => *p,
                None => {
                    k = k + 1;
                    continue;
                },
            };
            let ghost at_sec = section_datas(*layout);
            if changed_pos.section_index >= layout.pe_sections.len() {
                proof {
                    assert(sections_fold(RelocOutcome::Data(at_obj), ctx, *obj, obj_index, k + 1) is Panic);
                    lemma_stuck_all(d0, ctx, obj_files@, obj_index as int, at_obj, k + 1);
                }
                return None;
            }
            let changed_section_index = changed_pos.section_index;
            let changed_offset = changed_pos.offset;
            let changed_section_va = layout.pe_sections[changed_section_index].header.virtual_address;
            let mut m: usize = 0;
            while m < obj_sec.relocations.len()
                invariant
                    obj_index < obj_files@.len(),
                    *obj == obj_files@[obj_index as int],
                    k < obj.sections@.len(),
                    *obj_sec == obj.sections@[k as int],
                    old(layout).obj_section_map.wf(),
            symbol_table.wf(),
            import_result.imp_symbol_to_iat_rva.wf(),
            import_result.symbol_to_jmp_va.wf(),
            forall|i: int|
                0 <= i < obj_files@.len() ==> raw_start(
                    (#[trigger] obj_files@[i]).symbols@,
                    obj_files@[i].symbols@.len() as int,
                ) <= usize::MAX,
            ctx == reloc_context(*old(layout), *symbol_table, *import_result, *opts),
            d0 == section_datas(*old(layout)),
            whole == relocations_fold(d0, ctx, obj_files@, obj_files@.len() as int),
            layout.pe_sections@.len() == old(layout).pe_sections@.len(),
            forall|i: int|
                0 <= i < old(layout).pe_sections@.len() ==> (#[trigger] layout.pe_sections@[i]).header
                    == old(layout).pe_sections@[i].header,
            layout.obj_section_map == old(layout).obj_section_map,
            layout.size_of_headers == old(layout).size_of_headers,
            layout.size_of_code == old(layout).size_of_code,
            layout.size_of_initialized_data == old(layout).size_of_initialized_data,
            layout.size_of_uninitialized_data == old(layout).size_of_uninitialized_data,
            layout.base_of_code == old(layout).base_of_code,
            layout.base_of_data == old(layout).base_of_data,
                    relocations_fold(d0, ctx, obj_files@, obj_index as int) == RelocOutcome::Data(at_obj),
                    sections_fold(RelocOutcome::Data(at_obj), ctx, *obj, obj_index, k as int)
                        == RelocOutcome::Data(at_sec),
                    ctx.map.contains_key((obj_index, obj_sec.header.name_text())),
                    ctx.map[(obj_index, obj_sec.header.name_text())] == changed_pos,
                    changed_section_index == changed_pos.section_index,
                    changed_offset == changed_pos.offset,
                    changed_section_index < ctx.vas.len(),
                    changed_section_va == ctx.vas[changed_section_index as int],
                    m <= obj_sec.relocations@.len(),
                    relocs_fold(RelocOutcome::Data(at_sec), ctx, *obj, obj_index, changed_section_index, changed_offset, *obj_sec, m as int)
                        == RelocOutcome::Data(section_datas(*layout)),
                decreases obj_sec.relocations@.len() - m,
            {
                let reloc = &obj_sec.relocations[m];
                let ghost cur = section_datas(*layout);
                proof {
                    assert(obj_sec.relocations@[m as int] == *reloc);
                }
                if reloc.reloc_type == RelocType::Absolute {
                    m = m + 1;
                    continue;
                }
                let sym = match obj.symbol_by_raw_index(reloc.symbol_index as usize) {
                    Some(s) => s,
                    None => {
                        m = m + 1;
                        continue;
                    },
                };
                let ghost step = reloc_step(cur, ctx, *obj, obj_index, changed_section_index, changed_offset, *reloc);
                proof {
                    if !(step is Data) {
                        lemma_stuck_at_reloc(d0, ctx, obj_files@, obj_index as int, at_obj, k as int, at_sec, m as int);
                    }
                }
                proof {
                    assert(layout.pe_sections@.map_values(|p: crate::pe::pe_file::PeSection| p.header.virtual_address)
                        =~= ctx.vas);
                }
                let max: u64 = u32::MAX as u64;
                if changed_offset as u64 + reloc.virtual_address as u64 > max || changed_section_va as u64
                    + changed_offset as u64 > max || changed_section_va as u64 + changed_offset as u64
                    + reloc.virtual_address as u64 > max {
                    assert(step is Panic);
                    return None;
                }
                let data_offset = (changed_offset + reloc.virtual_address) as usize;
                let operand_rva = changed_section_va + changed_offset + reloc.virtual_address;
                let (addressed_rva, use_addend) = match resolve_symbol(
                    obj_index,
                    obj,
                    sym,
                    &*layout,
                    symbol_table,
                    import_result,
                    Ghost(ctx),
                ) {
                    None => {
                        assert(step is Panic);
                        return None;
                    },
                    Some(Ok(v)) => v,
                    Some(Err(e)) => {
                        return Some(Err(e));
                    },
                };
                if data_offset > layout.pe_sections[changed_section_index].data.len()
                    || layout.pe_sections[changed_section_index].data.len() - data_offset < 4 {
                    assert(step is Panic);
                    return None;
                }
                let current = read_i32(layout.pe_sections[changed_section_index].data.as_slice(), data_offset);
                let plain: i64 = match reloc.reloc_type {
                    RelocType::Dir32va => {
                        if addressed_rva as u64 + opts.image_base as u64 > max {
                            assert(step is Panic);
                            return None;
                        }
                        ((addressed_rva + opts.image_base) as i32) as i64
                    },
                    RelocType::Dir32rva => (addressed_rva as i32) as i64,
                    RelocType::Rel32 => {
                        let d: i64 = (addressed_rva as i32) as i64 - (operand_rva as i32) as i64;
                        if d < i32::MIN as i64 || d > i32::MAX as i64 || d - 4 < i32::MIN as i64 {
                            assert(step is Panic);
                            return None;
                        }
                        d - 4
                    },
                    RelocType::Absolute => {
                        proof {
                            assert(false);
                        }
                        0
                    },
                    RelocType::Other(t) => {
                        let mut msg = owned("unsupported relocation type: ");
                        let hex = hex_string(t as u32, 4);
                        msg.append(hex.as_str());
                        return Some(Err(LinkerError::InvalidFormat(msg)));
                    },
                };
                let value: i64 = if use_addend {
                    current as i64 + plain
                } else {
                    plain
                };
                if value < i32::MIN as i64 || value > i32::MAX as i64 {
                    assert(step is Panic);
                    return None;
                }
                let new_val = value as i32;
                write_i32(&mut layout.pe_sections[changed_section_index].data, data_offset, new_val);
                proof {
                    assert(section_datas(*layout) =~= cur.update(
                        changed_section_index as int,
                        put_i32(cur[changed_section_index as int], data_offset as int, new_val),
                    ));
                }
                m = m + 1;
            }
            k = k + 1;
        }
        obj_index = obj_index + 1;
    }
    Some(Ok(()))
}

/// Applies the relocations of all object files, patching the data of
/// `layout.pe_sections` in place. An unknown target is an `UndefinedSymbol` error,
/// a relocation type other than the three above an `InvalidFormat` error; the
/// relocations before the failing one stay applied.
pub fn apply_relocations(
    obj_files: &[ObjectFile],
    layout: &mut SectionLayout,
    symbol_table: &SymbolTable,
    import_result: &ImportResult,
    opts: &LinkerOptions,
) -> (res: Result<()>)
    requires
        old(layout).obj_section_map.wf(),
        symbol_table.wf(),
        import_result.imp_symbol_to_iat_rva.wf(),
        import_result.symbol_to_jmp_va.wf(),
        forall|i: int|
            0 <= i < obj_files@.len() ==> raw_start(
                (#[trigger] obj_files@[i]).symbols@,
                obj_files@[i].symbols@.len() as int,
            ) <= usize::MAX,
        !(relocations_of(obj_files@, *old(layout), *symbol_table, *import_result, *opts) is Panic),
    ensures
        relocation_result(res, relocations_of(obj_files@, *old(layout), *symbol_table, *import_result, *opts)),
        section_datas(*final(layout)) == outcome_data(relocations_of(obj_files@, *old(layout), *symbol_table, *import_result, *opts)),
        final(layout).pe_sections@.len() == old(layout).pe_sections@.len(),
        forall|i: int|
            0 <= i < old(layout).pe_sections@.len() ==> (#[trigger] final(layout).pe_sections@[i]).header
                == old(layout).pe_sections@[i].header,
        final(layout).obj_section_map == old(layout).obj_section_map,
        final(layout).size_of_headers == old(layout).size_of_headers,
        final(layout).size_of_code == old(layout).size_of_code,
        final(layout).size_of_initialized_data == old(layout).size_of_initialized_data,
        final(layout).size_of_uninitialized_data == old(layout).size_of_uninitialized_data,
        final(layout).base_of_code == old(layout).base_of_code,
        final(layout).base_of_data == old(layout).base_of_data,
{
    try_apply_relocations(obj_files, layout, symbol_table, import_result, opts).unwrap()
}

/// Resolves `sym` of object file `obj_index` to `(target RVA, add to the value in place)`.
fn resolve_symbol(
    obj_index: usize,
    obj: &ObjectFile,
    sym: &StandardSymbol,
    layout: &SectionLayout,
    symbol_table: &SymbolTable,
    import_result: &ImportResult,
    Ghost(ctx): Ghost<RelocContext>,
) -> (res: Option<Result<(u32, bool)>>)
    requires
        layout.obj_section_map.wf(),
        symbol_table.wf(),
        import_result.imp_symbol_to_iat_rva.wf(),
        import_result.symbol_to_jmp_va.wf(),
        ctx.vas == layout.pe_sections@.map_values(|p: crate::pe::pe_file::PeSection| p.header.virtual_address),
        ctx.map == layout.obj_section_map@,
        ctx.symbols == symbol_table@,
        ctx.imp == import_result.imp_symbol_to_iat_rva@,
        ctx.jmp == import_result.symbol_to_jmp_va@,
    ensures
        match resolve_spec(ctx, *obj, obj_index, *sym) {
            Resolved::At(rva, addend) => res == Some(Ok::<(u32, bool), LinkerError>((rva, addend))),
            Resolved::Undefined(n) => res matches Some(Err(LinkerError::UndefinedSymbol(s))) && s@ == n,
            Resolved::Panic => res is None,
        },
{
    let sym_name = owned(sym.resolve_name(&obj.string_table));
    if sym.storage_class != storage_class::EXTERNAL {
        match layout.obj_section_map.get(obj_index, sym_name.as_str()) {
            Some(pos) => position_in(layout, *pos),
            None => Some(Err(LinkerError::UndefinedSymbol(sym_name))),
        }
    } else if let Some(pos) = symbol_table.get(sym_name.as_str()) {
        position_in(layout, *pos)
    } else if let Some(iat_rva) = import_result.imp_symbol_to_iat_rva.get(sym_name.as_str()) {
        Some(Ok((*iat_rva, false)))
    } else if let Some(jmp_rva) = import_result.symbol_to_jmp_va.get(sym_name.as_str()) {
        Some(Ok((*jmp_rva, false)))
    } else {
        Some(Err(LinkerError::UndefinedSymbol(sym_name)))
    }
}

/// The RVA of `pos` in `layout`, to be added to; `None` where its section does not
/// exist or the sum leaves 32 bits.
fn position_in(layout: &SectionLayout, pos: PeSectionPosition) -> (r: Option<Result<(u32, bool)>>)
    ensures
        match position_rva(
            RelocContext {
                vas: layout.pe_sections@.map_values(|p: crate::pe::pe_file::PeSection| p.header.virtual_address),
                map: Map::empty(),
                symbols: Map::empty(),
                imp: Map::empty(),
                jmp: Map::empty(),
                image_base: 0,
            },
            pos,
        ) {
            Resolved::At(rva, addend) => r == Some(Ok::<(u32, bool), LinkerError>((rva, addend))),
            _ => r is None,
        },
{
    if pos.section_index >= layout.pe_sections.len() {
        return None;
    }
    let va = layout.pe_sections[pos.section_index].header.virtual_address;
    if va as u64 + pos.offset as u64 > u32::MAX as u64 {
        return None;
    }
    Some(Ok((va + pos.offset, true)))
}

fn read_i32(data: &[u8], offset: usize) -> (r: i32)
    requires
        offset + 4 <= data@.len(),
    ensures
        r == le_u32_at(data@, offset as int) as i32,
{
    let v = data[offset] as u32 + data[offset + 1] as u32 * 0x100 + data[offset + 2] as u32 * 0x1_0000
        + data[offset + 3] as u32 * 0x100_0000;
    v as i32
}

fn write_i32(data: &mut Vec<u8>, offset: usize, value: i32)
    requires
        offset + 4 <= old(data)@.len(),
    ensures
        final(data)@ == put_i32(old(data)@, offset as int, value),
{
    let v = value as u32;
    let len = data.len();
    data.set(offset, (v % 0x100) as u8);
    data.set(offset + 1, ((v / 0x100) % 0x100) as u8);
    data.set(offset + 2, ((v / 0x1_0000) % 0x100) as u8);
    data.set(offset + 3, (v / 0x100_0000) as u8);
    assert(data@ =~= put_i32(old(data)@, offset as int, value));
}

/// Once the imports are built, every external, named symbol that a relocation
/// refers to resolves when the relocations are applied: an object defines it, or it
/// reads an IAT slot, or it is called through a stub; it is never undefined.
pub proof fn law_built_imports_resolve(
    objs: Seq<ObjectFile>,
    dlls: Seq<LoadedDll>,
    l0: SectionLayout,
    l1: SectionLayout,
    t0: SymbolTable,
    t1: SymbolTable,
    opts: LinkerOptions,
    r: ImportResult,
    o: int,
    c: int,
    i: int,
    sym: StandardSymbol,
)
    requires
        imports_built(Ok(r), objs, dlls, l0, l1, t0, t1, opts),
        0 <= o < objs.len(),
        0 <= c < objs[o].sections@.len(),
        0 <= i < objs[o].sections@[c].relocations@.len(),
        symbol_at_raw(objs[o], objs[o].sections@[c].relocations@[i].symbol_index as int) == Some(sym),
        sym.storage_class == storage_class::EXTERNAL,
        sym.resolved_name(objs[o].string_table@).len() > 0,
    ensures
        !(resolve_spec(reloc_context(l1, t1, r, opts), objs[o], o as usize, sym) is Undefined),
{
    let n = objs.len() as int;
    let name = sym.resolved_name(objs[o].string_table@);
    lemma_plan_objects_wf(objs, n, t0@, dlls);
    lemma_plan_provides(objs, n, t0@, dlls);
    let p = plan_objects(objs, n, t0@, dlls)->Plan_0;
    assert(objs[o].sections@[c].relocations@[i] == objs[o].sections@[c].relocations@[i]);
    if p.dlls.len() == 0 {
        assert(!p.imp.contains_key(name));
        assert(!p.via_jmp.contains_key(name)) by {
            if p.via_jmp.contains_key(name) {
                assert(p.slots.contains(p.via_jmp[name]));
            }
        }
    } else {
        if t0@.contains_key(name) {
            assert(t1@.contains_key(name));
        } else if p.imp.contains_key(name) {
            assert(r.imp_symbol_to_iat_rva@.contains_key(name));
        } else {
            assert(r.symbol_to_jmp_va@.contains_key(name));
        }
    }
}

/// Whether byte `b` of PE section `i` lies in the four bytes that relocation `m` of
/// section `c` of object file `o` patches, where that section was placed.
pub open spec fn at_site(ctx: RelocContext, objs: Seq<ObjectFile>, o: int, c: int, m: int, i: int, b: int) -> bool {
    &&& 0 <= o < objs.len()
    &&& 0 <= c < objs[o].sections@.len()
    &&& 0 <= m < objs[o].sections@[c].relocations@.len()
    &&& ({
        let key = (o as usize, objs[o].sections@[c].header.name_text());
        let off = ctx.map[key].offset + objs[o].sections@[c].relocations@[m].virtual_address;
        &&& ctx.map.contains_key(key)
        &&& i == ctx.map[key].section_index
        &&& off <= b < off + 4
    })
}

/// Whether `d` has the shape of `d0` and differs from it only at relocation sites.
pub open spec fn only_at_sites(d0: Seq<Seq<u8>>, d: Seq<Seq<u8>>, ctx: RelocContext, objs: Seq<ObjectFile>) -> bool {
    &&& d.len() == d0.len()
    &&& forall|i: int| 0 <= i < d0.len() ==> (#[trigger] d[i]).len() == d0[i].len()
    &&& forall|i: int, b: int|
        0 <= i < d0.len() && 0 <= b < d0[i].len() && #[trigger] d[i][b] != d0[i][b] ==> exists|o: int, c: int, m: int|
            #[trigger] at_site(ctx, objs, o, c, m, i, b)
}

proof fn lemma_step_sites(d0: Seq<Seq<u8>>, datas: Seq<Seq<u8>>, ctx: RelocContext, objs: Seq<ObjectFile>, o: int, c: int, m: int)
    requires
        0 <= o < objs.len(),
        0 <= c < objs[o].sections@.len(),
        0 <= m < objs[o].sections@[c].relocations@.len(),
        ctx.map.contains_key((o as usize, objs[o].sections@[c].header.name_text())),
        ctx.map[(o as usize, objs[o].sections@[c].header.name_text())].section_index < d0.len(),
        only_at_sites(d0, datas, ctx, objs),
    ensures
        only_at_sites(
            d0,
            outcome_data(
                reloc_step(
                    datas,
                    ctx,
                    objs[o],
                    o as usize,
                    ctx.map[(o as usize, objs[o].sections@[c].header.name_text())].section_index,
                    ctx.map[(o as usize, objs[o].sections@[c].header.name_text())].offset,
                    objs[o].sections@[c].relocations@[m],
                ),
            ),
            ctx,
            objs,
        ),
{
    let key = (o as usize, objs[o].sections@[c].header.name_text());
    let index = ctx.map[key].section_index;
    let base = ctx.map[key].offset;
    let r = objs[o].sections@[c].relocations@[m];
    let out = outcome_data(reloc_step(datas, ctx, objs[o], o as usize, index, base, r));
    if out != datas {
        let off = base + r.virtual_address;
        let d = datas[index as int];
        let v = choose|v: i32| out == datas.update(index as int, put_i32(d, off, v));
        assert(off + 4 <= d.len());
        assert forall|i: int| 0 <= i < d0.len() implies (#[trigger] out[i]).len() == d0[i].len() by {
            if i == index {
                assert(put_i32(d, off, v).len() == d.len());
            }
        }
        assert forall|i: int, b: int|
            0 <= i < d0.len() && 0 <= b < d0[i].len() && #[trigger] out[i][b] != d0[i][b] implies exists|o2: int, c2: int, m2: int|
                #[trigger] at_site(ctx, objs, o2, c2, m2, i, b) by {
            if datas[i][b] == d0[i][b] {
                assert(i == index);
                assert(off <= b < off + 4) by {
                    if b < off {
                        assert(put_i32(d, off, v)[b] == d[b]);
                    } else if b >= off + 4 {
                        assert(put_i32(d, off, v)[b] == d[b]);
                    }
                }
                assert(at_site(ctx, objs, o, c, m, i, b));
            }
        }
    }
}

proof fn lemma_relocs_sites(d0: Seq<Seq<u8>>, st: RelocOutcome, ctx: RelocContext, objs: Seq<ObjectFile>, o: int, c: int, m: int)
    requires
        0 <= o < objs.len(),
        0 <= c < objs[o].sections@.len(),
        0 <= m <= objs[o].sections@[c].relocations@.len(),
        ctx.map.contains_key((o as usize, objs[o].sections@[c].header.name_text())),
        ctx.map[(o as usize, objs[o].sections@[c].header.name_text())].section_index < d0.len(),
        only_at_sites(d0, outcome_data(st), ctx, objs),
    ensures
        only_at_sites(
            d0,
            outcome_data(
                relocs_fold(
                    st,
                    ctx,
                    objs[o],
                    o as usize,
                    ctx.map[(o as usize, objs[o].sections@[c].header.name_text())].section_index,
                    ctx.map[(o as usize, objs[o].sections@[c].header.name_text())].offset,
                    objs[o].sections@[c],
                    m,
                ),
            ),
            ctx,
            objs,
        ),
    decreases m,
{
    if m > 0 {
        lemma_relocs_sites(d0, st, ctx, objs, o, c, m - 1);
        let key = (o as usize, objs[o].sections@[c].header.name_text());
        let prev = relocs_fold(st, ctx, objs[o], o as usize, ctx.map[key].section_index, ctx.map[key].offset, objs[o].sections@[c], m - 1);
        if let RelocOutcome::Data(datas) = prev {
            lemma_step_sites(d0, datas, ctx, objs, o, c, m - 1);
        }
    }
}

proof fn lemma_sections_sites(d0: Seq<Seq<u8>>, st: RelocOutcome, ctx: RelocContext, objs: Seq<ObjectFile>, o: int, k: int)
    requires
        0 <= o < objs.len(),
        0 <= k <= objs[o].sections@.len(),
        ctx.vas.len() == d0.len(),
        only_at_sites(d0, outcome_data(st), ctx, objs),
    ensures
        only_at_sites(d0, outcome_data(sections_fold(st, ctx, objs[o], o as usize, k)), ctx, objs),
    decreases k,
{
    if k > 0 {
        lemma_sections_sites(d0, st, ctx, objs, o, k - 1);
        let prev = sections_fold(st, ctx, objs[o], o as usize, k - 1);
        let key = (o as usize, objs[o].sections@[k - 1].header.name_text());
        if prev is Data && ctx.map.contains_key(key) && ctx.map[key].section_index < ctx.vas.len() {
            lemma_relocs_sites(d0, prev, ctx, objs, o, k - 1, objs[o].sections@[k - 1].relocations@.len() as int);
        }
    }
}

proof fn lemma_objects_sites(d0: Seq<Seq<u8>>, ctx: RelocContext, objs: Seq<ObjectFile>, n: int)
    requires
        0 <= n <= objs.len(),
        ctx.vas.len() == d0.len(),
    ensures
        only_at_sites(d0, outcome_data(relocations_fold(d0, ctx, objs, n)), ctx, objs),
    decreases n,
{
    if n > 0 {
        lemma_objects_sites(d0, ctx, objs, n - 1);
        lemma_sections_sites(d0, relocations_fold(d0, ctx, objs, n - 1), ctx, objs, n - 1, objs[n - 1].sections@.len() as int);
    }
}

/// Applying the relocations, whatever the outcome, keeps the number and the sizes
/// of the sections' data and changes only bytes that some relocation patches: the
/// four bytes at its offset in the PE section where its object section landed.
pub proof fn law_relocations_patch_only_sites(
    objs: Seq<ObjectFile>,
    layout: SectionLayout,
    symbol_table: SymbolTable,
    imports: ImportResult,
    opts: LinkerOptions,
)
    ensures
        only_at_sites(
            section_datas(layout),
            outcome_data(relocations_of(objs, layout, symbol_table, imports, opts)),
            reloc_context(layout, symbol_table, imports, opts),
            objs,
        ),
{
    lemma_objects_sites(section_datas(layout), reloc_context(layout, symbol_table, imports, opts), objs, objs.len() as int);
}

/// A relocation to a section of its own object (a symbol that is not external) or
/// to a symbol that some object defines adds to the value already in its four bytes:
/// the stored value is that value plus the target's address (`Dir32va`), its RVA
/// (`Dir32rva`) or its distance from the end of the four bytes (`Rel32`). A
/// relocation to an `__imp__` symbol or to a stub replaces the value in place.
pub proof fn law_reloc_adds_to_value_in_place(
    datas: Seq<Seq<u8>>,
    ctx: RelocContext,
    obj: ObjectFile,
    obj_index: usize,
    index: usize,
    base: u32,
    r: RelocationEntry,
    j: int,
)
    requires
        0 <= j < obj.symbols@.len(),
        raw_start(obj.symbols@, j) == r.symbol_index,
        r.reloc_type is Dir32va || r.reloc_type is Dir32rva || r.reloc_type is Rel32,
        reloc_step(datas, ctx, obj, obj_index, index, base, r) is Data,
    ensures
        ({
            let sym = obj.symbols@[j].symbol;
            let name = sym.resolved_name(obj.string_table@);
            let off = base + r.virtual_address;
            let d = datas[index as int];
            let cur = le_u32_at(d, off) as i32;
            let operand = ctx.vas[index as int] + base + r.virtual_address;
            let in_place = sym.storage_class != storage_class::EXTERNAL || ctx.symbols.contains_key(name);
            let pos = if sym.storage_class != storage_class::EXTERNAL {
                ctx.map[(obj_index, name)]
            } else {
                ctx.symbols[name]
            };
            let target: int = if in_place {
                ctx.vas[pos.section_index as int] + pos.offset
            } else if ctx.imp.contains_key(name) {
                ctx.imp[name] as int
            } else {
                ctx.jmp[name] as int
            };
            let x: int = if r.reloc_type is Dir32va {
                ((target + ctx.image_base) as u32) as i32 as int
            } else if r.reloc_type is Dir32rva {
                (target as u32) as i32 as int
            } else {
                (target as u32) as i32 - (operand as u32) as i32 - 4
            };
            let v: int = if in_place { cur + x } else { x };
            &&& 0 <= off && off + 4 <= d.len()
            &&& i32::MIN <= v <= i32::MAX
            &&& reloc_step(datas, ctx, obj, obj_index, index, base, r) == RelocOutcome::Data(
                datas.update(index as int, put_i32(d, off, v as i32)),
            )
        }),
{
    let j2 = choose|j2: int| 0 <= j2 < obj.symbols@.len() && raw_start(obj.symbols@, j2) == r.symbol_index;
    if j2 < j {
        lemma_raw_start_increasing(obj.symbols@, j2, j);
    } else if j < j2 {
        lemma_raw_start_increasing(obj.symbols@, j, j2);
    }
    assert(j2 == j);
}

} // verus!
