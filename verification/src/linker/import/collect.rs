//! Finding the DLL functions that the relocations call for: which `__imp__`
//! symbols read an IAT slot, which symbols go through a `.dlljmp` stub, and which
//! functions each DLL must provide.
use vstd::prelude::*;

use crate::coff::object_file::{raw_start, ObjectFile};
use crate::coff::symbol::{storage_class, StandardSymbol};
use crate::coff::object_file::RelocationEntry;
use crate::error::{LinkerError, Result};
use crate::linker::dll::{
    candidates_search, contains_name, find_dll_spec, first_dll_with, ident_prefix, try_find_dll, LoadedDll,
};
use crate::linker::name_map::NameMap;
use crate::linker::section::PeSectionPosition;
use crate::linker::symbol::SymbolTable;
use crate::text::{chars_of, owned, str_eq, string_from_chars};

verus! {

/// The prefix of the symbols that `__declspec(dllimport)` refers to.
pub open spec fn imp_prefix() -> Seq<char> {
    seq!['_', '_', 'i', 'm', 'p', '_', '_']
}

pub open spec fn has_imp_prefix(s: Seq<char>) -> bool {
    s.len() >= 7 && s.take(7) == imp_prefix()
}

/// The index of the first `@` of `s` at or after `i`, or its length.
pub open spec fn at_index(s: Seq<char>, i: int) -> int
    decreases s.len() - i,
{
    if i < 0 || i >= s.len() {
        s.len() as int
    } else if s[i] == '@' {
        i
    } else {
        at_index(s, i + 1)
    }
}

/// `s` cut before its first `@` (`Sleep@4` gives `Sleep`).
pub open spec fn before_at(s: Seq<char>) -> Seq<char> {
    s.take(at_index(s, 0))
}

/// The functions to import, in the order they were first needed.
pub ghost struct ImportPlan {
    /// `__imp__` symbol to the name of the function whose IAT slot it reads.
    pub imp: Map<Seq<char>, Seq<char>>,
    /// Symbol called through a stub to the name of its function.
    pub via_jmp: Map<Seq<char>, Seq<char>>,
    /// The functions with a `.dlljmp` stub, by slot.
    pub slots: Seq<Seq<char>>,
    /// Each DLL's base name and the functions imported from it.
    pub dlls: Seq<(Seq<char>, Seq<Seq<char>>)>,
}

pub open spec fn empty_plan() -> ImportPlan {
    ImportPlan { imp: Map::empty(), via_jmp: Map::empty(), slots: Seq::empty(), dlls: Seq::empty() }
}

/// Collecting the imports either gives a plan or meets a symbol no DLL exports.
pub ghost enum PlanOutcome {
    Plan(ImportPlan),
    Undefined(Seq<char>),
}

/// The index of the DLL named `name` in `dl`, from `i` on, or `dl.len()`.
pub open spec fn dll_index_from(dl: Seq<(Seq<char>, Seq<Seq<char>>)>, name: Seq<char>, i: int) -> int
    decreases dl.len() - i,
{
    if i < 0 || i >= dl.len() {
        dl.len() as int
    } else if dl[i].0 == name {
        i
    } else {
        dll_index_from(dl, name, i + 1)
    }
}

/// `dl` with function `f` listed under DLL `dll` (a new DLL goes last, a function
/// already listed there is not added again).
pub open spec fn add_function(dl: Seq<(Seq<char>, Seq<Seq<char>>)>, f: Seq<char>, dll: Seq<char>) -> Seq<(Seq<char>, Seq<Seq<char>>)> {
    let i = dll_index_from(dl, dll, 0);
    if i >= dl.len() {
        dl.push((dll, seq![f]))
    } else if dl[i].1.contains(f) {
        dl
    } else {
        dl.update(i, (dll, dl[i].1.push(f)))
    }
}

/// The standard symbol that starts at raw index `idx` of the symbol table of `obj`.
pub open spec fn symbol_at_raw(obj: ObjectFile, idx: int) -> Option<StandardSymbol> {
    if exists|j: int| 0 <= j < obj.symbols@.len() && raw_start(obj.symbols@, j) == idx {
        let j = choose|j: int| 0 <= j < obj.symbols@.len() && raw_start(obj.symbols@, j) == idx;
        Some(obj.symbols@[j].symbol)
    } else {
        None
    }
}

/// What relocation `rel` of `obj` adds to the plan. Only an external symbol that no
/// object defines needs a DLL; an `__imp__` symbol is looked up without its prefix
/// and `@` suffix and reads the IAT, any other goes through a stub.
pub open spec fn plan_step(
    p: ImportPlan,
    obj: ObjectFile,
    rel: RelocationEntry,
    table: Map<Seq<char>, PeSectionPosition>,
    dlls: Seq<LoadedDll>,
) -> PlanOutcome {
    match symbol_at_raw(obj, rel.symbol_index as int) {
        None => PlanOutcome::Plan(p),
        Some(sym) => {
            let name = sym.resolved_name(obj.string_table@);
            if sym.storage_class != storage_class::EXTERNAL || name.len() == 0 || table.contains_key(name) {
                PlanOutcome::Plan(p)
            } else if has_imp_prefix(name) {
                if p.imp.contains_key(name) {
                    PlanOutcome::Plan(p)
                } else {
                    match find_dll_spec(before_at(name.skip(7)), dlls) {
                        None => PlanOutcome::Undefined(name),
                        Some((f, i)) => PlanOutcome::Plan(
                            ImportPlan {
                                imp: p.imp.insert(name, f),
                                via_jmp: p.via_jmp,
                                slots: p.slots,
                                dlls: add_function(p.dlls, f, dlls[i].name_text()),
                            },
                        ),
                    }
                }
            } else if p.via_jmp.contains_key(name) {
                PlanOutcome::Plan(p)
            } else {
                match find_dll_spec(name, dlls) {
                    None => PlanOutcome::Undefined(name),
                    Some((f, i)) => if p.slots.contains(f) {
                        PlanOutcome::Plan(
                            ImportPlan {
                                imp: p.imp,
                                via_jmp: p.via_jmp.insert(name, f),
                                slots: p.slots,
                                dlls: p.dlls,
                            },
                        )
                    } else {
                        PlanOutcome::Plan(
                            ImportPlan {
                                imp: p.imp,
                                via_jmp: p.via_jmp.insert(name, f),
                                slots: p.slots.push(f),
                                dlls: add_function(p.dlls, f, dlls[i].name_text()),
                            },
                        )
                    },
                }
            }
        },
    }
}

/// The plan after the first `m` relocations in `rels`.
pub open spec fn plan_relocs(
    st: PlanOutcome,
    obj: ObjectFile,
    rels: Seq<RelocationEntry>,
    m: int,
    table: Map<Seq<char>, PeSectionPosition>,
    dlls: Seq<LoadedDll>,
) -> PlanOutcome
    decreases m,
{
    if m <= 0 {
        st
    } else {
        match plan_relocs(st, obj, rels, m - 1, table, dlls) {
            PlanOutcome::Plan(q) => plan_step(q, obj, rels[m - 1], table, dlls),
            e => e,
        }
    }
}

/// The plan after the relocations of the first `k` sections of `obj`.
pub open spec fn plan_sections(
    st: PlanOutcome,
    obj: ObjectFile,
    k: int,
    table: Map<Seq<char>, PeSectionPosition>,
    dlls: Seq<LoadedDll>,
) -> PlanOutcome
    decreases k,
{
    if k <= 0 {
        st
    } else {
        let rels = obj.sections@[k - 1].relocations@;
        plan_relocs(plan_sections(st, obj, k - 1, table, dlls), obj, rels, rels.len() as int, table, dlls)
    }
}

/// The plan after the relocations of the first `n` object files.
pub open spec fn plan_objects(
    objs: Seq<ObjectFile>,
    n: int,
    table: Map<Seq<char>, PeSectionPosition>,
    dlls: Seq<LoadedDll>,
) -> PlanOutcome
    decreases n,
{
    if n <= 0 {
        PlanOutcome::Plan(empty_plan())
    } else {
        plan_sections(plan_objects(objs, n - 1, table, dlls), objs[n - 1], objs[n - 1].sections@.len() as int, table, dlls)
    }
}

proof fn lemma_relocs_stuck(
    st: PlanOutcome,
    obj: ObjectFile,
    rels: Seq<RelocationEntry>,
    m: int,
    m2: int,
    table: Map<Seq<char>, PeSectionPosition>,
    dlls: Seq<LoadedDll>,
)
    requires
        0 <= m <= m2,
        plan_relocs(st, obj, rels, m, table, dlls) is Undefined,
    ensures
        plan_relocs(st, obj, rels, m2, table, dlls) == plan_relocs(st, obj, rels, m, table, dlls),
    decreases m2 - m,
{
    if m2 > m {
        lemma_relocs_stuck(st, obj, rels, m, m2 - 1, table, dlls);
    }
}

proof fn lemma_sections_stuck(
    st: PlanOutcome,
    obj: ObjectFile,
    k: int,
    k2: int,
    table: Map<Seq<char>, PeSectionPosition>,
    dlls: Seq<LoadedDll>,
)
    requires
        0 <= k <= k2,
        plan_sections(st, obj, k, table, dlls) is Undefined,
    ensures
        plan_sections(st, obj, k2, table, dlls) == plan_sections(st, obj, k, table, dlls),
    decreases k2 - k,
{
    if k2 > k {
        lemma_sections_stuck(st, obj, k, k2 - 1, table, dlls);
        let rels = obj.sections@[k2 - 1].relocations@;
        lemma_relocs_stuck(plan_sections(st, obj, k2 - 1, table, dlls), obj, rels, 0, rels.len() as int, table, dlls);
    }
}

proof fn lemma_objects_stuck(
    objs: Seq<ObjectFile>,
    n: int,
    n2: int,
    table: Map<Seq<char>, PeSectionPosition>,
    dlls: Seq<LoadedDll>,
)
    requires
        0 <= n <= n2,
        plan_objects(objs, n, table, dlls) is Undefined,
    ensures
        plan_objects(objs, n2, table, dlls) == plan_objects(objs, n, table, dlls),
    decreases n2 - n,
{
    if n2 > n {
        lemma_objects_stuck(objs, n, n2 - 1, table, dlls);
        lemma_sections_stuck(plan_objects(objs, n2 - 1, table, dlls), objs[n2 - 1], 0, objs[n2 - 1].sections@.len() as int, table, dlls);
    }
}

/// Once relocation `m` of section `k` of object `oi` meets an undefined symbol, the
/// whole collection ends there.
proof fn lemma_undefined_at(
    objs: Seq<ObjectFile>,
    oi: int,
    k: int,
    m: int,
    at_obj: PlanOutcome,
    at_sec: PlanOutcome,
    table: Map<Seq<char>, PeSectionPosition>,
    dlls: Seq<LoadedDll>,
)
    requires
        0 <= oi < objs.len(),
        0 <= k < objs[oi].sections@.len(),
        0 <= m < objs[oi].sections@[k].relocations@.len(),
        plan_objects(objs, oi, table, dlls) == at_obj,
        plan_sections(at_obj, objs[oi], k, table, dlls) == at_sec,
        plan_relocs(at_sec, objs[oi], objs[oi].sections@[k].relocations@, m + 1, table, dlls) is Undefined,
    ensures
        plan_objects(objs, objs.len() as int, table, dlls) == plan_relocs(
            at_sec,
            objs[oi],
            objs[oi].sections@[k].relocations@,
            m + 1,
            table,
            dlls,
        ),
{
    let rels = objs[oi].sections@[k].relocations@;
    lemma_relocs_stuck(at_sec, objs[oi], rels, m + 1, rels.len() as int, table, dlls);
    lemma_sections_stuck(at_obj, objs[oi], k + 1, objs[oi].sections@.len() as int, table, dlls);
    lemma_objects_stuck(objs, oi + 1, objs.len() as int, table, dlls);
}

/// One DLL and the functions imported from it.
pub struct DllImportData {
    pub name: String,
    pub functions: Vec<String>,
}

/// The base name and function names of each DLL.
pub open spec fn dlls_view(v: Seq<DllImportData>) -> Seq<(Seq<char>, Seq<Seq<char>>)> {
    v.map_values(|d: DllImportData| (d.name@, d.functions@.map_values(|s: String| s@)))
}

/// The texts of a list of strings.
pub open spec fn texts(v: Seq<String>) -> Seq<Seq<char>> {
    v.map_values(|s: String| s@)
}

/// The collected imports.
pub struct Collected {
    pub imp: NameMap<String>,
    pub via_jmp: NameMap<String>,
    pub slots: Vec<String>,
    pub dlls: Vec<DllImportData>,
}

/// Whether `c` holds the plan `p`.
pub open spec fn holds_plan(c: Collected, p: ImportPlan) -> bool {
    &&& c.imp.wf()
    &&& c.via_jmp.wf()
    &&& c.imp@.map_values(|s: String| s@) == p.imp
    &&& c.via_jmp@.map_values(|s: String| s@) == p.via_jmp
    &&& texts(c.slots@) == p.slots
    &&& dlls_view(c.dlls@) == p.dlls
}

/// The name without the `__imp__` prefix, where it has one.
fn strip_imp_prefix(name: &str) -> (r: Option<String>)
    ensures
        r is Some <==> has_imp_prefix(name@),
        r matches Some(s) ==> s@ == name@.skip(7),
{
    let c = chars_of(name);
    if c.len() < 7 || c[0] != '_' || c[1] != '_' || c[2] != 'i' || c[3] != 'm' || c[4] != 'p'
        || c[5] != '_' || c[6] != '_' {
        proof {
            if c@.len() >= 7 {
                assert(c@.take(7)[0] == c@[0] && c@.take(7)[1] == c@[1] && c@.take(7)[2] == c@[2]
                    && c@.take(7)[3] == c@[3] && c@.take(7)[4] == c@[4] && c@.take(7)[5] == c@[5]
                    && c@.take(7)[6] == c@[6]);
            }
        }
        return None;
    }
    assert(c@.take(7) =~= imp_prefix());
    let mut rest: Vec<char> = Vec::new();
    let mut i: usize = 7;
    while i < c.len()
        invariant
            7 <= i <= c@.len(),
            rest@ == c@.subrange(7, i as int),
        decreases c@.len() - i,
    {
        rest.push(c[i]);
        i = i + 1;
        assert(rest@ =~= c@.subrange(7, i as int));
    }
    assert(c@.subrange(7, c@.len() as int) =~= c@.skip(7));
    Some(string_from_chars(&rest))
}

/// `s` cut before its first `@`.
fn cut_before_at(s: &str) -> (r: String)
    ensures
        r@ == before_at(s@),
{
    let c = chars_of(s);
    let mut i: usize = 0;
    while i < c.len() && c[i] != '@'
        invariant
            i <= c@.len(),
            c@ == s@,
            at_index(c@, 0) == at_index(c@, i as int),
        decreases c@.len() - i,
    {
        i = i + 1;
    }
    let mut out: Vec<char> = Vec::new();
    let mut j: usize = 0;
    while j < i
        invariant
            j <= i <= c@.len(),
            out@ == c@.take(j as int),
        decreases i - j,
    {
        out.push(c[j]);
        j = j + 1;
        assert(out@ =~= c@.take(j as int));
    }
    string_from_chars(&out)
}

/// Lists function `func_name` under DLL `dll_base`, adding the DLL if it is new and
/// the function if it is not listed yet.
fn add_function_to_dll(func_name: &str, dll_base: &str, dll_data: &mut Vec<DllImportData>)
    ensures
        dlls_view(final(dll_data)@) == add_function(dlls_view(old(dll_data)@), func_name@, dll_base@),
{
    let ghost dv = dlls_view(dll_data@);
    let mut i: usize = 0;
    while i < dll_data.len() && !str_eq(dll_data[i].name.as_str(), dll_base)
        invariant
            i <= dll_data@.len(),
            dv == dlls_view(dll_data@),
            dll_data@ == old(dll_data)@,
            dll_index_from(dv, dll_base@, 0) == dll_index_from(dv, dll_base@, i as int),
        decreases dll_data@.len() - i,
    {
        i = i + 1;
    }
    if i == dll_data.len() {
        let mut functions: Vec<String> = Vec::new();
        functions.push(owned(func_name));
        assert(functions@.map_values(|s: String| s@) =~= seq![func_name@]);
        dll_data.push(DllImportData { name: owned(dll_base), functions });
        assert(dlls_view(dll_data@) =~= dv.push((dll_base@, seq![func_name@])));
    } else if !contains_name(&dll_data[i].functions, func_name) {
        let mut d = dll_data.remove(i);
        let ghost before = d.functions@;
        d.functions.push(owned(func_name));
        assert(texts(d.functions@) =~= texts(before).push(func_name@));
        dll_data.insert(i, d);
        assert(dlls_view(dll_data@) =~= dv.update(i as int, (dll_base@, dv[i as int].1.push(func_name@))));
    }
}

/// Adds to `c` what relocation `rel` of `obj` needs from the DLLs.
fn collect_step(
    obj: &ObjectFile,
    rel: &RelocationEntry,
    symbol_table: &SymbolTable,
    dlls: &[LoadedDll],
    c: &mut Collected,
    Ghost(p): Ghost<ImportPlan>,
) -> (res: Result<()>)
    requires
        holds_plan(*old(c), p),
        symbol_table.wf(),
        raw_start(obj.symbols@, obj.symbols@.len() as int) <= usize::MAX,
    ensures
        match plan_step(p, *obj, *rel, symbol_table@, dlls@) {
            PlanOutcome::Plan(q) => res is Ok && holds_plan(*final(c), q),
            PlanOutcome::Undefined(n) => res matches Err(LinkerError::UndefinedSymbol(s)) && s@ == n,
        },
{
    let sym = match obj.symbol_by_raw_index(rel.symbol_index as usize) {
        Some(s) => s,
        None => {
            return Ok(());
        },
    };
    proof {
        let j = choose|j: int| 0 <= j < obj.symbols@.len() && raw_start(obj.symbols@, j) == rel.symbol_index as int;
        assert(symbol_at_raw(*obj, rel.symbol_index as int) == Some(obj.symbols@[j].symbol));
    }
    if sym.storage_class != storage_class::EXTERNAL {
        return Ok(());
    }
    let sym_name = owned(sym.resolve_name(&obj.string_table));
    if sym_name.as_str().unicode_len() == 0 {
        return Ok(());
    }
    if symbol_table.contains_key(sym_name.as_str()) {
        return Ok(());
    }
    match strip_imp_prefix(sym_name.as_str()) {
        Some(stripped) => {
            if c.imp.contains_key(sym_name.as_str()) {
                proof {
                    assert(c.imp@.map_values(|s: String| s@).contains_key(sym_name@));
                }
                return Ok(());
            }
            let real_name = cut_before_at(stripped.as_str());
            let (found_name, dll_base) = match try_find_dll(real_name.as_str(), dlls) {
                Some(x) => x,
                None => {
                    return Err(LinkerError::UndefinedSymbol(sym_name));
                },
            };
            add_function_to_dll(found_name.as_str(), dll_base, &mut c.dlls);
            let ghost old_imp = c.imp@;
            let ghost kv = sym_name@;
            let ghost fv = found_name@;
            c.imp.insert(sym_name, found_name);
            proof {
                assert(c.imp@.map_values(|s: String| s@) =~= old_imp.map_values(|s: String| s@).insert(kv, fv));
            }
            Ok(())
        },
        None => {
            if c.via_jmp.contains_key(sym_name.as_str()) {
                proof {
                    assert(c.via_jmp@.map_values(|s: String| s@).contains_key(sym_name@));
                }
                return Ok(());
            }
            let (found_name, dll_base) = match try_find_dll(sym_name.as_str(), dlls) {
                Some(x) => x,
                None => {
                    return Err(LinkerError::UndefinedSymbol(sym_name));
                },
            };
            if !contains_name(&c.slots, found_name.as_str()) {
                let ghost old_slots = c.slots@;
                c.slots.push(owned(found_name.as_str()));
                assert(texts(c.slots@) =~= texts(old_slots).push(found_name@));
                add_function_to_dll(found_name.as_str(), dll_base, &mut c.dlls);
            }
            let ghost old_jmp = c.via_jmp@;
            let ghost kv = sym_name@;
            let ghost fv = found_name@;
            c.via_jmp.insert(sym_name, found_name);
            proof {
                assert(c.via_jmp@.map_values(|s: String| s@) =~= old_jmp.map_values(|s: String| s@).insert(kv, fv));
            }
            Ok(())
        },
    }
}

/// Walks every relocation of every object file and collects the DLL functions that
/// the external symbols defined nowhere call for. A symbol that no DLL exports is an
/// `UndefinedSymbol` error.
pub fn collect_imports(obj_files: &[ObjectFile], symbol_table: &SymbolTable, dlls: &[LoadedDll]) -> (res: Result<Collected>)
    requires
        symbol_table.wf(),
        forall|i: int|
            0 <= i < obj_files@.len() ==> raw_start(
                (#[trigger] obj_files@[i]).symbols@,
                obj_files@[i].symbols@.len() as int,
            ) <= usize::MAX,
    ensures
        match plan_objects(obj_files@, obj_files@.len() as int, symbol_table@, dlls@) {
            PlanOutcome::Plan(p) => res matches Ok(c) && holds_plan(c, p),
            PlanOutcome::Undefined(n) => res matches Err(LinkerError::UndefinedSymbol(s)) && s@ == n,
        },
{
    let ghost table = symbol_table@;
    let mut c = Collected { imp: NameMap::new(), via_jmp: NameMap::new(), slots: Vec::new(), dlls: Vec::new() };
    let ghost mut p = empty_plan();
    proof {
        assert(c.imp@.map_values(|s: String| s@) =~= Map::<Seq<char>, Seq<char>>::empty());
        assert(c.via_jmp@.map_values(|s: String| s@) =~= Map::<Seq<char>, Seq<char>>::empty());
        assert(texts(c.slots@) =~= Seq::<Seq<char>>::empty());
        assert(dlls_view(c.dlls@) =~= Seq::<(Seq<char>, Seq<Seq<char>>)>::empty());
    }
    let mut oi: usize = 0;
    while oi < obj_files.len()
        invariant
            oi <= obj_files@.len(),
            symbol_table.wf(),
            table == symbol_table@,
            forall|i: int|
                0 <= i < obj_files@.len() ==> raw_start(
                    (#[trigger] obj_files@[i]).symbols@,
                    obj_files@[i].symbols@.len() as int,
                ) <= usize::MAX,
            plan_objects(obj_files@, oi as int, table, dlls@) == PlanOutcome::Plan(p),
            holds_plan(c, p),
        decreases obj_files@.len() - oi,
    {
        let obj = &obj_files[oi];
        let ghost at_obj = PlanOutcome::Plan(p);
        let mut k: usize = 0;
        while k < obj.sections.len()
            invariant
                oi < obj_files@.len(),
                *obj == obj_files@[oi as int],
                symbol_table.wf(),
                table == symbol_table@,
                raw_start(obj.symbols@, obj.symbols@.len() as int) <= usize::MAX,
                plan_objects(obj_files@, oi as int, table, dlls@) == at_obj,
                k <= obj.sections@.len(),
                plan_sections(at_obj, *obj, k as int, table, dlls@) == PlanOutcome::Plan(p),
                holds_plan(c, p),
            decreases obj.sections@.len() - k,
        {
            let rels = &obj.sections[k].relocations;
            let ghost at_sec = PlanOutcome::Plan(p);
            let mut m: usize = 0;
            while m < rels.len()
                invariant
                    oi < obj_files@.len(),
                    *obj == obj_files@[oi as int],
                    k < obj.sections@.len(),
                    *rels == obj.sections@[k as int].relocations,
                    symbol_table.wf(),
                    table == symbol_table@,
                    raw_start(obj.symbols@, obj.symbols@.len() as int) <= usize::MAX,
                    plan_objects(obj_files@, oi as int, table, dlls@) == at_obj,
                    plan_sections(at_obj, *obj, k as int, table, dlls@) == at_sec,
                    m <= rels@.len(),
                    plan_relocs(at_sec, *obj, rels@, m as int, table, dlls@) == PlanOutcome::Plan(p),
                    holds_plan(c, p),
                decreases rels@.len() - m,
            {
                let ghost next = plan_step(p, *obj, rels@[m as int], table, dlls@);
                match collect_step(obj, &rels[m], symbol_table, dlls, &mut c, Ghost(p)) {
                    Ok(()) => {},
                    Err(e) => {
                        proof {
                            lemma_undefined_at(obj_files@, oi as int, k as int, m as int, at_obj, at_sec, table, dlls@);
                        }
                        return Err(e);
                    },
                }
                proof {
                    p = next->Plan_0;
                }
                m = m + 1;
            }
            k = k + 1;
        }
        oi = oi + 1;
    }
    Ok(c)
}

/// The base name of the DLL that exports `f` first, where one does.
pub open spec fn dll_of(dlls: Seq<LoadedDll>, f: Seq<char>) -> Option<Seq<char>> {
    match first_dll_with(dlls, f, 0) {
        Some(i) => if 0 <= i < dlls.len() {
            Some(dlls[i].name_text())
        } else {
            None
        },
        None => None,
    }
}

/// Whether `f` is listed under some DLL of `dl`.
pub open spec fn listed(dl: Seq<(Seq<char>, Seq<Seq<char>>)>, f: Seq<char>) -> bool {
    exists|d: int, j: int| 0 <= d < dl.len() && 0 <= j < dl[d].1.len() && #[trigger] dl[d].1[j] == f
}

/// The shape that collecting keeps: DLL names are distinct, each function is listed
/// once, under the DLL that exports it first; every `__imp__` symbol's function and
/// every stub's function is listed, and every stub-called symbol has a stub.
pub open spec fn plan_wf(p: ImportPlan, dlls: Seq<LoadedDll>) -> bool {
    let dl = p.dlls;
    &&& forall|d: int, e: int| 0 <= d < e < dl.len() ==> #[trigger] dl[d].0 != #[trigger] dl[e].0
    &&& forall|d: int, j: int, k: int|
        0 <= d < dl.len() && 0 <= j < k < dl[d].1.len() ==> #[trigger] dl[d].1[j] != #[trigger] dl[d].1[k]
    &&& forall|d: int, j: int|
        0 <= d < dl.len() && 0 <= j < dl[d].1.len() ==> dll_of(dlls, #[trigger] dl[d].1[j]) == Some(dl[d].0)
    &&& forall|s: Seq<char>| #[trigger] p.imp.contains_key(s) ==> listed(dl, p.imp[s])
    &&& forall|s: Seq<char>| #[trigger] p.via_jmp.contains_key(s) ==> p.slots.contains(p.via_jmp[s])
    &&& p.slots.no_duplicates()
    &&& forall|s: int| 0 <= s < p.slots.len() ==> listed(dl, #[trigger] p.slots[s])
}

proof fn lemma_first_dll_bounds(dlls: Seq<LoadedDll>, f: Seq<char>, i: int)
    requires
        0 <= i,
    ensures
        first_dll_with(dlls, f, i) matches Some(k) ==> i <= k < dlls.len(),
    decreases dlls.len() - i,
{
    if i < dlls.len() && !dlls[i].export_list().contains(f) {
        lemma_first_dll_bounds(dlls, f, i + 1);
    }
}

proof fn lemma_candidates_first(name: Seq<char>, stripped: Seq<char>, k: int, dlls: Seq<LoadedDll>)
    ensures
        candidates_search(name, stripped, k, dlls) matches Some((f, i)) ==> first_dll_with(dlls, f, 0) == Some(i),
    decreases crate::linker::dll::underscore_end(stripped, 0) + 1 - k,
{
    if !(k < 0 || k > crate::linker::dll::underscore_end(stripped, 0)) {
        lemma_candidates_first(name, stripped, k + 1, dlls);
    }
}

/// A found function lies in the DLL that exports it first.
proof fn lemma_found_dll(name: Seq<char>, dlls: Seq<LoadedDll>)
    ensures
        find_dll_spec(name, dlls) matches Some((f, i)) ==> 0 <= i < dlls.len() && dll_of(dlls, f) == Some(dlls[i].name_text()),
{
    lemma_candidates_first(name, ident_prefix(name), 0, dlls);
    if let Some((f, i)) = find_dll_spec(name, dlls) {
        lemma_first_dll_bounds(dlls, f, 0);
    }
}

proof fn lemma_dll_index(dl: Seq<(Seq<char>, Seq<Seq<char>>)>, name: Seq<char>, i: int)
    requires
        0 <= i <= dl.len(),
    ensures
        i <= dll_index_from(dl, name, i) <= dl.len(),
        dll_index_from(dl, name, i) < dl.len() ==> dl[dll_index_from(dl, name, i)].0 == name,
        forall|e: int| i <= e < dll_index_from(dl, name, i) ==> #[trigger] dl[e].0 != name,
    decreases dl.len() - i,
{
    if i < dl.len() && dl[i].0 != name {
        lemma_dll_index(dl, name, i + 1);
    }
}

/// Listing `f` under `dll_of(f)` keeps the plan's shape, keeps every listed function
/// where it was, and lists `f`.
proof fn lemma_add_function(p: ImportPlan, dlls: Seq<LoadedDll>, f: Seq<char>, dll: Seq<char>)
    requires
        plan_wf(p, dlls),
        dll_of(dlls, f) == Some(dll),
    ensures
        ({
            let nd = add_function(p.dlls, f, dll);
            &&& nd.len() >= p.dlls.len()
            &&& forall|d: int, j: int|
                0 <= d < p.dlls.len() && 0 <= j < p.dlls[d].1.len() ==> nd[d].1.len() >= p.dlls[d].1.len()
                    && #[trigger] nd[d].1[j] == p.dlls[d].1[j]
            &&& listed(nd, f)
            &&& forall|x: Seq<char>| listed(p.dlls, x) ==> listed(nd, x)
        }),
{
    let dl = p.dlls;
    let nd = add_function(dl, f, dll);
    lemma_dll_index(dl, dll, 0);
    let i = dll_index_from(dl, dll, 0);
    if i >= dl.len() {
        assert(nd[dl.len() as int].1[0] == f);
    } else if dl[i].1.contains(f) {
        let j = choose|j: int| 0 <= j < dl[i].1.len() && dl[i].1[j] == f;
        assert(nd[i].1[j] == f);
    } else {
        assert(nd[i].1[dl[i].1.len() as int] == f);
    }
    assert forall|x: Seq<char>| listed(dl, x) implies listed(nd, x) by {
        let (d, j) = choose|d: int, j: int| 0 <= d < dl.len() && 0 <= j < dl[d].1.len() && #[trigger] dl[d].1[j] == x;
        assert(nd[d].1[j] == x);
    }
}

/// Adding `f` under `dll_of(f)` keeps the DLL table's shape.
proof fn lemma_add_function_wf(p: ImportPlan, dlls: Seq<LoadedDll>, f: Seq<char>, dll: Seq<char>, q: ImportPlan)
    requires
        plan_wf(p, dlls),
        dll_of(dlls, f) == Some(dll),
        q.dlls == add_function(p.dlls, f, dll),
        q.imp == p.imp || (exists|s: Seq<char>| q.imp == p.imp.insert(s, f)),
        q.via_jmp == p.via_jmp || (exists|s: Seq<char>| q.via_jmp == p.via_jmp.insert(s, f) && q.slots.contains(f)),
        q.slots == p.slots || (q.slots == p.slots.push(f) && !p.slots.contains(f)),
    ensures
        plan_wf(q, dlls),
{
    let dl = p.dlls;
    let nd = q.dlls;
    lemma_add_function(p, dlls, f, dll);
    lemma_dll_index(dl, dll, 0);
    let i = dll_index_from(dl, dll, 0);
    assert forall|d: int, e: int| 0 <= d < e < nd.len() implies #[trigger] nd[d].0 != #[trigger] nd[e].0 by {
        if i >= dl.len() && e == dl.len() {
            assert(dl[d].0 != dll);
        }
    }
    assert forall|d: int, j: int, k: int|
        0 <= d < nd.len() && 0 <= j < k < nd[d].1.len() implies #[trigger] nd[d].1[j] != #[trigger] nd[d].1[k] by {
        if i < dl.len() && d == i && !dl[i].1.contains(f) && k == dl[i].1.len() {
            assert(nd[d].1[j] == dl[i].1[j]);
        }
    }
    assert forall|d: int, j: int| 0 <= d < nd.len() && 0 <= j < nd[d].1.len() implies dll_of(dlls, #[trigger] nd[d].1[j])
        == Some(nd[d].0) by {
        if d < dl.len() && j < dl[d].1.len() {
            assert(nd[d].1[j] == dl[d].1[j]);
        }
    }
    assert forall|s: Seq<char>| #[trigger] q.imp.contains_key(s) implies listed(nd, q.imp[s]) by {
        if p.imp.contains_key(s) && q.imp[s] == p.imp[s] {
            assert(listed(dl, p.imp[s]));
        }
    }
    assert forall|s: int| 0 <= s < q.slots.len() implies listed(nd, #[trigger] q.slots[s]) by {
        if s < p.slots.len() {
            assert(q.slots[s] == p.slots[s]);
            assert(listed(dl, p.slots[s]));
        }
    }
    assert forall|s: Seq<char>| #[trigger] q.via_jmp.contains_key(s) implies q.slots.contains(q.via_jmp[s]) by {
        if p.via_jmp.contains_key(s) && q.via_jmp[s] == p.via_jmp[s] {
            let w = choose|w: int| 0 <= w < p.slots.len() && p.slots[w] == p.via_jmp[s];
            assert(q.slots[w] == p.slots[w]);
        }
    }
}

/// Each step of collecting keeps the plan's shape.
proof fn lemma_plan_step_wf(
    p: ImportPlan,
    obj: ObjectFile,
    rel: RelocationEntry,
    table: Map<Seq<char>, PeSectionPosition>,
    dlls: Seq<LoadedDll>,
)
    requires
        plan_wf(p, dlls),
    ensures
        plan_step(p, obj, rel, table, dlls) matches PlanOutcome::Plan(q) ==> plan_wf(q, dlls),
{
    if let Some(sym) = symbol_at_raw(obj, rel.symbol_index as int) {
        let name = sym.resolved_name(obj.string_table@);
        if sym.storage_class != storage_class::EXTERNAL || name.len() == 0 || table.contains_key(name) {
        } else if has_imp_prefix(name) {
            if !p.imp.contains_key(name) {
                let target = before_at(name.skip(7));
                lemma_found_dll(target, dlls);
                if let Some((f, i)) = find_dll_spec(target, dlls) {
                    let q = ImportPlan {
                        imp: p.imp.insert(name, f),
                        via_jmp: p.via_jmp,
                        slots: p.slots,
                        dlls: add_function(p.dlls, f, dlls[i].name_text()),
                    };
                    lemma_add_function_wf(p, dlls, f, dlls[i].name_text(), q);
                }
            }
        } else if !p.via_jmp.contains_key(name) {
            lemma_found_dll(name, dlls);
            if let Some((f, i)) = find_dll_spec(name, dlls) {
                if p.slots.contains(f) {
                    let q = ImportPlan { imp: p.imp, via_jmp: p.via_jmp.insert(name, f), slots: p.slots, dlls: p.dlls };
                    assert forall|s: Seq<char>| #[trigger] q.via_jmp.contains_key(s) implies q.slots.contains(q.via_jmp[s]) by {
                        if s != name {
                            assert(p.via_jmp.contains_key(s));
                        }
                    }
                } else {
                    let q = ImportPlan {
                        imp: p.imp,
                        via_jmp: p.via_jmp.insert(name, f),
                        slots: p.slots.push(f),
                        dlls: add_function(p.dlls, f, dlls[i].name_text()),
                    };
                    assert(q.slots[p.slots.len() as int] == f);
                    lemma_add_function_wf(p, dlls, f, dlls[i].name_text(), q);
                }
            }
        }
    }
}

proof fn lemma_plan_relocs_wf(
    st: PlanOutcome,
    obj: ObjectFile,
    rels: Seq<RelocationEntry>,
    m: int,
    table: Map<Seq<char>, PeSectionPosition>,
    dlls: Seq<LoadedDll>,
)
    requires
        st matches PlanOutcome::Plan(p) ==> plan_wf(p, dlls),
    ensures
        plan_relocs(st, obj, rels, m, table, dlls) matches PlanOutcome::Plan(q) ==> plan_wf(q, dlls),
    decreases m,
{
    if m > 0 {
        lemma_plan_relocs_wf(st, obj, rels, m - 1, table, dlls);
        if let PlanOutcome::Plan(q) = plan_relocs(st, obj, rels, m - 1, table, dlls) {
            lemma_plan_step_wf(q, obj, rels[m - 1], table, dlls);
        }
    }
}

proof fn lemma_plan_sections_wf(
    st: PlanOutcome,
    obj: ObjectFile,
    k: int,
    table: Map<Seq<char>, PeSectionPosition>,
    dlls: Seq<LoadedDll>,
)
    requires
        st matches PlanOutcome::Plan(p) ==> plan_wf(p, dlls),
    ensures
        plan_sections(st, obj, k, table, dlls) matches PlanOutcome::Plan(q) ==> plan_wf(q, dlls),
    decreases k,
{
    if k > 0 {
        lemma_plan_sections_wf(st, obj, k - 1, table, dlls);
        let rels = obj.sections@[k - 1].relocations@;
        lemma_plan_relocs_wf(plan_sections(st, obj, k - 1, table, dlls), obj, rels, rels.len() as int, table, dlls);
    }
}

/// Collecting keeps the plan's shape (`plan_wf`) throughout.
pub proof fn lemma_plan_objects_wf(
    objs: Seq<ObjectFile>,
    n: int,
    table: Map<Seq<char>, PeSectionPosition>,
    dlls: Seq<LoadedDll>,
)
    ensures
        plan_objects(objs, n, table, dlls) matches PlanOutcome::Plan(q) ==> plan_wf(q, dlls),
    decreases n,
{
    if n > 0 {
        lemma_plan_objects_wf(objs, n - 1, table, dlls);
        lemma_plan_sections_wf(plan_objects(objs, n - 1, table, dlls), objs[n - 1], objs[n - 1].sections@.len() as int, table, dlls);
    }
}

/// In a plan of that shape, a function is listed at one place only.
pub proof fn lemma_listed_once(p: ImportPlan, dlls: Seq<LoadedDll>, d: int, j: int, e: int, k: int)
    requires
        plan_wf(p, dlls),
        0 <= d < p.dlls.len(),
        0 <= j < p.dlls[d].1.len(),
        0 <= e < p.dlls.len(),
        0 <= k < p.dlls[e].1.len(),
        p.dlls[d].1[j] == p.dlls[e].1[k],
    ensures
        d == e,
        j == k,
{
    assert(dll_of(dlls, p.dlls[d].1[j]) == Some(p.dlls[d].0));
    assert(dll_of(dlls, p.dlls[e].1[k]) == Some(p.dlls[e].0));
    if d < e {
        assert(p.dlls[d].0 != p.dlls[e].0);
    } else if e < d {
        assert(p.dlls[e].0 != p.dlls[d].0);
    }
    if j < k {
        assert(p.dlls[d].1[j] != p.dlls[d].1[k]);
    } else if k < j {
        assert(p.dlls[d].1[k] != p.dlls[d].1[j]);
    }
}

/// Whether the plan `p` (with the symbol table `table`) provides `name`: an object
/// defines it, or it reads an IAT slot, or it is called through a stub.
pub open spec fn provides(p: ImportPlan, table: Map<Seq<char>, PeSectionPosition>, name: Seq<char>) -> bool {
    table.contains_key(name) || p.imp.contains_key(name) || p.via_jmp.contains_key(name)
}

/// Whether the plan `p` provides the symbol of relocation `rel` of `obj`, where that
/// symbol is external and named.
pub open spec fn provides_reloc(
    p: ImportPlan,
    table: Map<Seq<char>, PeSectionPosition>,
    obj: ObjectFile,
    rel: RelocationEntry,
) -> bool {
    symbol_at_raw(obj, rel.symbol_index as int) matches Some(sym) ==> (sym.storage_class == storage_class::EXTERNAL
        && sym.resolved_name(obj.string_table@).len() > 0 ==> provides(p, table, sym.resolved_name(obj.string_table@)))
}

/// Whether `q` keeps every symbol that `p` maps.
pub open spec fn keeps_symbols(p: ImportPlan, q: ImportPlan) -> bool {
    &&& forall|s: Seq<char>| #[trigger] p.imp.contains_key(s) ==> q.imp.contains_key(s)
    &&& forall|s: Seq<char>| #[trigger] p.via_jmp.contains_key(s) ==> q.via_jmp.contains_key(s)
}

proof fn lemma_step_provides(
    p: ImportPlan,
    obj: ObjectFile,
    rel: RelocationEntry,
    table: Map<Seq<char>, PeSectionPosition>,
    dlls: Seq<LoadedDll>,
)
    requires
        plan_step(p, obj, rel, table, dlls) is Plan,
    ensures
        keeps_symbols(p, plan_step(p, obj, rel, table, dlls)->Plan_0),
        provides_reloc(plan_step(p, obj, rel, table, dlls)->Plan_0, table, obj, rel),
{
}

proof fn lemma_relocs_provide(
    p0: ImportPlan,
    obj: ObjectFile,
    rels: Seq<RelocationEntry>,
    m: int,
    table: Map<Seq<char>, PeSectionPosition>,
    dlls: Seq<LoadedDll>,
)
    requires
        0 <= m <= rels.len(),
        plan_relocs(PlanOutcome::Plan(p0), obj, rels, m, table, dlls) is Plan,
    ensures
        ({
            let q = plan_relocs(PlanOutcome::Plan(p0), obj, rels, m, table, dlls)->Plan_0;
            &&& keeps_symbols(p0, q)
            &&& forall|i: int| 0 <= i < m ==> provides_reloc(q, table, obj, #[trigger] rels[i])
        }),
    decreases m,
{
    if m > 0 {
        let prev = plan_relocs(PlanOutcome::Plan(p0), obj, rels, m - 1, table, dlls);
        lemma_relocs_provide(p0, obj, rels, m - 1, table, dlls);
        let q1 = prev->Plan_0;
        lemma_step_provides(q1, obj, rels[m - 1], table, dlls);
    }
}

proof fn lemma_sections_provide(
    p0: ImportPlan,
    obj: ObjectFile,
    k: int,
    table: Map<Seq<char>, PeSectionPosition>,
    dlls: Seq<LoadedDll>,
)
    requires
        0 <= k <= obj.sections@.len(),
        plan_sections(PlanOutcome::Plan(p0), obj, k, table, dlls) is Plan,
    ensures
        ({
            let q = plan_sections(PlanOutcome::Plan(p0), obj, k, table, dlls)->Plan_0;
            &&& keeps_symbols(p0, q)
            &&& forall|c: int, i: int|
                0 <= c < k && 0 <= i < obj.sections@[c].relocations@.len() ==> provides_reloc(
                    q,
                    table,
                    obj,
                    #[trigger] obj.sections@[c].relocations@[i],
                )
        }),
    decreases k,
{
    if k > 0 {
        let prev = plan_sections(PlanOutcome::Plan(p0), obj, k - 1, table, dlls);
        let rels = obj.sections@[k - 1].relocations@;
        if prev is Undefined {
            lemma_relocs_stuck(prev, obj, rels, 0, rels.len() as int, table, dlls);
        }
        lemma_sections_provide(p0, obj, k - 1, table, dlls);
        let q1 = prev->Plan_0;
        lemma_relocs_provide(q1, obj, rels, rels.len() as int, table, dlls);
    }
}

/// Once the imports of `objs` are planned, the symbol of every relocation that is
/// external and named is provided: an object defines it, or it reads an IAT slot, or
/// it is called through a stub.
pub proof fn lemma_plan_provides(
    objs: Seq<ObjectFile>,
    n: int,
    table: Map<Seq<char>, PeSectionPosition>,
    dlls: Seq<LoadedDll>,
)
    requires
        0 <= n <= objs.len(),
        plan_objects(objs, n, table, dlls) is Plan,
    ensures
        forall|o: int, c: int, i: int|
            0 <= o < n && 0 <= c < objs[o].sections@.len() && 0 <= i < objs[o].sections@[c].relocations@.len()
                ==> provides_reloc(
                plan_objects(objs, n, table, dlls)->Plan_0,
                table,
                objs[o],
                #[trigger] objs[o].sections@[c].relocations@[i],
            ),
    decreases n,
{
    if n > 0 {
        let prev = plan_objects(objs, n - 1, table, dlls);
        let obj = objs[n - 1];
        if prev is Undefined {
            lemma_sections_stuck(prev, obj, 0, obj.sections@.len() as int, table, dlls);
        }
        lemma_plan_provides(objs, n - 1, table, dlls);
        lemma_sections_provide(prev->Plan_0, obj, obj.sections@.len() as int, table, dlls);
    }
}

/// Whether no two DLLs of `dl` have the same name.
pub open spec fn distinct_dlls(dl: Seq<(Seq<char>, Seq<Seq<char>>)>) -> bool {
    forall|d: int, e: int| 0 <= d < e < dl.len() ==> #[trigger] dl[d].0 != #[trigger] dl[e].0
}

/// Whether no DLL of `dl` lists a function twice.
pub open spec fn functions_once(dl: Seq<(Seq<char>, Seq<Seq<char>>)>) -> bool {
    forall|d: int| 0 <= d < dl.len() ==> (#[trigger] dl[d]).1.no_duplicates()
}

/// Listing function `f` under DLL `dll`: afterwards the DLL is listed (last where it
/// was new) with `f` among its functions (last where it was new), every other DLL
/// stays as it was, listing `f` again changes nothing, and distinct DLL names and
/// functions listed once stay so.
pub proof fn law_add_function(dl: Seq<(Seq<char>, Seq<Seq<char>>)>, f: Seq<char>, dll: Seq<char>)
    ensures
        ({
            let nd = add_function(dl, f, dll);
            let i = dll_index_from(dl, dll, 0);
            &&& dll_index_from(nd, dll, 0) == i
            &&& i < nd.len() && nd[i].0 == dll && nd[i].1.contains(f)
            &&& i < dl.len() ==> nd.len() == dl.len() && nd[i].1 == (if dl[i].1.contains(f) {
                dl[i].1
            } else {
                dl[i].1.push(f)
            })
            &&& i >= dl.len() ==> nd == dl.push((dll, seq![f]))
            &&& forall|d: int| 0 <= d < dl.len() && d != i ==> #[trigger] nd[d] == dl[d]
            &&& add_function(nd, f, dll) == nd
            &&& distinct_dlls(dl) ==> distinct_dlls(nd)
            &&& functions_once(dl) ==> functions_once(nd)
        }),
{
    let nd = add_function(dl, f, dll);
    lemma_dll_index(dl, dll, 0);
    let i = dll_index_from(dl, dll, 0);
    lemma_dll_index(nd, dll, 0);
    let j = dll_index_from(nd, dll, 0);
    if i >= dl.len() {
        assert(nd[i].1 == seq![f]);
        assert(nd[i].1[0] == f);
        if j < i {
            assert(nd[j] == dl[j]);
        }
    } else {
        if !dl[i].1.contains(f) {
            assert(nd[i].1[dl[i].1.len() as int] == f);
        }
        if j < i {
            assert(nd[j] == dl[j]);
        }
    }
    assert(nd[i].0 == dll);
    if j > i {
        assert(nd[i].0 != dll);
    }
    if j < i {
        assert(dl[j].0 != dll);
        assert(nd[j].0 == dll);
    }
    assert(j == i);
    if distinct_dlls(dl) {
        assert forall|d: int, e: int| 0 <= d < e < nd.len() implies #[trigger] nd[d].0 != #[trigger] nd[e].0 by {
            if i >= dl.len() && e == dl.len() {
                assert(dl[d].0 != dll);
            }
        }
    }
    if functions_once(dl) {
        assert forall|d: int| 0 <= d < nd.len() implies (#[trigger] nd[d]).1.no_duplicates() by {
            if d == i && i < dl.len() && !dl[i].1.contains(f) {
                let fs = dl[i].1;
                assert forall|a: int, b: int| 0 <= a < b < fs.push(f).len() implies fs.push(f)[a] != fs.push(f)[b] by {
                    assert(fs.no_duplicates());
                    if b == fs.len() {
                        assert(fs[a] != f);
                    }
                }
            } else if d == i && i >= dl.len() {
                assert(nd[d].1 == seq![f]);
            } else {
                assert(nd[d] == dl[d]);
            }
        }
    }
}

} // verus!
