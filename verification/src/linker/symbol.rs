//! The global symbol table: every defined external symbol of every object file,
//! by name, with its place in the PE sections.
use vstd::prelude::*;

use crate::coff::object_file::ObjectFile;
use crate::coff::symbol::{storage_class, SymbolEntry};
use crate::error::{LinkerError, Result};
use crate::text::owned;

use super::name_map::NameMap;
use super::section::{layout_of, lemma_layout_positions_within, positions_within, PeSectionPosition, SectionLayout};

verus! {

/// Symbol name to its place in the PE sections.
pub type SymbolTable = NameMap<PeSectionPosition>;

/// What symbol `e` of object file `obj_index` adds to the table, given the
/// object-section map: nothing unless it is external, defined in a section of the
/// object that was placed, and has a non-empty name; else its name, and the place of
/// its section plus its value (as an integer, which may not fit in 32 bits).
pub open spec fn symbol_contribution(
    map: Map<(usize, Seq<char>), PeSectionPosition>,
    obj: ObjectFile,
    obj_index: usize,
    e: SymbolEntry,
) -> Option<(Seq<char>, usize, int)> {
    let sym = e.symbol;
    if sym.storage_class != storage_class::EXTERNAL || sym.section_number == 0 {
        None
    } else if sym.section_number - 1 >= obj.sections@.len() {
        None
    } else {
        let key = (obj_index, obj.sections@[sym.section_number - 1].header.name_text());
        if !map.contains_key(key) {
            None
        } else {
            let name = sym.resolved_name(obj.string_table@);
            if name.len() == 0 {
                None
            } else {
                Some((name, map[key].section_index, map[key].offset + sym.value))
            }
        }
    }
}

/// Building the symbol table: the table so far, a name defined twice, or an offset
/// that does not fit in 32 bits (where the addition would overflow).
pub ghost enum TableOutcome {
    Table(Map<Seq<char>, PeSectionPosition>),
    Duplicate(Seq<char>),
    Overflow,
}

/// Adds the contributions of the first `m` symbols of object file `obj_index`.
pub open spec fn add_symbols(
    acc: TableOutcome,
    map: Map<(usize, Seq<char>), PeSectionPosition>,
    obj: ObjectFile,
    obj_index: usize,
    m: int,
) -> TableOutcome
    decreases m,
{
    if m <= 0 {
        acc
    } else {
        match add_symbols(acc, map, obj, obj_index, m - 1) {
            TableOutcome::Table(t) => match symbol_contribution(map, obj, obj_index, obj.symbols@[m - 1]) {
                None => TableOutcome::Table(t),
                Some((name, index, offset)) => if t.contains_key(name) {
                    TableOutcome::Duplicate(name)
                } else if offset > u32::MAX {
                    TableOutcome::Overflow
                } else {
                    TableOutcome::Table(
                        t.insert(name, PeSectionPosition { section_index: index, offset: offset as u32 }),
                    )
                },
            },
            other => other,
        }
    }
}

/// The symbol table of the first `n` object files.
pub open spec fn symbol_table_of(
    objs: Seq<ObjectFile>,
    map: Map<(usize, Seq<char>), PeSectionPosition>,
    n: int,
) -> TableOutcome
    decreases n,
{
    if n <= 0 {
        TableOutcome::Table(Map::empty())
    } else {
        add_symbols(
            symbol_table_of(objs, map, n - 1),
            map,
            objs[n - 1],
            (n - 1) as usize,
            objs[n - 1].symbols@.len() as int,
        )
    }
}

proof fn lemma_add_symbols_stuck(
    acc: TableOutcome,
    map: Map<(usize, Seq<char>), PeSectionPosition>,
    obj: ObjectFile,
    obj_index: usize,
    m: int,
)
    requires
        !(acc is Table),
    ensures
        add_symbols(acc, map, obj, obj_index, m) == acc,
    decreases m,
{
    if m > 0 {
        lemma_add_symbols_stuck(acc, map, obj, obj_index, m - 1);
    }
}

proof fn lemma_add_symbols_stuck_from(
    acc: TableOutcome,
    map: Map<(usize, Seq<char>), PeSectionPosition>,
    obj: ObjectFile,
    obj_index: usize,
    m: int,
    k: int,
)
    requires
        0 <= m <= k,
        !(add_symbols(acc, map, obj, obj_index, m) is Table),
    ensures
        add_symbols(acc, map, obj, obj_index, k) == add_symbols(acc, map, obj, obj_index, m),
    decreases k - m,
{
    if k > m {
        lemma_add_symbols_stuck_from(acc, map, obj, obj_index, m, k - 1);
    }
}

proof fn lemma_table_stuck(objs: Seq<ObjectFile>, map: Map<(usize, Seq<char>), PeSectionPosition>, n: int, k: int)
    requires
        0 <= n <= k,
        !(symbol_table_of(objs, map, n) is Table),
    ensures
        symbol_table_of(objs, map, k) == symbol_table_of(objs, map, n),
    decreases k - n,
{
    if k > n {
        lemma_table_stuck(objs, map, n, k - 1);
        lemma_add_symbols_stuck(
            symbol_table_of(objs, map, k - 1),
            map,
            objs[k - 1],
            (k - 1) as usize,
            objs[k - 1].symbols@.len() as int,
        );
    }
}

proof fn lemma_add_symbols_within(
    acc: TableOutcome,
    map: Map<(usize, Seq<char>), PeSectionPosition>,
    obj: ObjectFile,
    obj_index: usize,
    m: int,
    n: int,
)
    requires
        positions_within(map, n),
        acc matches TableOutcome::Table(t) ==> positions_within(t, n),
    ensures
        add_symbols(acc, map, obj, obj_index, m) matches TableOutcome::Table(t) ==> positions_within(t, n),
    decreases m,
{
    if m > 0 {
        lemma_add_symbols_within(acc, map, obj, obj_index, m - 1, n);
    }
}

proof fn lemma_table_within(objs: Seq<ObjectFile>, map: Map<(usize, Seq<char>), PeSectionPosition>, k: int, n: int)
    requires
        positions_within(map, n),
    ensures
        symbol_table_of(objs, map, k) matches TableOutcome::Table(t) ==> positions_within(t, n),
    decreases k,
{
    if k > 0 {
        lemma_table_within(objs, map, k - 1, n);
        lemma_add_symbols_within(
            symbol_table_of(objs, map, k - 1),
            map,
            objs[k - 1],
            (k - 1) as usize,
            objs[k - 1].symbols@.len() as int,
            n,
        );
    }
}

/// Every position that the layout of `objs` records, for an object section or for a
/// symbol of the table built on it, names one of the layout's sections.
pub proof fn law_positions_name_sections(objs: Seq<ObjectFile>, fa: u32, sa: u32)
    requires
        layout_of(objs, fa, sa) is Some,
    ensures
        ({
            let st = layout_of(objs, fa, sa)->0;
            &&& positions_within(st.map, st.sections.len() as int)
            &&& symbol_table_of(objs, st.map, objs.len() as int) matches TableOutcome::Table(t) ==> positions_within(
                t,
                st.sections.len() as int,
            )
        }),
{
    let st = layout_of(objs, fa, sa)->0;
    lemma_layout_positions_within(objs, fa, sa);
    lemma_table_within(objs, st.map, objs.len() as int, st.sections.len() as int);
}

/// Adding symbols keeps every name already in the table, at its place.
proof fn lemma_add_symbols_keeps(
    acc: Map<Seq<char>, PeSectionPosition>,
    map: Map<(usize, Seq<char>), PeSectionPosition>,
    obj: ObjectFile,
    obj_index: usize,
    m1: int,
    m2: int,
)
    requires
        0 <= m1 <= m2,
        add_symbols(TableOutcome::Table(acc), map, obj, obj_index, m2) is Table,
    ensures
        add_symbols(TableOutcome::Table(acc), map, obj, obj_index, m1) is Table,
        ({
            let t1 = add_symbols(TableOutcome::Table(acc), map, obj, obj_index, m1)->Table_0;
            let t2 = add_symbols(TableOutcome::Table(acc), map, obj, obj_index, m2)->Table_0;
            forall|k: Seq<char>| #[trigger] t1.contains_key(k) ==> t2.contains_key(k) && t2[k] == t1[k]
        }),
    decreases m2 - m1,
{
    if m1 < m2 {
        if !(add_symbols(TableOutcome::Table(acc), map, obj, obj_index, m2 - 1) is Table) {
            lemma_add_symbols_stuck(add_symbols(TableOutcome::Table(acc), map, obj, obj_index, m2 - 1), map, obj, obj_index, 0);
            lemma_add_symbols_stuck_from(TableOutcome::Table(acc), map, obj, obj_index, m2 - 1, m2);
        }
        lemma_add_symbols_keeps(acc, map, obj, obj_index, m1, m2 - 1);
    }
}

/// Building the table keeps every name already in it, at its place.
proof fn lemma_table_keeps(objs: Seq<ObjectFile>, map: Map<(usize, Seq<char>), PeSectionPosition>, n1: int, n2: int)
    requires
        0 <= n1 <= n2,
        symbol_table_of(objs, map, n2) is Table,
    ensures
        symbol_table_of(objs, map, n1) is Table,
        ({
            let t1 = symbol_table_of(objs, map, n1)->Table_0;
            let t2 = symbol_table_of(objs, map, n2)->Table_0;
            forall|k: Seq<char>| #[trigger] t1.contains_key(k) ==> t2.contains_key(k) && t2[k] == t1[k]
        }),
    decreases n2 - n1,
{
    if n1 < n2 {
        let prev = symbol_table_of(objs, map, n2 - 1);
        if !(prev is Table) {
            lemma_table_stuck(objs, map, n2 - 1, n2);
        }
        lemma_table_keeps(objs, map, n1, n2 - 1);
        let o = objs[n2 - 1];
        lemma_add_symbols_keeps(prev->Table_0, map, o, (n2 - 1) as usize, 0, o.symbols@.len() as int);
    }
}

/// Every external symbol with a name, defined in a section of its object that the
/// layout placed, is in the symbol table, at that section's place in the PE
/// sections plus the symbol's value.
pub proof fn law_symbol_positions(objs: Seq<ObjectFile>, map: Map<(usize, Seq<char>), PeSectionPosition>, o: int, j: int)
    requires
        symbol_table_of(objs, map, objs.len() as int) is Table,
        0 <= o < objs.len(),
        0 <= j < objs[o].symbols@.len(),
        objs[o].symbols@[j].symbol.storage_class == storage_class::EXTERNAL,
        1 <= objs[o].symbols@[j].symbol.section_number <= objs[o].sections@.len(),
        map.contains_key(
            (o as usize, objs[o].sections@[objs[o].symbols@[j].symbol.section_number - 1].header.name_text()),
        ),
        objs[o].symbols@[j].symbol.resolved_name(objs[o].string_table@).len() > 0,
    ensures
        ({
            let sym = objs[o].symbols@[j].symbol;
            let t = symbol_table_of(objs, map, objs.len() as int)->Table_0;
            let name = sym.resolved_name(objs[o].string_table@);
            let place = map[(o as usize, objs[o].sections@[sym.section_number - 1].header.name_text())];
            &&& t.contains_key(name)
            &&& t[name].section_index == place.section_index
            &&& t[name].offset == place.offset + sym.value
        }),
{
    let obj = objs[o];
    let n = objs.len() as int;
    lemma_table_keeps(objs, map, o + 1, n);
    let before = symbol_table_of(objs, map, o);
    assert(symbol_table_of(objs, map, o + 1) == add_symbols(before, map, obj, o as usize, obj.symbols@.len() as int));
    if !(before is Table) {
        lemma_add_symbols_stuck(before, map, obj, o as usize, obj.symbols@.len() as int);
    }
    let acc = before->Table_0;
    lemma_add_symbols_keeps(acc, map, obj, o as usize, j + 1, obj.symbols@.len() as int);
    let tj = add_symbols(TableOutcome::Table(acc), map, obj, o as usize, j);
    if !(tj is Table) {
        lemma_add_symbols_stuck_from(TableOutcome::Table(acc), map, obj, o as usize, j, j + 1);
    }
    let sym = obj.symbols@[j].symbol;
    let key = (o as usize, obj.sections@[sym.section_number - 1].header.name_text());
    let name = sym.resolved_name(obj.string_table@);
    assert(symbol_contribution(map, obj, o as usize, obj.symbols@[j]) == Some(
        (name, map[key].section_index, map[key].offset + sym.value),
    ));
    let tj1 = add_symbols(TableOutcome::Table(acc), map, obj, o as usize, j + 1);
    assert(tj1 == TableOutcome::Table(
        tj->Table_0.insert(name, PeSectionPosition { section_index: map[key].section_index, offset: (map[key].offset + sym.value) as u32 }),
    ));    let t1 = tj1->Table_0;
    assert(t1.contains_key(name));
    let to = add_symbols(TableOutcome::Table(acc), map, obj, o as usize, obj.symbols@.len() as int)->Table_0;
    assert(to.contains_key(name) && to[name] == t1[name]);
    assert(symbol_table_of(objs, map, o + 1)->Table_0 == to);
    let t = symbol_table_of(objs, map, n)->Table_0;
    assert(t.contains_key(name) && t[name] == to[name]);
}

/// Whether `res` is the result of building the symbol table with outcome `o`.
pub open spec fn table_result(res: Result<SymbolTable>, o: TableOutcome) -> bool {
    &&& res is Ok <==> o is Table
    &&& res matches Ok(t) ==> t.wf() && o == TableOutcome::Table(t@)
    &&& res matches Err(e) ==> (e matches LinkerError::DuplicateSymbol(s) && o == TableOutcome::Duplicate(s@))
}

/// Builds the symbol table as `build_symbol_table` does, or gives `None` where a
/// symbol's offset would not fit in 32 bits.
pub fn try_build_symbol_table(obj_files: &[ObjectFile], layout: &SectionLayout) -> (r: Option<Result<SymbolTable>>)
    requires
        layout.obj_section_map.wf(),
    ensures
        r is None <==> symbol_table_of(obj_files@, layout.obj_section_map@, obj_files@.len() as int) is Overflow,
        r matches Some(res) ==> table_result(res, symbol_table_of(obj_files@, layout.obj_section_map@, obj_files@.len() as int)),
{
    let ghost map = layout.obj_section_map@;
    let ghost whole = symbol_table_of(obj_files@, map, obj_files@.len() as int);
    let mut table: SymbolTable = NameMap::new();
    let mut obj_index: usize = 0;
    while obj_index < obj_files.len()
        invariant
            obj_index <= obj_files@.len(),
            map == layout.obj_section_map@,
            layout.obj_section_map.wf(),
            whole == symbol_table_of(obj_files@, map, obj_files@.len() as int),
            table.wf(),
            symbol_table_of(obj_files@, map, obj_index as int) == TableOutcome::Table(table@),
        decreases obj_files@.len() - obj_index,
    {
        let obj = &obj_files[obj_index];
        let ghost before = TableOutcome::Table(table@);
        let mut j: usize = 0;
        while j < obj.symbols.len()
            invariant
                obj_index < obj_files@.len(),
                *obj == obj_files@[obj_index as int],
                map == layout.obj_section_map@,
                layout.obj_section_map.wf(),
                whole == symbol_table_of(obj_files@, map, obj_files@.len() as int),
                before == symbol_table_of(obj_files@, map, obj_index as int),
                j <= obj.symbols@.len(),
                table.wf(),
                add_symbols(before, map, *obj, obj_index, j as int) == TableOutcome::Table(table@),
            decreases obj.symbols@.len() - j,
        {
            let ghost cur = table@;
            let sym = &obj.symbols[j].symbol;
            if sym.storage_class != storage_class::EXTERNAL || sym.section_number == 0 {
                j = j + 1;
                continue;
            }
            let sec_idx = (sym.section_number - 1) as usize;
            if sec_idx >= obj.sections.len() {
                j = j + 1;
                continue;
            }
            let section_name = obj.sections[sec_idx].header.name_str();
            let pos = match layout.obj_section_map.get(obj_index, section_name) {
                Some(p) => *p,
                None => {
                    j = j + 1;
                    continue;
                },
            };
            let name = owned(sym.resolve_name(&obj.string_table));
            if name.as_str().is_empty() {
                j = j + 1;
                continue;
            }
            if table.contains_key(name.as_str()) {
                proof {
                    assert(add_symbols(before, map, *obj, obj_index, j + 1) == TableOutcome::Duplicate(name@));
                    lemma_add_symbols_stuck_from(before, map, *obj, obj_index, j + 1, obj.symbols@.len() as int);
                    lemma_table_stuck(obj_files@, map, obj_index + 1, obj_files@.len() as int);
                }
                return Some(Err(LinkerError::DuplicateSymbol(name)));
            }
            if pos.offset as u64 + sym.value as u64 > u32::MAX as u64 {
                proof {
                    assert(add_symbols(before, map, *obj, obj_index, j + 1) == TableOutcome::Overflow);
                    lemma_add_symbols_stuck_from(before, map, *obj, obj_index, j + 1, obj.symbols@.len() as int);
                    lemma_table_stuck(obj_files@, map, obj_index + 1, obj_files@.len() as int);
                }
                return None;
            }
            table.insert(name, PeSectionPosition { section_index: pos.section_index, offset: pos.offset + sym.value });
            j = j + 1;
        }
        obj_index = obj_index + 1;
    }
    Some(Ok(table))
}

/// Builds the symbol table from the external symbols of all object files; a name
/// defined twice is a `DuplicateSymbol` error.
pub fn build_symbol_table(obj_files: &[ObjectFile], layout: &SectionLayout) -> (res: Result<SymbolTable>)
    requires
        layout.obj_section_map.wf(),
        !(symbol_table_of(obj_files@, layout.obj_section_map@, obj_files@.len() as int) is Overflow),
    ensures
        table_result(res, symbol_table_of(obj_files@, layout.obj_section_map@, obj_files@.len() as int)),
{
    try_build_symbol_table(obj_files, layout).unwrap()
}

} // verus!
