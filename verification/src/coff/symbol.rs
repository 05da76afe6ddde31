//! COFF symbol table entries: 18-byte records.
//!
//! A standard symbol is followed by `number_of_aux_symbols` auxiliary records of
//! 18 bytes each, whose layout depends on the storage class and type of the symbol.
use std::collections::HashMap;
use vstd::prelude::*;

use crate::binary_io::{can_read, le_u16_at, le_u32_at, ByteReader, ReadExt};
use crate::error::{LinkerError, Result};
use crate::text::{bytes_prefix, nul_position, nul_prefix, str_from_utf8, utf8_or_empty};

pub mod special_section;
pub mod storage_class;
pub mod sym_type;

verus! {

broadcast use vstd::std_specs::hash::group_hash_axioms;

/// Function definition (external, function type, defined in a section).
#[derive(Debug, Clone, Copy)]
pub struct AuxFunctionDef {
    pub tag_index: u32,
    pub total_size: u32,
    pub pointer_to_line_number: u32,
    pub pointer_to_next_function: u32,
}

/// `.bf` / `.ef` records (storage class FUNCTION).
#[derive(Debug, Clone, Copy)]
pub struct AuxFunctionBeginEnd {
    pub line_number: u16,
    pub pointer_to_next_function: u32,
}

/// Weak external (external, undefined, value 0).
#[derive(Debug, Clone, Copy)]
pub struct AuxWeakExternal {
    pub tag_index: u32,
    pub characteristics: u32,
}

/// File name (storage class FILE).
#[derive(Debug, Clone, Copy)]
pub struct AuxFile {
    pub file_name: [u8; 18],
}

/// Section definition (storage class STATIC, and every other case).
#[derive(Debug, Clone, Copy)]
pub struct AuxSectionDef {
    pub length: u32,
    pub number_of_relocations: u16,
    pub number_of_line_numbers: u16,
    pub check_sum: u32,
    pub number: u16,
    pub selection: u8,
}

#[derive(Debug, Clone, Copy)]
pub enum AuxSymbol {
    FunctionDef(AuxFunctionDef),
    FunctionBeginEnd(AuxFunctionBeginEnd),
    WeakExternal(AuxWeakExternal),
    File(AuxFile),
    SectionDef(AuxSectionDef),
}

#[derive(Debug, Clone, Copy)]
pub struct StandardSymbol {
    /// Eight bytes: the name itself, or four zero bytes followed by an offset
    /// into the string table.
    pub name: [u8; 8],
    pub value: u32,
    pub section_number: u16,
    pub sym_type: u16,
    pub storage_class: u8,
    pub number_of_aux_symbols: u8,
}

#[derive(Debug, Clone)]
pub struct SymbolEntry {
    pub symbol: StandardSymbol,
    pub aux: Vec<AuxSymbol>,
}

impl StandardSymbol {
    /// Whether `self` is the standard record stored at `d[i..i + 18]`.
    pub open spec fn is_decoded_at(self, d: Seq<u8>, i: int) -> bool {
        &&& self.name@ == d.subrange(i, i + 8)
        &&& self.value == le_u32_at(d, i + 8)
        &&& self.section_number == le_u16_at(d, i + 12)
        &&& self.sym_type == le_u16_at(d, i + 14)
        &&& self.storage_class == d[i + 16]
        &&& self.number_of_aux_symbols == d[i + 17]
    }

    /// Whether the name is an offset into the string table (first four bytes zero).
    pub open spec fn has_long_name(self) -> bool {
        self.name@[0] == 0 && self.name@[1] == 0 && self.name@[2] == 0 && self.name@[3] == 0
    }

    /// The name: the string-table entry at the stored offset (empty if there is
    /// none), or the inline bytes before the first NUL as UTF-8 (empty if invalid).
    pub open spec fn resolved_name(self, table: Map<u32, String>) -> Seq<char> {
        if self.has_long_name() {
            let off = le_u32_at(self.name@, 4);
            if table.contains_key(off) {
                table[off]@
            } else {
                Seq::empty()
            }
        } else {
            utf8_or_empty(nul_prefix(self.name@))
        }
    }

    /// Resolves the symbol's name.
    pub fn resolve_name<'a>(&'a self, string_table: &'a HashMap<u32, String>) -> (r: &'a str)
        ensures
            r@ == self.resolved_name(string_table@),
    {
        if self.name[0] == 0 && self.name[1] == 0 && self.name[2] == 0 && self.name[3] == 0 {
            let offset = self.name[4] as u32 + self.name[5] as u32 * 0x100 + self.name[6] as u32
                * 0x1_0000 + self.name[7] as u32 * 0x100_0000;
            match string_table.get(&offset) {
                Some(s) => s.as_str(),
                None => {
                    proof {
                        reveal_strlit("");
                    }
                    ""
                },
            }
        } else {
            let bytes = self.name.as_slice();
            let end = nul_position(bytes);
            proof {
                crate::text::lemma_first_zero_bounds(self.name@, 0);
            }
            match str_from_utf8(bytes_prefix(bytes, end)) {
                Some(s) => s,
                None => {
                    proof {
                        reveal_strlit("");
                    }
                    ""
                },
            }
        }
    }
}

proof fn lemma_first_zero_at(b: Seq<u8>, k: int, i: int)
    requires
        0 <= i <= k <= b.len(),
        forall|x: int| 0 <= x < k ==> b[x] != 0,
        k == b.len() || b[k] == 0,
    ensures
        crate::text::first_zero_from(b, i) == k,
    decreases k - i,
{
    if i < k {
        lemma_first_zero_at(b, k, i + 1);
    }
}

/// A symbol whose name is stored inline (its first four bytes are not all zero) is
/// named by its bytes before the first NUL, or by all eight where there is none,
/// read as UTF-8 (nothing where they are not UTF-8); the string table plays no part.
pub proof fn law_inline_name(sym: StandardSymbol, table: Map<u32, String>, k: int)
    requires
        !(sym.name@[0] == 0 && sym.name@[1] == 0 && sym.name@[2] == 0 && sym.name@[3] == 0),
        0 <= k <= 8,
        forall|x: int| 0 <= x < k ==> sym.name@[x] != 0,
        k == 8 || sym.name@[k] == 0,
    ensures
        sym.resolved_name(table) == (if vstd::utf8::valid_utf8(sym.name@.take(k)) {
            vstd::utf8::decode_utf8(sym.name@.take(k))
        } else {
            Seq::<char>::empty()
        }),
{
    lemma_first_zero_at(sym.name@, k, 0);
}

/// Which layout the auxiliary records of `sym` have: 0 function definition,
/// 1 function begin/end, 2 weak external, 3 file name, 4 section definition.
pub open spec fn aux_kind(sym: StandardSymbol) -> int {
    if sym.storage_class == storage_class::EXTERNAL && sym.sym_type == sym_type::IS_FUNCTION
        && sym.section_number > 0 {
        0
    } else if sym.storage_class == storage_class::FUNCTION {
        1
    } else if sym.storage_class == storage_class::EXTERNAL && sym.section_number
        == special_section::UNDEFINED && sym.value == 0 {
        2
    } else if sym.storage_class == storage_class::FILE {
        3
    } else {
        4
    }
}

/// Whether `a` is the auxiliary record of `sym` stored at `d[i..i + 18]`.
pub open spec fn aux_decoded_at(a: AuxSymbol, d: Seq<u8>, i: int, sym: StandardSymbol) -> bool {
    let k = aux_kind(sym);
    match a {
        AuxSymbol::FunctionDef(f) => k == 0 && f.tag_index == le_u32_at(d, i) && f.total_size
            == le_u32_at(d, i + 4) && f.pointer_to_line_number == le_u32_at(d, i + 8)
            && f.pointer_to_next_function == le_u32_at(d, i + 12),
        AuxSymbol::FunctionBeginEnd(f) => k == 1 && f.line_number == le_u16_at(d, i + 4)
            && f.pointer_to_next_function == le_u32_at(d, i + 12),
        AuxSymbol::WeakExternal(w) => k == 2 && w.tag_index == le_u32_at(d, i)
            && w.characteristics == le_u32_at(d, i + 4),
        AuxSymbol::File(f) => k == 3 && f.file_name@ == d.subrange(i, i + 18),
        AuxSymbol::SectionDef(s) => k == 4 && s.length == le_u32_at(d, i)
            && s.number_of_relocations == le_u16_at(d, i + 4) && s.number_of_line_numbers
            == le_u16_at(d, i + 6) && s.check_sum == le_u32_at(d, i + 8) && s.number == le_u16_at(
            d,
            i + 12,
        ) && s.selection == d[i + 14],
    }
}

/// Whether `e` is the symbol with its auxiliary records stored from `d[i]` on.
pub open spec fn entry_decoded_at(e: SymbolEntry, d: Seq<u8>, i: int) -> bool {
    &&& e.symbol.is_decoded_at(d, i)
    &&& e.aux@.len() == e.symbol.number_of_aux_symbols
    &&& forall|j: int|
        0 <= j < e.aux@.len() ==> aux_decoded_at(#[trigger] e.aux@[j], d, i + 18 + 18 * j, e.symbol)
}

/// The number of bytes a symbol record starting at `d[i]` takes, auxiliary records included.
pub open spec fn entry_size_at(d: Seq<u8>, i: int) -> int {
    18 * (1 + d[i + 17])
}

/// Reads one standard symbol and the auxiliary records that follow it.
/// `index` counts records: it grows by the number of auxiliary records (the caller
/// adds one for the standard record).
pub fn read_symbol_entry(r: &mut ByteReader, index: &mut u32) -> (res: Result<SymbolEntry>)
    requires
        can_read(old(r).data@, old(r).pos as int, 18) ==> *old(index) + old(r).data@[old(r).pos
            + 17] <= u32::MAX,
    ensures
        final(r).data@ == old(r).data@,
        can_read(old(r).data@, old(r).pos as int, 18) ==> *final(index) == *old(index) + old(
            r,
        ).data@[old(r).pos + 17],
        can_read(old(r).data@, old(r).pos as int, 18) && can_read(
            old(r).data@,
            old(r).pos as int,
            entry_size_at(old(r).data@, old(r).pos as int),
        ) ==> (res matches Ok(e) && entry_decoded_at(e, old(r).data@, old(r).pos as int)
            && final(r).pos == old(r).pos + entry_size_at(old(r).data@, old(r).pos as int)),
        !(can_read(old(r).data@, old(r).pos as int, 18) && can_read(
            old(r).data@,
            old(r).pos as int,
            entry_size_at(old(r).data@, old(r).pos as int),
        )) ==> (res matches Err(LinkerError::Io(_))),
{
    let ghost d = r.data@;
    let ghost c = r.pos as int;
    let sym = StandardSymbol {
        name: r.read_array::<8>()?,
        value: r.read_u32_le()?,
        section_number: r.read_u16_le()?,
        sym_type: r.read_u16_le()?,
        storage_class: r.read_u8()?,
        number_of_aux_symbols: r.read_u8()?,
    };
    *index = *index + sym.number_of_aux_symbols as u32;
    let mut aux: Vec<AuxSymbol> = Vec::new();
    let n = sym.number_of_aux_symbols;
    let mut k: u8 = 0;
    while k < n
        invariant
            r.data@ == d,
            d == old(r).data@,
            c == old(r).pos,
            can_read(d, c, 18),
            n == d[c + 17],
            k <= n,
            n == sym.number_of_aux_symbols,
            r.pos == c + 18 + 18 * k,
            c + 18 + 18 * k <= d.len(),
            *index == *old(index) + n,
            aux@.len() == k,
            forall|j: int| 0 <= j < k ==> aux_decoded_at(#[trigger] aux@[j], d, c + 18 + 18 * j, sym),
            !can_read(d, c, 18 * (1 + n)) ==> !can_read(d, c + 18 + 18 * k, 18 * (n - k)),
        decreases n - k,
    {
        let a = read_aux_symbol(r, &sym)?;
        aux.push(a);
        k = k + 1;
    }
    Ok(SymbolEntry { symbol: sym, aux })
}

fn read_aux_symbol(r: &mut ByteReader, sym: &StandardSymbol) -> (res: Result<AuxSymbol>)
    ensures
        final(r).data@ == old(r).data@,
        can_read(old(r).data@, old(r).pos as int, 18) ==> (res matches Ok(a) && aux_decoded_at(
            a,
            old(r).data@,
            old(r).pos as int,
            *sym,
        ) && final(r).pos == old(r).pos + 18),
        !can_read(old(r).data@, old(r).pos as int, 18) ==> (res matches Err(LinkerError::Io(_))),
{
    if sym.storage_class == storage_class::EXTERNAL && sym.sym_type == sym_type::IS_FUNCTION
        && sym.section_number > 0 {
        let a = AuxFunctionDef {
            tag_index: r.read_u32_le()?,
            total_size: r.read_u32_le()?,
            pointer_to_line_number: r.read_u32_le()?,
            pointer_to_next_function: r.read_u32_le()?,
        };
        r.read_u16_le()?;
        Ok(AuxSymbol::FunctionDef(a))
    } else if sym.storage_class == storage_class::FUNCTION {
        r.read_u32_le()?;
        let line_number = r.read_u16_le()?;
        r.read_bytes(6)?;
        let ptr = r.read_u32_le()?;
        r.read_u16_le()?;
        Ok(AuxSymbol::FunctionBeginEnd(AuxFunctionBeginEnd { line_number, pointer_to_next_function: ptr }))
    } else if sym.storage_class == storage_class::EXTERNAL && sym.section_number
        == special_section::UNDEFINED && sym.value == 0 {
        let a = AuxWeakExternal { tag_index: r.read_u32_le()?, characteristics: r.read_u32_le()? };
        r.read_bytes(10)?;
        Ok(AuxSymbol::WeakExternal(a))
    } else if sym.storage_class == storage_class::FILE {
        Ok(AuxSymbol::File(AuxFile { file_name: r.read_array::<18>()? }))
    } else {
        let a = AuxSectionDef {
            length: r.read_u32_le()?,
            number_of_relocations: r.read_u16_le()?,
            number_of_line_numbers: r.read_u16_le()?,
            check_sum: r.read_u32_le()?,
            number: r.read_u16_le()?,
            selection: r.read_u8()?,
        };
        r.read_bytes(3)?;
        Ok(AuxSymbol::SectionDef(a))
    }
}

} // verus!
