//! A whole COFF object file.
use std::collections::HashMap;
use vstd::prelude::*;

use crate::binary_io::{bytes_at, can_read, le_u16_at, le_u32_at, ByteReader, ReadExt};
use crate::error::{LinkerError, Result};
use crate::text::{first_zero_from, latin1, latin1_string, lemma_first_zero_bounds};

use super::file_header::FileHeader;
use super::section_header::SectionHeader;
use super::symbol::{entry_decoded_at, read_symbol_entry, StandardSymbol, SymbolEntry};

verus! {

broadcast use vstd::std_specs::hash::group_hash_axioms;

// ---------------------------------------------------------------------------
// Relocation entries
// ---------------------------------------------------------------------------

/// Intel 386 relocation types.
#[derive(Debug, Clone, Copy, PartialEq, Eq, Structural)]
pub enum RelocType {
    /// 0x00: ignored.
    Absolute,
    /// 0x06: 32-bit virtual address (RVA plus image base).
    Dir32va,
    /// 0x07: 32-bit relative virtual address.
    Dir32rva,
    /// 0x14: 32-bit displacement for CALL/JMP.
    Rel32,
    Other(u16),
}

/// The relocation type with code `v`.
pub open spec fn reloc_type_of(v: u16) -> RelocType {
    if v == 0x00 {
        RelocType::Absolute
    } else if v == 0x06 {
        RelocType::Dir32va
    } else if v == 0x07 {
        RelocType::Dir32rva
    } else if v == 0x14 {
        RelocType::Rel32
    } else {
        RelocType::Other(v)
    }
}

impl From<u16> for RelocType {
    fn from(v: u16) -> (r: Self) {
        match v {
            0x00 => Self::Absolute,
            0x06 => Self::Dir32va,
            0x07 => Self::Dir32rva,
            0x14 => Self::Rel32,
            other => Self::Other(other),
        }
    }
}

impl vstd::std_specs::convert::FromSpecImpl<u16> for RelocType {
    open spec fn obeys_from_spec() -> bool {
        true
    }

    open spec fn from_spec(v: u16) -> RelocType {
        reloc_type_of(v)
    }
}

#[derive(Debug, Clone, Copy)]
pub struct RelocationEntry {
    /// Offset from the start of the section of the bytes to patch.
    pub virtual_address: u32,
    /// Raw index into the symbol table (auxiliary records counted).
    pub symbol_index: u32,
    pub reloc_type: RelocType,
}

impl RelocationEntry {
    /// Whether `self` is the 10-byte relocation record stored at `d[i..i + 10]`.
    pub open spec fn is_decoded_at(self, d: Seq<u8>, i: int) -> bool {
        &&& self.virtual_address == le_u32_at(d, i)
        &&& self.symbol_index == le_u32_at(d, i + 4)
        &&& self.reloc_type == reloc_type_of(le_u16_at(d, i + 8))
    }

    pub fn read(r: &mut ByteReader) -> (res: Result<Self>)
        ensures
            final(r).data@ == old(r).data@,
            can_read(old(r).data@, old(r).pos as int, 10) ==> (res matches Ok(e)
                && e.is_decoded_at(old(r).data@, old(r).pos as int) && final(r).pos == old(
                r,
            ).pos + 10),
            !can_read(old(r).data@, old(r).pos as int, 10) ==> (res matches Err(
                LinkerError::Io(_),
            )),
    {
        Ok(Self {
            virtual_address: r.read_u32_le()?,
            symbol_index: r.read_u32_le()?,
            reloc_type: RelocType::from(r.read_u16_le()?),
        })
    }
}

// ---------------------------------------------------------------------------
// Sections and the object file
// ---------------------------------------------------------------------------

#[derive(Debug, Clone)]
pub struct ObjectSection {
    pub header: SectionHeader,
    pub data: Vec<u8>,
    pub relocations: Vec<RelocationEntry>,
}

#[derive(Debug, Clone)]
pub struct ObjectFile {
    pub file_header: FileHeader,
    pub sections: Vec<ObjectSection>,
    pub symbols: Vec<SymbolEntry>,
    /// Keyed by byte offset in the string table (the first string is at 4).
    pub string_table: HashMap<u32, String>,
}

/// The raw symbol-table index of entry `j`: each entry takes one record for itself
/// and one per auxiliary record.
pub open spec fn raw_start(s: Seq<SymbolEntry>, j: int) -> int
    decreases j,
{
    if j <= 0 {
        0
    } else {
        raw_start(s, j - 1) + 1 + s[j - 1].aux@.len()
    }
}

pub proof fn lemma_raw_start_increasing(s: Seq<SymbolEntry>, j: int, k: int)
    requires
        0 <= j < k,
    ensures
        raw_start(s, j) < raw_start(s, k),
    decreases k - j,
{
    if k > j + 1 {
        lemma_raw_start_increasing(s, j, k - 1);
    }
}

// ---------------------------------------------------------------------------
// The layout of an object file, as read from its bytes
// ---------------------------------------------------------------------------

/// The outcome of scanning a table: done with an accumulated result, out of input,
/// or an arithmetic overflow of the record counter (where reading would panic).
pub enum Scan<T> {
    Done(T),
    Eof,
    Overflow,
}

/// Walks the symbol table from `pos` while the record counter `i` is below `total`,
/// collecting the start of each standard record; the result also gives the position
/// after the last record read.
pub open spec fn scan_symbols(d: Seq<u8>, pos: int, i: int, total: int, acc: Seq<int>) -> Scan<
    (Seq<int>, int),
>
    decreases total - i,
{
    if i >= total {
        Scan::Done((acc, pos))
    } else if !can_read(d, pos, 18) {
        Scan::Eof
    } else if i + d[pos + 17] > u32::MAX {
        Scan::Overflow
    } else if !can_read(d, pos, 18 * (1 + d[pos + 17])) {
        Scan::Eof
    } else if i + d[pos + 17] + 1 > u32::MAX {
        Scan::Overflow
    } else if i + d[pos + 17] + 1 >= total {
        Scan::Done((acc.push(pos), pos + 18 * (1 + d[pos + 17])))
    } else {
        scan_symbols(d, pos + 18 * (1 + d[pos + 17]), i + d[pos + 17] + 1, total, acc.push(pos))
    }
}

/// Walks the string table: NUL-terminated strings from `pos`, each keyed by `offset`,
/// which grows by the number of bytes of the string read plus one (its NUL), while
/// below `size`.
/// Empty strings are not recorded.
pub open spec fn scan_strings(d: Seq<u8>, pos: int, offset: int, size: int, acc: Map<
    u32,
    Seq<char>,
>) -> Scan<Map<u32, Seq<char>>>
    decreases size - offset,
{
    if offset >= size {
        Scan::Done(acc)
    } else if pos < 0 || first_zero_from(d, pos) >= d.len() {
        Scan::Eof
    } else {
        let bytes = d.subrange(pos, first_zero_from(d, pos));
        let len = (bytes.len() as usize) as u32;
        if offset + len + 1 > u32::MAX {
            Scan::Overflow
        } else {
            let acc2 = if bytes.len() > 0 {
                acc.insert(offset as u32, latin1(bytes))
            } else {
                acc
            };
            if offset + len + 1 >= size {
                Scan::Done(acc2)
            } else {
                scan_strings(d, first_zero_from(d, pos) + 1, offset + len + 1, size, acc2)
            }
        }
    }
}

/// The start of section header `k` of an object file read from `c`.
pub open spec fn section_header_pos(c: int, k: int) -> int {
    c + 20 + 40 * k
}

/// Whether the data and relocations of the section whose header is at `h` can be read.
pub open spec fn section_body_readable(d: Seq<u8>, h: int) -> bool {
    &&& can_read(d, le_u32_at(d, h + 20) as int, le_u32_at(d, h + 16) as int)
    &&& le_u16_at(d, h + 32) > 0 ==> can_read(
        d,
        le_u32_at(d, h + 24) as int,
        10 * le_u16_at(d, h + 32),
    )
}

/// The outcome of reading a whole object file from `d[c]` on: `Done` holds the starts
/// of the symbol records and the string table.
pub open spec fn scan_object(d: Seq<u8>, c: int) -> Scan<(Seq<int>, Map<u32, Seq<char>>)> {
    if !can_read(d, c, 20) {
        Scan::Eof
    } else {
        let fh = FileHeader::decode_at(d, c);
        let n = fh.number_of_sections as int;
        if !can_read(d, c + 20, 40 * n) {
            Scan::Eof
        } else if exists|k: int|
            0 <= k < n && !section_body_readable(d, #[trigger] section_header_pos(c, k)) {
            Scan::Eof
        } else {
            match scan_symbols(
                d,
                fh.pointer_to_symbol_table as int,
                0,
                fh.number_of_symbols as int,
                Seq::empty(),
            ) {
                Scan::Eof => Scan::Eof,
                Scan::Overflow => Scan::Overflow,
                Scan::Done((starts, end)) => if !can_read(d, end, 4) {
                    Scan::Eof
                } else {
                    match scan_strings(d, end + 4, 4, le_u32_at(d, end) as int, Map::empty()) {
                        Scan::Eof => Scan::Eof,
                        Scan::Overflow => Scan::Overflow,
                        Scan::Done(m) => Scan::Done((starts, m)),
                    }
                },
            }
        }
    }
}

/// Whether section `s` is what the header at `h` describes, with its data and relocations.
pub open spec fn section_matches(s: ObjectSection, d: Seq<u8>, h: int) -> bool {
    let ptr = le_u32_at(d, h + 20) as int;
    let size = le_u32_at(d, h + 16) as int;
    let rptr = le_u32_at(d, h + 24) as int;
    let nrel = le_u16_at(d, h + 32) as int;
    &&& s.header.is_decoded_at(d, h)
    &&& s.data@ == bytes_at(d, ptr, size)
    &&& s.relocations@.len() == nrel
    &&& forall|m: int|
        0 <= m < nrel ==> (#[trigger] s.relocations@[m]).is_decoded_at(d, rptr + 10 * m)
}

/// Whether `o` is the object file stored from `d[c]` on, given the record starts and
/// string table that `scan_object` found.
pub open spec fn object_matches(
    o: ObjectFile,
    d: Seq<u8>,
    c: int,
    starts: Seq<int>,
    strings: Map<u32, Seq<char>>,
) -> bool {
    let fh = FileHeader::decode_at(d, c);
    &&& o.file_header == fh
    &&& o.sections@.len() == fh.number_of_sections
    &&& forall|k: int|
        0 <= k < o.sections@.len() ==> section_matches(
            #[trigger] o.sections@[k],
            d,
            section_header_pos(c, k),
        )
    &&& o.symbols@.len() == starts.len()
    &&& forall|j: int| 0 <= j < starts.len() ==> entry_decoded_at(#[trigger] o.symbols@[j], d, starts[j])
    &&& o.string_table@.dom() == strings.dom()
    &&& forall|k: u32| #[trigger] o.string_table@.contains_key(k) ==> o.string_table@[k]@ == strings[k]
}

impl ObjectFile {
    /// The standard symbol at raw symbol-table index `raw_index` (auxiliary records
    /// counted), if an entry starts there.
    pub fn symbol_by_raw_index(&self, raw_index: usize) -> (r: Option<&StandardSymbol>)
        requires
            raw_start(self.symbols@, self.symbols@.len() as int) <= usize::MAX,
        ensures
            r is Some <==> exists|j: int|
                0 <= j < self.symbols@.len() && raw_start(self.symbols@, j) == raw_index,
            forall|j: int|
                0 <= j < self.symbols@.len() && raw_start(self.symbols@, j) == raw_index ==> r
                    == Some(&self.symbols@[j].symbol),
    {
        let mut cur: usize = 0;
        let mut j: usize = 0;
        while j < self.symbols.len()
            invariant
                j <= self.symbols@.len(),
                cur == raw_start(self.symbols@, j as int),
                raw_start(self.symbols@, self.symbols@.len() as int) <= usize::MAX,
                forall|k: int| 0 <= k < j ==> raw_start(self.symbols@, k) != raw_index,
            decreases self.symbols@.len() - j,
        {
            if cur == raw_index {
                proof {
                    assert forall|k: int|
                        0 <= k < self.symbols@.len() && raw_start(self.symbols@, k)
                            == raw_index implies k == j by {
                        if k < j {
                        } else if k > j {
                            lemma_raw_start_increasing(self.symbols@, j as int, k);
                        }
                    }
                }
                return Some(&self.symbols[j].symbol);
            }
            proof {
                lemma_raw_start_mono(self.symbols@, j as int + 1, self.symbols@.len() as int);
            }
            cur = cur + 1 + self.symbols[j].aux.len();
            j = j + 1;
        }
        None
    }

    /// Reads an object file as `read` does, or gives `None` where a symbol or string
    /// table counter would leave 32 bits.
    pub fn try_read(r: &mut ByteReader) -> (r2: Option<Result<Self>>)
        ensures
            r2 is None <==> scan_object(old(r).data@, old(r).pos as int) is Overflow,
            r2 matches Some(res) ==> (res is Ok <==> scan_object(old(r).data@, old(r).pos as int) is Done),
            r2 matches Some(res) ==> (res is Err ==> (res matches Err(LinkerError::Io(_)))),
            r2 matches Some(res) ==> (res matches Ok(o) ==> (scan_object(old(r).data@, old(r).pos as int) matches Scan::Done(
                (starts, strings),
            ) && object_matches(o, old(r).data@, old(r).pos as int, starts, strings))),
    {
        let ghost d = r.data@;
        let ghost c = r.pos as int;
        let file_header = match FileHeader::read(r) {
            Ok(h) => h,
            Err(e) => {
                return Some(Err(e));
            },
        };
        let n = file_header.number_of_sections as usize;
        let headers = match read_section_headers(r, n) {
            Ok(h) => h,
            Err(e) => {
                return Some(Err(e));
            },
        };
        let sections = match read_section_bodies(r, &headers, Ghost(c)) {
            Ok(v) => v,
            Err(e) => {
                return Some(Err(e));
            },
        };
        let ghost p0 = file_header.pointer_to_symbol_table as int;
        match r.set_position(file_header.pointer_to_symbol_table as u64) {
            Ok(()) => {},
            Err(e) => {
                return Some(Err(e));
            },
        }
        let symbols = match try_read_symbols(r, file_header.number_of_symbols) {
            None => {
                return None;
            },
            Some(Ok(v)) => v,
            Some(Err(e)) => {
                return Some(Err(e));
            },
        };
        let string_table = match try_read_string_table(r) {
            None => {
                return None;
            },
            Some(Ok(t)) => t,
            Some(Err(e)) => {
                return Some(Err(e));
            },
        };
        Some(Ok(ObjectFile { file_header, sections, symbols, string_table }))
    }

    /// Reads an object file whose file header is at the reader's position.
    /// Section data, relocations and the symbol table are found by their file offsets;
    /// the string table follows the symbol table.
    pub fn read(r: &mut ByteReader) -> (res: Result<Self>)
        requires
            !(scan_object(old(r).data@, old(r).pos as int) is Overflow),
        ensures
            res is Ok <==> scan_object(old(r).data@, old(r).pos as int) is Done,
            res is Err ==> (res matches Err(LinkerError::Io(_))),
            res matches Ok(o) ==> (scan_object(old(r).data@, old(r).pos as int) matches Scan::Done(
                (starts, strings),
            ) && object_matches(o, old(r).data@, old(r).pos as int, starts, strings)),
    {
        Self::try_read(r).unwrap()
    }
}

fn read_section_headers(r: &mut ByteReader, n: usize) -> (res: Result<Vec<SectionHeader>>)
    requires
        old(r).pos <= old(r).data@.len(),
    ensures
        final(r).data@ == old(r).data@,
        res is Ok <==> can_read(old(r).data@, old(r).pos as int, 40 * n),
        res is Err ==> (res matches Err(LinkerError::Io(_))),
        res matches Ok(hs) ==> hs@.len() == n && final(r).pos == old(r).pos + 40 * n && forall|
            k: int,
        | 0 <= k < n ==> (#[trigger] hs@[k]).is_decoded_at(old(r).data@, old(r).pos + 40 * k),
{
    let ghost d = r.data@;
    let ghost c = r.pos as int;
    let mut hs: Vec<SectionHeader> = Vec::new();
    let mut k: usize = 0;
    while k < n
        invariant
            r.data@ == d,
            d == old(r).data@,
            c == old(r).pos,
            k <= n,
            hs@.len() == k,
            r.pos == c + 40 * k,
            c + 40 * k <= d.len(),
            forall|j: int| 0 <= j < k ==> (#[trigger] hs@[j]).is_decoded_at(d, c + 40 * j),
        decreases n - k,
    {
        let h = SectionHeader::read(r)?;
        hs.push(h);
        k = k + 1;
    }
    Ok(hs)
}

fn read_section_bodies(r: &mut ByteReader, headers: &Vec<SectionHeader>, Ghost(c): Ghost<int>) -> (res:
    Result<Vec<ObjectSection>>)
    requires
        forall|k: int|
            0 <= k < headers@.len() ==> (#[trigger] headers@[k]).is_decoded_at(
                old(r).data@,
                section_header_pos(c, k),
            ),
    ensures
        final(r).data@ == old(r).data@,
        res is Ok <==> forall|k: int|
            0 <= k < headers@.len() ==> section_body_readable(
                old(r).data@,
                #[trigger] section_header_pos(c, k),
            ),
        res is Err ==> (res matches Err(LinkerError::Io(_))),
        res matches Ok(ss) ==> ss@.len() == headers@.len() && forall|k: int|
            0 <= k < ss@.len() ==> section_matches(
                #[trigger] ss@[k],
                old(r).data@,
                section_header_pos(c, k),
            ),
{
    let ghost d = r.data@;
    let mut out: Vec<ObjectSection> = Vec::new();
    let mut k: usize = 0;
    while k < headers.len()
        invariant
            r.data@ == d,
            d == old(r).data@,
            k <= headers@.len(),
            out@.len() == k,
            forall|j: int|
                0 <= j < headers@.len() ==> (#[trigger] headers@[j]).is_decoded_at(
                    d,
                    section_header_pos(c, j),
                ),
            forall|j: int| 0 <= j < k ==> section_body_readable(d, #[trigger] section_header_pos(c, j)),
            forall|j: int| 0 <= j < k ==> section_matches(#[trigger] out@[j], d, section_header_pos(c, j)),
        decreases headers@.len() - k,
    {
        let h = headers[k];
        let ghost hp = section_header_pos(c, k as int);
        r.set_position(h.pointer_to_raw_data as u64)?;
        let data = match r.read_bytes(h.size_of_raw_data as usize) {
            Ok(v) => v,
            Err(e) => {
                assert(!section_body_readable(d, section_header_pos(c, k as int)));
                return Err(e);
            },
        };
        let mut relocations: Vec<RelocationEntry> = Vec::new();
        if h.number_of_relocations > 0 {
            r.set_position(h.pointer_to_relocations as u64)?;
            relocations = match read_relocations(r, h.number_of_relocations) {
                Ok(v) => v,
                Err(e) => {
                    assert(!section_body_readable(d, section_header_pos(c, k as int)));
                    return Err(e);
                },
            };
        }
        let sec = ObjectSection { header: h, data, relocations };
        proof {
            assert(section_body_readable(d, hp));
            assert(section_matches(sec, d, hp));
        }
        out.push(sec);
        k = k + 1;
    }
    Ok(out)
}

fn read_relocations(r: &mut ByteReader, nrel: u16) -> (res: Result<Vec<RelocationEntry>>)
    requires
        nrel > 0,
    ensures
        final(r).data@ == old(r).data@,
        res is Ok <==> can_read(old(r).data@, old(r).pos as int, 10 * nrel),
        res is Err ==> (res matches Err(LinkerError::Io(_))),
        res matches Ok(v) ==> v@.len() == nrel && forall|m: int|
            0 <= m < nrel ==> (#[trigger] v@[m]).is_decoded_at(old(r).data@, old(r).pos + 10 * m),
{
    let ghost d = r.data@;
    let ghost c = r.pos as int;
    let mut relocations: Vec<RelocationEntry> = Vec::new();
    let mut m: u16 = 0;
    while m < nrel
        invariant
            r.data@ == d,
            d == old(r).data@,
            c == old(r).pos,
            m <= nrel,
            relocations@.len() == m,
            r.pos == c + 10 * m,
            m > 0 ==> c + 10 * m <= d.len(),
            forall|j: int| 0 <= j < m ==> (#[trigger] relocations@[j]).is_decoded_at(d, c + 10 * j),
        decreases nrel - m,
    {
        let e = RelocationEntry::read(r)?;
        relocations.push(e);
        m = m + 1;
    }
    Ok(relocations)
}

/// Reads bytes up to a NUL, which is consumed and not returned.
fn read_cstring(r: &mut ByteReader) -> (res: Result<Vec<u8>>)
    ensures
        final(r).data@ == old(r).data@,
        res is Ok <==> first_zero_from(old(r).data@, old(r).pos as int) < old(r).data@.len(),
        res is Err ==> (res matches Err(LinkerError::Io(_))),
        res matches Ok(b) ==> b@ == old(r).data@.subrange(
            old(r).pos as int,
            first_zero_from(old(r).data@, old(r).pos as int),
        ) && final(r).pos == first_zero_from(old(r).data@, old(r).pos as int) + 1,
{
    let ghost d = r.data@;
    let ghost p = r.pos as int;
    if r.pos >= r.data.len() as u64 {
        return Err(crate::error::unexpected_eof());
    }
    proof {
        lemma_first_zero_bounds(d, p);
    }
    let mut bytes: Vec<u8> = Vec::new();
    loop
        invariant_except_break
            r.data@ == d,
            d == old(r).data@,
            p == old(r).pos,
            p <= r.pos <= d.len(),
            bytes@ == d.subrange(p, r.pos as int),
            first_zero_from(d, p) == first_zero_from(d, r.pos as int),
        ensures
            r.data@ == d,
            bytes@ == d.subrange(p, first_zero_from(d, p)),
            r.pos == first_zero_from(d, p) + 1,
            first_zero_from(d, p) < d.len(),
        decreases d.len() - r.pos,
    {
        let ghost q = r.pos as int;
        let b = r.read_u8()?;
        if b == 0 {
            break;
        }
        bytes.push(b);
        assert(bytes@ =~= d.subrange(p, r.pos as int));
    }
    Ok(bytes)
}

fn try_read_symbols(r: &mut ByteReader, total: u32) -> (r2: Option<Result<Vec<SymbolEntry>>>)
    ensures
        final(r).data@ == old(r).data@,
        r2 is None <==> scan_symbols(old(r).data@, old(r).pos as int, 0, total as int, Seq::empty()) is Overflow,
        r2 matches Some(res) ==> (res is Ok <==> scan_symbols(old(r).data@, old(r).pos as int, 0, total as int, Seq::empty()) is Done),
        r2 matches Some(res) ==> (res is Err ==> (res matches Err(LinkerError::Io(_)))),
        r2 matches Some(res) ==> (res matches Ok(es) ==> (scan_symbols(
            old(r).data@,
            old(r).pos as int,
            0,
            total as int,
            Seq::empty(),
        ) matches Scan::Done((starts, end)) && final(r).pos == end && es@.len() == starts.len()
            && forall|j: int| 0 <= j < starts.len() ==> entry_decoded_at(#[trigger] es@[j], old(r).data@, starts[j]))),
{
    let ghost d = r.data@;
    let ghost whole = scan_symbols(d, r.pos as int, 0, total as int, Seq::empty());
    let ghost mut starts: Seq<int> = Seq::empty();
    let mut symbols: Vec<SymbolEntry> = Vec::new();
    let mut i: u32 = 0;
    while i < total
        invariant
            r.data@ == d,
            d == old(r).data@,
            whole == scan_symbols(d, old(r).pos as int, 0, total as int, Seq::empty()),
            whole == scan_symbols(d, r.pos as int, i as int, total as int, starts),
            symbols@.len() == starts.len(),
            forall|j: int| 0 <= j < starts.len() ==> entry_decoded_at(#[trigger] symbols@[j], d, starts[j]),
        decreases u32::MAX - i,
    {
        let ghost p = r.pos as int;
        let ghost i0 = i as int;
        let len = r.data.len() as u64;
        if r.pos <= len && len - r.pos >= 18 {
            let aux = r.data[(r.pos + 17) as usize];
            if i as u64 + aux as u64 > u32::MAX as u64 {
                return None;
            }
        }
        let e = match read_symbol_entry(r, &mut i) {
            Ok(e) => e,
            Err(e) => {
                assert(scan_symbols(d, p, i0, total as int, starts) is Eof);
                return Some(Err(e));
            },
        };
        assert(can_read(d, p, 18));
        assert(i == i0 + d[p + 17]);
        if i == u32::MAX {
            return None;
        }
        i = i + 1;
        proof {
            starts = starts.push(p);
        }
        symbols.push(e);
    }
    Some(Ok(symbols))
}

fn try_read_string_table(r: &mut ByteReader) -> (r2: Option<Result<HashMap<u32, String>>>)
    ensures
        final(r).data@ == old(r).data@,
        r2 is None <==> can_read(old(r).data@, old(r).pos as int, 4) && scan_strings(
            old(r).data@,
            old(r).pos + 4,
            4,
            le_u32_at(old(r).data@, old(r).pos as int) as int,
            Map::empty(),
        ) is Overflow,
        r2 matches Some(res) ==> (res is Ok <==> can_read(old(r).data@, old(r).pos as int, 4) && scan_strings(
            old(r).data@,
            old(r).pos + 4,
            4,
            le_u32_at(old(r).data@, old(r).pos as int) as int,
            Map::empty(),
        ) is Done),
        r2 matches Some(res) ==> (res is Err ==> (res matches Err(LinkerError::Io(_)))),
        r2 matches Some(res) ==> (res matches Ok(t) ==> (scan_strings(
            old(r).data@,
            old(r).pos + 4,
            4,
            le_u32_at(old(r).data@, old(r).pos as int) as int,
            Map::empty(),
        ) matches Scan::Done(m) && t@.dom() == m.dom() && forall|k: u32|
            #[trigger] t@.contains_key(k) ==> t@[k]@ == m[k])),
{
    let ghost d = r.data@;
    let size = match r.read_u32_le() {
        Ok(v) => v,
        Err(e) => {
            return Some(Err(e));
        },
    };
    let ghost whole = scan_strings(d, r.pos as int, 4, size as int, Map::empty());
    let ghost mut acc: Map<u32, Seq<char>> = Map::empty();
    let mut table: HashMap<u32, String> = HashMap::new();
    let mut offset: u32 = 4;
    while offset < size
        invariant
            r.data@ == d,
            d == old(r).data@,
            whole == scan_strings(d, r.pos as int, offset as int, size as int, acc),
            whole == scan_strings(
                d,
                old(r).pos + 4,
                4,
                le_u32_at(d, old(r).pos as int) as int,
                Map::empty(),
            ),
            can_read(d, old(r).pos as int, 4),
            table@.dom() == acc.dom(),
            forall|k: u32| #[trigger] table@.contains_key(k) ==> table@[k]@ == acc[k],
        decreases u32::MAX - offset,
    {
        let ghost p = r.pos as int;
        let bytes = match read_cstring(r) {
            Ok(b) => b,
            Err(e) => {
                assert(scan_strings(d, p, offset as int, size as int, acc) is Eof);
                return Some(Err(e));
            },
        };
        let len = bytes.len() as u32;
        let s = latin1_string(bytes.as_slice());
        let ghost key = offset;
        if !s.as_str().is_empty() {
            table.insert(offset, s);
            proof {
                acc = acc.insert(key, latin1(bytes@));
            }
        }
        if offset as u64 + len as u64 + 1 > u32::MAX as u64 {
            return None;
        }
        offset = offset + len + 1;
    }
    Some(Ok(table))
}

pub proof fn lemma_raw_start_mono(s: Seq<SymbolEntry>, j: int, k: int)
    requires
        0 <= j <= k,
    ensures
        raw_start(s, j) <= raw_start(s, k),
    decreases k - j,
{
    if k > j {
        lemma_raw_start_mono(s, j, k - 1);
    }
}

} // verus!
