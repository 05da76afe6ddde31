//! Merging same-named sections and laying them out in the PE image.
use vstd::prelude::*;

use crate::binary_io::align_up;
use crate::coff::object_file::{ObjectFile, ObjectSection};
use crate::coff::section_header::{ch, SectionHeader};
use crate::pe::dos_header::DosHeader;
use crate::pe::pe_file::PeSection;
use crate::pe::pe_header::PeHeader;
use crate::text::{bytes_prefix, lemma_first_zero_bounds, lossy_string, nul_position, nul_prefix, utf8_lossy};
use vstd::utf8::{decode_utf8, valid_utf8};

use super::name_map::ObjSectionMap;
use super::options::LinkerOptions;

verus! {

// ---------------------------------------------------------------------------
// Public types
// ---------------------------------------------------------------------------

/// Where an object file's section landed: which PE section, at which byte offset.
#[derive(Debug, Clone, Copy)]
pub struct PeSectionPosition {
    pub section_index: usize,
    pub offset: u32,
}

/// The same position in the PE section one later.
pub open spec fn shifted(p: PeSectionPosition) -> PeSectionPosition {
    PeSectionPosition { section_index: (p.section_index + 1) as usize, offset: p.offset }
}

pub struct SectionLayout {
    pub pe_sections: Vec<PeSection>,
    /// (object file index, section name) to its place in the PE sections.
    pub obj_section_map: ObjSectionMap,
    pub size_of_headers: u32,
    pub size_of_code: u32,
    pub size_of_initialized_data: u32,
    pub size_of_uninitialized_data: u32,
    pub base_of_code: u32,
    pub base_of_data: u32,
}

// ---------------------------------------------------------------------------
// Section kinds
// ---------------------------------------------------------------------------

/// The kind of a section by its characteristics, as its sort key:
/// 0 code, 1 initialized data, 2 uninitialized data, 3 other. Code wins over
/// data, data over uninitialized data.
pub open spec fn kind_key(characteristics: u32) -> u32 {
    if characteristics & ch::CONTAINS_CODE != 0 {
        0
    } else if characteristics & ch::CONTAINS_INITIALIZED_DATA != 0 {
        1
    } else if characteristics & ch::CONTAINS_UNINITIALIZED_DATA != 0 {
        2
    } else {
        3
    }
}

#[derive(PartialEq, Eq, Structural)]
enum SectionKind {
    Code,
    Data,
    Bss,
    Other,
}

impl SectionKind {
    spec fn key(self) -> u32 {
        match self {
            SectionKind::Code => 0,
            SectionKind::Data => 1,
            SectionKind::Bss => 2,
            SectionKind::Other => 3,
        }
    }

    fn from_characteristics(characteristics: u32) -> (k: Self)
        ensures
            k.key() == kind_key(characteristics),
    {
        if characteristics & ch::CONTAINS_CODE != 0 {
            SectionKind::Code
        } else if characteristics & ch::CONTAINS_INITIALIZED_DATA != 0 {
            SectionKind::Data
        } else if characteristics & ch::CONTAINS_UNINITIALIZED_DATA != 0 {
            SectionKind::Bss
        } else {
            SectionKind::Other
        }
    }

    /// Code = 0, Data = 1, Bss = 2, Other = 3.
    fn sort_key(&self) -> (r: u32)
        ensures
            r == self.key(),
    {
        match self {
            SectionKind::Code => 0,
            SectionKind::Data => 1,
            SectionKind::Bss => 2,
            SectionKind::Other => 3,
        }
    }
}

// ---------------------------------------------------------------------------
// Merging
// ---------------------------------------------------------------------------

/// The name under which sections are merged: the bytes before the first NUL,
/// decoded as `String::from_utf8_lossy` does (as UTF-8 where they are valid).
pub open spec fn merge_key(name: [u8; 8]) -> Seq<char> {
    if valid_utf8(nul_prefix(name@)) {
        decode_utf8(nul_prefix(name@))
    } else {
        utf8_lossy(nul_prefix(name@))
    }
}

/// A merged section as a value. Name and characteristics come from the first section
/// of that name; `data` concatenates the data of all of them; `refs` gives, for each,
/// its object file index and where its data starts.
pub ghost struct MergedSpec {
    pub name: [u8; 8],
    pub data: Seq<u8>,
    pub characteristics: u32,
    pub refs: Seq<(usize, u32)>,
}

/// The index of the first merged section with key `key` at or after `i`, or `acc.len()`.
pub open spec fn find_merged(acc: Seq<MergedSpec>, key: Seq<char>, i: int) -> int
    decreases acc.len() - i,
{
    if i >= acc.len() {
        acc.len() as int
    } else if merge_key(acc[i].name) == key {
        i
    } else {
        find_merged(acc, key, i + 1)
    }
}

/// Adds the section `sec` of object file `obj_index`: appended to the merged section
/// of the same key, or added as a new merged section at the end.
pub open spec fn merge_step(acc: Seq<MergedSpec>, obj_index: usize, sec: ObjectSection) -> Seq<
    MergedSpec,
> {
    let k = find_merged(acc, merge_key(sec.header.name), 0);
    if k < acc.len() {
        let m = acc[k];
        acc.update(
            k,
            MergedSpec {
                name: m.name,
                data: m.data + sec.data@,
                characteristics: m.characteristics,
                refs: m.refs.push((obj_index, m.data.len() as u32)),
            },
        )
    } else {
        acc.push(
            MergedSpec {
                name: sec.header.name,
                data: sec.data@,
                characteristics: sec.header.characteristics,
                refs: seq![(obj_index, 0u32)],
            },
        )
    }
}

/// `acc` with the first `m` sections of object file `obj_index` added.
pub open spec fn merge_sections_of(acc: Seq<MergedSpec>, obj_index: usize, secs: Seq<ObjectSection>, m: int) -> Seq<MergedSpec>
    decreases m,
{
    if m <= 0 {
        acc
    } else {
        merge_step(merge_sections_of(acc, obj_index, secs, m - 1), obj_index, secs[m - 1])
    }
}

/// The merged sections of the first `n` object files, in order of first appearance.
pub open spec fn merge_objects(objs: Seq<ObjectFile>, n: int) -> Seq<MergedSpec>
    decreases n,
{
    if n <= 0 {
        Seq::empty()
    } else {
        let obj = objs[n - 1];
        merge_sections_of(merge_objects(objs, n - 1), (n - 1) as usize, obj.sections@, obj.sections@.len() as int)
    }
}

/// The merged sections of `s` whose kind has key `k`, in order.
pub open spec fn select_kind(s: Seq<MergedSpec>, k: u32) -> Seq<MergedSpec>
    decreases s.len(),
{
    if s.len() == 0 {
        Seq::empty()
    } else if kind_key(s.last().characteristics) == k {
        select_kind(s.drop_last(), k).push(s.last())
    } else {
        select_kind(s.drop_last(), k)
    }
}

/// The merged sections ordered by kind (code, data, uninitialized data, other),
/// keeping their order within a kind: a stable sort by kind.
pub open spec fn sorted_by_kind(s: Seq<MergedSpec>) -> Seq<MergedSpec> {
    select_kind(s, 0) + select_kind(s, 1) + select_kind(s, 2) + select_kind(s, 3)
}

struct ObjSectionRef {
    obj_index: usize,
    offset: u32,
}

struct MergedSection {
    name: [u8; 8],
    data: Vec<u8>,
    characteristics: u32,
    obj_sections: Vec<ObjSectionRef>,
}

impl MergedSection {
    spec fn view(self) -> MergedSpec {
        MergedSpec {
            name: self.name,
            data: self.data@,
            characteristics: self.characteristics,
            refs: self.obj_sections@.map_values(|r: ObjSectionRef| (r.obj_index, r.offset)),
        }
    }

    fn kind(&self) -> (k: SectionKind)
        ensures
            k.key() == kind_key(self.characteristics),
    {
        SectionKind::from_characteristics(self.characteristics)
    }
}

spec fn merged_view(v: Seq<MergedSection>) -> Seq<MergedSpec> {
    v.map_values(|m: MergedSection| m.view())
}

/// The merge key of a section name, as a `String`.
fn name_to_str(name: &[u8; 8]) -> (s: String)
    ensures
        s@ == merge_key(*name),
{
    let bytes = name.as_slice();
    let end = nul_position(bytes);
    proof {
        lemma_first_zero_bounds(name@, 0);
    }
    lossy_string(bytes_prefix(bytes, end))
}

/// The position of the first name equal to `name`, or `order.len()` when there is none.
fn find_name(order: &Vec<String>, name: &String) -> (k: usize)
    ensures
        k <= order@.len(),
        forall|j: int| 0 <= j < k ==> (#[trigger] order@[j])@ != name@,
        k < order@.len() ==> order@[k as int]@ == name@,
{
    let mut k: usize = 0;
    while k < order.len()
        invariant
            k <= order@.len(),
            forall|j: int| 0 <= j < k ==> (#[trigger] order@[j])@ != name@,
        decreases order@.len() - k,
    {
        if order[k].eq(name) {
            return k;
        }
        k = k + 1;
    }
    k
}

proof fn lemma_find_merged(acc: Seq<MergedSpec>, key: Seq<char>, r: int, i: int)
    requires
        0 <= i <= r <= acc.len(),
        forall|j: int| 0 <= j < r ==> merge_key(#[trigger] acc[j].name) != key,
        r < acc.len() ==> merge_key(acc[r].name) == key,
    ensures
        find_merged(acc, key, i) == r,
    decreases r - i,
{
    if i < r {
        lemma_find_merged(acc, key, r, i + 1);
    }
}

fn merge_sections(obj_files: &[ObjectFile]) -> (r: Vec<MergedSection>)
    ensures
        merged_view(r@) == merge_objects(obj_files@, obj_files@.len() as int),
{
    let mut order: Vec<String> = Vec::new();
    let mut merged: Vec<MergedSection> = Vec::new();
    let mut obj_index: usize = 0;
    while obj_index < obj_files.len()
        invariant
            obj_index <= obj_files@.len(),
            order@.len() == merged@.len(),
            forall|j: int| 0 <= j < order@.len() ==> (#[trigger] order@[j])@ == merge_key(merged@[j].name),
            merged_view(merged@) == merge_objects(obj_files@, obj_index as int),
        decreases obj_files@.len() - obj_index,
    {
        let obj = &obj_files[obj_index];
        let ghost before = merged_view(merged@);
        let mut si: usize = 0;
        while si < obj.sections.len()
            invariant
                obj_index < obj_files@.len(),
                *obj == obj_files@[obj_index as int],
                si <= obj.sections@.len(),
                order@.len() == merged@.len(),
                forall|j: int| 0 <= j < order@.len() ==> (#[trigger] order@[j])@ == merge_key(merged@[j].name),
                before == merge_objects(obj_files@, obj_index as int),
                merged_view(merged@) == merge_sections_of(before, obj_index, obj.sections@, si as int),
            decreases obj.sections@.len() - si,
        {
            let obj_sec = &obj.sections[si];
            let name = name_to_str(&obj_sec.header.name);
            let ghost acc = merged_view(merged@);
            let k = find_name(&order, &name);
            proof {
                assert forall|j: int| 0 <= j < k implies merge_key(#[trigger] acc[j].name) != name@ by {
                    assert(order@[j]@ == merge_key(merged@[j].name));
                }
                if k < order@.len() {
                    assert(order@[k as int]@ == merge_key(merged@[k as int].name));
                }
                lemma_find_merged(acc, name@, k as int, 0);
            }
            assert(find_merged(acc, name@, 0) == k);
            if k < order.len() {
                let ghost old_m = merged@[k as int];
                let m = &mut merged[k];
                let offset = m.data.len() as u32;
                m.obj_sections.push(ObjSectionRef { obj_index, offset });
                m.data.extend_from_slice(obj_sec.data.as_slice());
                proof {
                    assert(m.data@ =~= old_m.data@ + obj_sec.data@);
                    assert(m.obj_sections@.map_values(|r: ObjSectionRef| (r.obj_index, r.offset))
                        =~= old_m.obj_sections@.map_values(|r: ObjSectionRef| (r.obj_index, r.offset)).push(
                        (obj_index, offset),
                    ));
                }
            } else {
                order.push(name);
                let mut refs: Vec<ObjSectionRef> = Vec::new();
                refs.push(ObjSectionRef { obj_index, offset: 0 });
                let data = obj_sec.data.clone();
                assert(data@ =~= obj_sec.data@);
                let ms = MergedSection {
                    name: obj_sec.header.name,
                    data,
                    characteristics: obj_sec.header.characteristics,
                    obj_sections: refs,
                };
                assert(ms.view().refs =~= seq![(obj_index, 0u32)]);
                merged.push(ms);
            }
            assert(merged_view(merged@) =~= merge_step(acc, obj_index, *obj_sec));
            si = si + 1;
        }
        obj_index = obj_index + 1;
    }
    merged
}


// ---------------------------------------------------------------------------
// Sorting by kind
// ---------------------------------------------------------------------------

/// The merged sections of kinds below `k`, kind by kind.
pub open spec fn select_below(s: Seq<MergedSpec>, k: u32) -> Seq<MergedSpec>
    decreases k,
{
    if k == 0 {
        Seq::empty()
    } else {
        select_below(s, (k - 1) as u32) + select_kind(s, (k - 1) as u32)
    }
}

/// The indices of the merged sections, ordered as `sorted_by_kind` orders them.
fn kind_order(merged: &Vec<MergedSection>) -> (order: Vec<usize>)
    ensures
        forall|i: int| 0 <= i < order@.len() ==> #[trigger] order@[i] < merged@.len(),
        order@.map_values(|i: usize| merged_view(merged@)[i as int]) == sorted_by_kind(merged_view(merged@)),
{
    let ghost mv = merged_view(merged@);
    let mut order: Vec<usize> = Vec::new();
    let mut k: u32 = 0;
    while k < 4
        invariant
            k <= 4,
            mv == merged_view(merged@),
            forall|i: int| 0 <= i < order@.len() ==> #[trigger] order@[i] < merged@.len(),
            order@.map_values(|i: usize| mv[i as int]) == select_below(mv, k),
        decreases 4 - k,
    {
        let mut i: usize = 0;
        while i < merged.len()
            invariant
                k < 4,
                i <= merged@.len(),
                mv == merged_view(merged@),
                forall|j: int| 0 <= j < order@.len() ==> #[trigger] order@[j] < merged@.len(),
                order@.map_values(|j: usize| mv[j as int]) == select_below(mv, k) + select_kind(
                    mv.take(i as int),
                    k,
                ),
            decreases merged@.len() - i,
        {
            let ghost before = order@;
            assert(mv.take(i + 1).drop_last() =~= mv.take(i as int));
            if merged[i].kind().sort_key() == k {
                order.push(i);
                assert(order@.map_values(|j: usize| mv[j as int]) =~= before.map_values(
                    |j: usize| mv[j as int],
                ).push(mv[i as int]));
            }
            i = i + 1;
            assert(order@.map_values(|j: usize| mv[j as int]) =~= select_below(mv, k) + select_kind(
                mv.take(i as int),
                k,
            ));
        }
        assert(mv.take(merged@.len() as int) =~= mv);
        k = k + 1;
    }
    proof {
        reveal_with_fuel(select_below, 5);
        assert(select_below(mv, 0) =~= Seq::<MergedSpec>::empty());
        assert(select_below(mv, 1) =~= select_kind(mv, 0));
        assert(select_below(mv, 4) =~= sorted_by_kind(mv));
    }
    order
}

// ---------------------------------------------------------------------------
// Layout
// ---------------------------------------------------------------------------

/// The layout being built: the next file offset and virtual address, the PE sections
/// so far (header and data), the object-section map, and the totals for the optional header.
pub ghost struct LayoutState {
    pub size_of_headers: u32,
    pub raw_address: u32,
    pub virtual_address: u32,
    pub sections: Seq<(SectionHeader, Seq<u8>)>,
    pub map: Map<(usize, Seq<char>), PeSectionPosition>,
    pub size_of_code: u32,
    pub size_of_initialized_data: u32,
    pub size_of_uninitialized_data: u32,
    pub base_of_code: u32,
    pub base_of_data: u32,
}

/// `x / d` rounded up.
pub open spec fn div_ceil(x: u32, d: u32) -> int {
    (x / d) as int + if x % d != 0 {
        1int
    } else {
        0int
    }
}

/// `map` with each (object index, offset) of `refs` entered under `name`, in order.
pub open spec fn insert_refs(
    map: Map<(usize, Seq<char>), PeSectionPosition>,
    refs: Seq<(usize, u32)>,
    name: Seq<char>,
    index: usize,
) -> Map<(usize, Seq<char>), PeSectionPosition>
    decreases refs.len(),
{
    if refs.len() == 0 {
        map
    } else {
        insert_refs(map, refs.drop_last(), name, index).insert(
            (refs.last().0, name),
            PeSectionPosition { section_index: index, offset: refs.last().1 },
        )
    }
}

/// Places merged section `m` after the sections laid out in `st`; `None` where a
/// 32-bit quantity would overflow.
///
/// Its file size is its data length rounded up to `fa` (nothing for uninitialized
/// data), at the next file offset; its memory size is its data length rounded up to
/// `sa`, at least `sa`, at the next virtual address.
#[verifier::opaque]
pub open spec fn layout_step(st: LayoutState, m: MergedSpec, fa: u32, sa: u32) -> Option<LayoutState> {
    let kind = kind_key(m.characteristics);
    let len = m.data.len();
    let virtual_size = (if len >= 4 {
        len
    } else {
        4
    }) as usize as u32;
    let len32 = len as usize as u32;
    let raw_size = div_ceil(len32, fa) * fa;
    let raw = if kind == 2 {
        0
    } else {
        raw_size
    };
    let ptr = if kind == 2 {
        0
    } else {
        st.raw_address
    };
    let new_raw = st.raw_address + raw;
    let new_code = if kind == 0 {
        st.size_of_code + raw
    } else {
        st.size_of_code as int
    };
    let new_init = if kind == 1 {
        st.size_of_initialized_data + raw
    } else {
        st.size_of_initialized_data as int
    };
    let new_bss = if kind == 2 {
        st.size_of_uninitialized_data + virtual_size
    } else {
        st.size_of_uninitialized_data as int
    };
    let rounded = ((len32 + sa - 1) as u32 & !((sa - 1) as u32)) as u32;
    let aligned = if rounded >= sa {
        rounded
    } else {
        sa
    };
    if raw_size > u32::MAX || new_raw > u32::MAX || new_code > u32::MAX || new_init > u32::MAX
        || new_bss > u32::MAX || len32 + sa > u32::MAX || st.virtual_address + aligned > u32::MAX {
        None
    } else {
        let index = st.sections.len() as usize;
        let header = SectionHeader {
            name: m.name,
            virtual_size,
            virtual_address: st.virtual_address,
            size_of_raw_data: raw as u32,
            pointer_to_raw_data: ptr,
            pointer_to_relocations: 0,
            pointer_to_line_numbers: 0,
            number_of_relocations: 0,
            number_of_line_numbers: 0,
            characteristics: m.characteristics,
        };
        let data = if kind == 2 {
            Seq::empty()
        } else {
            m.data
        };
        Some(
            LayoutState {
                size_of_headers: st.size_of_headers,
                raw_address: new_raw as u32,
                virtual_address: (st.virtual_address + aligned) as u32,
                sections: st.sections.push((header, data)),
                map: insert_refs(st.map, m.refs, merge_key(m.name), index),
                size_of_code: new_code as u32,
                size_of_initialized_data: new_init as u32,
                size_of_uninitialized_data: new_bss as u32,
                base_of_code: if kind == 0 && st.base_of_code == 0 {
                    st.virtual_address
                } else {
                    st.base_of_code
                },
                base_of_data: if kind == 1 && st.base_of_data == 0 {
                    st.virtual_address
                } else {
                    st.base_of_data
                },
            },
        )
    }
}

/// The layout before any section, for `n` merged sections: room for the headers of
/// `n + 2` sections (two more may be added for imports), rounded up to `fa`; the
/// first section in memory at the page of `sa` after the headers.
#[verifier::opaque]
pub open spec fn layout_start(n: int, fa: u32, sa: u32) -> Option<LayoutState> {
    if n + 2 > usize::MAX {
        None
    } else {
        let max_sections = (n + 2) as usize as u32;
        let table = SectionHeader::SIZE * max_sections;
        let header_bytes = DosHeader::SIZE + PeHeader::SIZE + table;
        if table > u32::MAX || header_bytes > u32::MAX {
            None
        } else {
            let soh = div_ceil(header_bytes as u32, fa) * fa;
            if soh > u32::MAX {
                None
            } else {
                let va = ((soh as u32) / sa + 1) * sa;
                if va > u32::MAX {
                    None
                } else {
                    Some(
                        LayoutState {
                            size_of_headers: soh as u32,
                            raw_address: soh as u32,
                            virtual_address: va as u32,
                            sections: Seq::empty(),
                            map: Map::empty(),
                            size_of_code: 0,
                            size_of_initialized_data: 0,
                            size_of_uninitialized_data: 0,
                            base_of_code: 0,
                            base_of_data: 0,
                        },
                    )
                }
            }
        }
    }
}

/// Lays out the merged sections `s` one after the other, from `start`.
pub open spec fn layout_fold(start: Option<LayoutState>, s: Seq<MergedSpec>, fa: u32, sa: u32) -> Option<LayoutState>
    decreases s.len(),
{
    if s.len() == 0 {
        start
    } else {
        match layout_fold(start, s.drop_last(), fa, sa) {
            None => None,
            Some(st) => layout_step(st, s.last(), fa, sa),
        }
    }
}

/// The layout of the object files: their sections merged by name, sorted by kind,
/// and placed one after the other.
pub open spec fn layout_of(objs: Seq<ObjectFile>, fa: u32, sa: u32) -> Option<LayoutState> {
    let merged = merge_objects(objs, objs.len() as int);
    layout_fold(layout_start(merged.len() as int, fa, sa), sorted_by_kind(merged), fa, sa)
}

/// Whether `layout` holds the layout state `st`.
pub open spec fn layout_matches(layout: SectionLayout, st: LayoutState) -> bool {
    &&& layout.pe_sections@.len() == st.sections.len()
    &&& forall|i: int|
        0 <= i < st.sections.len() ==> (#[trigger] layout.pe_sections@[i]).header == st.sections[i].0
            && layout.pe_sections@[i].data@ == st.sections[i].1
    &&& layout.obj_section_map.wf()
    &&& layout.obj_section_map@ == st.map
    &&& layout.size_of_headers == st.size_of_headers
    &&& layout.size_of_code == st.size_of_code
    &&& layout.size_of_initialized_data == st.size_of_initialized_data
    &&& layout.size_of_uninitialized_data == st.size_of_uninitialized_data
    &&& layout.base_of_code == st.base_of_code
    &&& layout.base_of_data == st.base_of_data
}

/// Where the memory of section `i` of `st` must end: at the next section, or at the
/// next free virtual address after the last.
pub open spec fn next_va(st: LayoutState, i: int) -> int {
    if i + 1 < st.sections.len() {
        st.sections[i + 1].0.virtual_address as int
    } else {
        st.virtual_address as int
    }
}

/// Whether the sections of `st` follow the headers and one another without
/// overlapping. In memory: each starts after the headers, at least `sa` before the
/// next one, and its data ends before the next one begins. In the file: each with
/// file data starts after the headers and after the end of every earlier one, and
/// its data fits in its file size.
pub open spec fn placed_in_order(st: LayoutState, sa: u32) -> bool {
    let s = st.sections;
    &&& st.size_of_headers < st.virtual_address
    &&& st.size_of_headers <= st.raw_address
    &&& forall|i: int| 0 <= i < s.len() ==> st.size_of_headers < (#[trigger] s[i]).0.virtual_address
    &&& forall|i: int|
        0 <= i < s.len() ==> (#[trigger] s[i]).0.virtual_address + s[i].1.len() <= next_va(st, i)
            && s[i].0.virtual_address + sa <= next_va(st, i)
    &&& forall|i: int|
        0 <= i < s.len() && (#[trigger] s[i]).0.size_of_raw_data > 0 ==> st.size_of_headers
            <= s[i].0.pointer_to_raw_data && s[i].0.pointer_to_raw_data + s[i].0.size_of_raw_data <= st.raw_address
            && s[i].1.len() <= s[i].0.size_of_raw_data
    &&& forall|i: int, j: int|
        0 <= i < j < s.len() && (#[trigger] s[i]).0.size_of_raw_data > 0 && (#[trigger] s[j]).0.size_of_raw_data > 0
            ==> s[i].0.pointer_to_raw_data + s[i].0.size_of_raw_data <= s[j].0.pointer_to_raw_data
}

pub(crate) proof fn lemma_round_up_ge(x: u32, m: u32)
    requires
        x as int + m as int <= u32::MAX,
    ensures
        (((x + m) as u32) & !m) as int >= x as int,
{
    let y = (x + m) as u32;
    assert((y & !m) + (y & m) == y && (y & m) <= m) by (bit_vector);
}

proof fn lemma_div_ceil_ge(x: u32, d: u32)
    requires
        d > 0,
    ensures
        div_ceil(x, d) * d >= x,
        div_ceil(x, d) >= 0,
{
    let q = x / d;
    let r = x % d;
    assert(x == q * d + r && 0 <= r < d) by (nonlinear_arith)
        requires
            d > 0,
            q == x / d,
            r == x % d,
    ;
    if r != 0 {
        assert((q + 1) * d == q * d + d) by (nonlinear_arith);
    }
}

/// Placing one more section keeps the sections in order.
proof fn lemma_step_in_order(st: LayoutState, m: MergedSpec, fa: u32, sa: u32)
    requires
        fa > 0,
        sa > 0,
        m.data.len() <= u32::MAX,
        placed_in_order(st, sa),
        layout_step(st, m, fa, sa) is Some,
    ensures
        placed_in_order(layout_step(st, m, fa, sa)->0, sa),
{
    reveal(layout_step);
    let st2 = layout_step(st, m, fa, sa)->0;
    let len32 = m.data.len() as usize as u32;
    lemma_round_up_ge(len32, (sa - 1) as u32);
    lemma_div_ceil_ge(len32, fa);
    let s = st.sections;
    let s2 = st2.sections;
    let n = s.len() as int;
    assert(s2.len() == n + 1);
    assert forall|i: int| 0 <= i < n implies #[trigger] s2[i] == s[i] by {}
    assert forall|i: int| 0 <= i < s2.len() implies st2.size_of_headers < (#[trigger] s2[i]).0.virtual_address by {
        if i < n {
            assert(s2[i] == s[i]);
        }
    }
    assert forall|i: int|
        0 <= i < s2.len() implies (#[trigger] s2[i]).0.virtual_address + s2[i].1.len() <= next_va(st2, i)
            && s2[i].0.virtual_address + sa <= next_va(st2, i) by {
        if i < n {
            assert(s2[i] == s[i]);
            if i + 1 < n {
                assert(s2[i + 1] == s[i + 1]);
            }
        }
    }
    assert forall|i: int|
        0 <= i < s2.len() && (#[trigger] s2[i]).0.size_of_raw_data > 0 implies st2.size_of_headers
            <= s2[i].0.pointer_to_raw_data && s2[i].0.pointer_to_raw_data + s2[i].0.size_of_raw_data
            <= st2.raw_address && s2[i].1.len() <= s2[i].0.size_of_raw_data by {
        if i < n {
            assert(s2[i] == s[i]);
        }
    }
    assert forall|i: int, j: int|
        0 <= i < j < s2.len() && (#[trigger] s2[i]).0.size_of_raw_data > 0 && (#[trigger] s2[j]).0.size_of_raw_data
            > 0 implies s2[i].0.pointer_to_raw_data + s2[i].0.size_of_raw_data <= s2[j].0.pointer_to_raw_data by {
        assert(s2[i] == s[i]);
        if j < n {
            assert(s2[j] == s[j]);
        }
    }
}

/// Every section laid out from `start` is in order, given that each has at most
/// `u32::MAX` bytes.
proof fn lemma_fold_in_order(start: Option<LayoutState>, s: Seq<MergedSpec>, fa: u32, sa: u32)
    requires
        fa > 0,
        sa > 0,
        start matches Some(st) ==> placed_in_order(st, sa),
        forall|i: int| 0 <= i < s.len() ==> (#[trigger] s[i]).data.len() <= u32::MAX,
    ensures
        layout_fold(start, s, fa, sa) matches Some(st) ==> placed_in_order(st, sa),
    decreases s.len(),
{
    if s.len() > 0 {
        assert forall|i: int| 0 <= i < s.drop_last().len() implies (#[trigger] s.drop_last()[i]).data.len() <= u32::MAX by {
            assert(s.drop_last()[i] == s[i]);
        }
        lemma_fold_in_order(start, s.drop_last(), fa, sa);
        if let Some(st) = layout_fold(start, s.drop_last(), fa, sa) {
            if layout_step(st, s.last(), fa, sa) is Some {
                lemma_step_in_order(st, s.last(), fa, sa);
            }
        }
    }
}

/// Whether every position in `m` names one of the first `n` PE sections.
pub open spec fn positions_within<K>(m: Map<K, PeSectionPosition>, n: int) -> bool {
    forall|k: K| #[trigger] m.contains_key(k) ==> m[k].section_index < n
}

proof fn lemma_insert_refs_within(
    map: Map<(usize, Seq<char>), PeSectionPosition>,
    refs: Seq<(usize, u32)>,
    name: Seq<char>,
    index: usize,
    n: int,
)
    requires
        positions_within(map, n),
        index < n,
    ensures
        positions_within(insert_refs(map, refs, name, index), n),
    decreases refs.len(),
{
    if refs.len() > 0 {
        lemma_insert_refs_within(map, refs.drop_last(), name, index, n);
    }
}

proof fn lemma_fold_within(start: Option<LayoutState>, s: Seq<MergedSpec>, fa: u32, sa: u32)
    requires
        start matches Some(st) ==> positions_within(st.map, st.sections.len() as int),
    ensures
        layout_fold(start, s, fa, sa) matches Some(st) ==> positions_within(st.map, st.sections.len() as int),
    decreases s.len(),
{
    if s.len() > 0 {
        lemma_fold_within(start, s.drop_last(), fa, sa);
        if let Some(st) = layout_fold(start, s.drop_last(), fa, sa) {
            reveal(layout_step);
            if layout_step(st, s.last(), fa, sa) is Some {
                let n = st.sections.len() as int;
                lemma_insert_refs_within(st.map, s.last().refs, merge_key(s.last().name), n as usize, n + 1);
            }
        }
    }
}

/// Every position that the layout records for an object section names one of its
/// sections.
pub proof fn lemma_layout_positions_within(objs: Seq<ObjectFile>, fa: u32, sa: u32)
    ensures
        layout_of(objs, fa, sa) matches Some(st) ==> positions_within(st.map, st.sections.len() as int),
{
    let merged = merge_objects(objs, objs.len() as int);
    reveal(layout_start);
    lemma_fold_within(layout_start(merged.len() as int, fa, sa), sorted_by_kind(merged), fa, sa);
}

proof fn lemma_select_kind_from(s: Seq<MergedSpec>, k: u32)
    ensures
        forall|i: int| 0 <= i < select_kind(s, k).len() ==> s.contains(#[trigger] select_kind(s, k)[i]),
    decreases s.len(),
{
    if s.len() > 0 {
        lemma_select_kind_from(s.drop_last(), k);
        let t = select_kind(s, k);
        assert forall|i: int| 0 <= i < t.len() implies s.contains(#[trigger] t[i]) by {
            let d = s.drop_last();
            if i < select_kind(d, k).len() {
                assert(t[i] == select_kind(d, k)[i]);
                let w = choose|w: int| 0 <= w < d.len() && d[w] == t[i];
                assert(s[w] == d[w]);
            } else {
                assert(t[i] == s.last());
                assert(s[s.len() - 1] == s.last());
            }
        }
    }
}

/// Sorting by kind keeps the merged sections, so their sizes too.
proof fn lemma_sorted_sizes(merged: Seq<MergedSpec>)
    requires
        forall|i: int| 0 <= i < merged.len() ==> (#[trigger] merged[i]).data.len() <= u32::MAX,
    ensures
        forall|i: int| 0 <= i < sorted_by_kind(merged).len() ==> (#[trigger] sorted_by_kind(merged)[i]).data.len() <= u32::MAX,
{
    let sorted = sorted_by_kind(merged);
    lemma_select_kind_from(merged, 0);
    lemma_select_kind_from(merged, 1);
    lemma_select_kind_from(merged, 2);
    lemma_select_kind_from(merged, 3);
    assert forall|i: int| 0 <= i < sorted.len() implies (#[trigger] sorted[i]).data.len() <= u32::MAX by {
        let a = select_kind(merged, 0);
        let b = select_kind(merged, 1);
        let c = select_kind(merged, 2);
        let d = select_kind(merged, 3);
        let x = sorted[i];
        if i < a.len() {
            assert(x == a[i]);
        } else if i < a.len() + b.len() {
            assert(x == b[i - a.len()]);
        } else if i < a.len() + b.len() + c.len() {
            assert(x == c[i - a.len() - b.len()]);
        } else {
            assert(x == d[i - a.len() - b.len() - c.len()]);
        }
        assert(merged.contains(x));
    }
}

/// The layout puts the sections one after the other without overlaps, in memory and
/// in the file, after the headers (`placed_in_order`), where no merged section holds
/// more than `u32::MAX` bytes.
pub proof fn law_layout_in_order(objs: Seq<ObjectFile>, fa: u32, sa: u32)
    requires
        fa > 0,
        sa > 0,
        layout_of(objs, fa, sa) is Some,
        forall|i: int|
            0 <= i < merge_objects(objs, objs.len() as int).len() ==> (#[trigger] merge_objects(
                objs,
                objs.len() as int,
            )[i]).data.len() <= u32::MAX,
    ensures
        placed_in_order(layout_of(objs, fa, sa)->0, sa),
{
    let merged = merge_objects(objs, objs.len() as int);
    let sorted = sorted_by_kind(merged);
    let start = layout_start(merged.len() as int, fa, sa);
    reveal(layout_start);
    if let Some(st) = start {
        let soh = st.size_of_headers;
        assert(soh < ((soh / sa + 1) * sa) as int) by (nonlinear_arith)
            requires
                sa > 0,
        ;
    }
    lemma_sorted_sizes(merged);
    lemma_fold_in_order(start, sorted, fa, sa);
}

/// Whether no section of `st` starts before `sa`, the headers take some room, and
/// each section ends in memory, by its virtual size, before any later one begins and
/// before the next free address.
pub open spec fn spread_out(st: LayoutState, sa: u32) -> bool {
    let s = st.sections;
    &&& sa <= st.virtual_address
    &&& 0 < st.size_of_headers
    &&& forall|i: int| 0 <= i < s.len() ==> sa <= (#[trigger] s[i]).0.virtual_address
    &&& forall|i: int|
        0 <= i < s.len() ==> (#[trigger] s[i]).0.virtual_address + s[i].0.virtual_size <= st.virtual_address
    &&& forall|i: int, j: int|
        0 <= i < j < s.len() ==> (#[trigger] s[i]).0.virtual_address + s[i].0.virtual_size <= (
        #[trigger] s[j]).0.virtual_address
}

/// Placing one more section keeps the sections spread out, where the section
/// alignment covers the least virtual size (4).
proof fn lemma_step_spread(st: LayoutState, m: MergedSpec, fa: u32, sa: u32)
    requires
        fa > 0,
        sa >= 4,
        m.data.len() <= u32::MAX,
        spread_out(st, sa),
        layout_step(st, m, fa, sa) is Some,
    ensures
        spread_out(layout_step(st, m, fa, sa)->0, sa),
{
    reveal(layout_step);
    let st2 = layout_step(st, m, fa, sa)->0;
    let len32 = m.data.len() as usize as u32;
    lemma_round_up_ge(len32, (sa - 1) as u32);
    let s = st.sections;
    let s2 = st2.sections;
    let n = s.len() as int;
    assert(s2.len() == n + 1);
    assert forall|i: int| 0 <= i < n implies #[trigger] s2[i] == s[i] by {}
    assert forall|i: int, j: int| 0 <= i < j < s2.len() implies (#[trigger] s2[i]).0.virtual_address
        + s2[i].0.virtual_size <= (#[trigger] s2[j]).0.virtual_address by {
        assert(s2[i] == s[i]);
        if j < n {
            assert(s2[j] == s[j]);
        }
    }
    assert forall|i: int| 0 <= i < s2.len() implies sa <= (#[trigger] s2[i]).0.virtual_address
        && s2[i].0.virtual_address + s2[i].0.virtual_size <= st2.virtual_address by {
        if i < n {
            assert(s2[i] == s[i]);
        }
    }
}

/// Every section laid out from `start` is spread out, given that each has at most
/// `u32::MAX` bytes.
proof fn lemma_fold_spread(start: Option<LayoutState>, s: Seq<MergedSpec>, fa: u32, sa: u32)
    requires
        fa > 0,
        sa >= 4,
        start matches Some(st) ==> spread_out(st, sa),
        forall|i: int| 0 <= i < s.len() ==> (#[trigger] s[i]).data.len() <= u32::MAX,
    ensures
        layout_fold(start, s, fa, sa) matches Some(st) ==> spread_out(st, sa),
    decreases s.len(),
{
    if s.len() > 0 {
        assert forall|i: int| 0 <= i < s.drop_last().len() implies (#[trigger] s.drop_last()[i]).data.len() <= u32::MAX by {
            assert(s.drop_last()[i] == s[i]);
        }
        lemma_fold_spread(start, s.drop_last(), fa, sa);
        if let Some(st) = layout_fold(start, s.drop_last(), fa, sa) {
            if layout_step(st, s.last(), fa, sa) is Some {
                lemma_step_spread(st, s.last(), fa, sa);
            }
        }
    }
}

/// The layout spreads its sections out (`spread_out`), where the section alignment is
/// at least 4 and no merged section holds more than `u32::MAX` bytes.
pub proof fn lemma_layout_spread_out(objs: Seq<ObjectFile>, fa: u32, sa: u32)
    requires
        fa > 0,
        sa >= 4,
        layout_of(objs, fa, sa) is Some,
        forall|i: int|
            0 <= i < merge_objects(objs, objs.len() as int).len() ==> (#[trigger] merge_objects(
                objs,
                objs.len() as int,
            )[i]).data.len() <= u32::MAX,
    ensures
        spread_out(layout_of(objs, fa, sa)->0, sa),
{
    let merged = merge_objects(objs, objs.len() as int);
    let start = layout_start(merged.len() as int, fa, sa);
    reveal(layout_start);
    if let Some(st) = start {
        let soh = st.size_of_headers;
        let header_bytes = DosHeader::SIZE + PeHeader::SIZE + SectionHeader::SIZE * ((merged.len() + 2) as usize as u32);
        lemma_div_ceil_ge(header_bytes as u32, fa);
        assert(sa <= ((soh / sa + 1) * sa) as int) by (nonlinear_arith)
            requires
                sa > 0,
        ;
    }
    lemma_sorted_sizes(merged);
    lemma_fold_spread(start, sorted_by_kind(merged), fa, sa);
}

fn div_ceil_exec(x: u32, d: u32) -> (r: u32)
    requires
        d > 0,
    ensures
        r == div_ceil(x, d),
{
    let q = x / d;
    if x % d != 0 {
        assert(d >= 2);
        assert(q <= x / 2) by (nonlinear_arith)
            requires
                d >= 2,
                q == x / d,
        ;
        q + 1
    } else {
        q
    }
}

fn insert_refs_exec(map: &mut ObjSectionMap, refs: &Vec<ObjSectionRef>, name: &String, index: usize)
    requires
        old(map).wf(),
    ensures
        final(map).wf(),
        final(map)@ == insert_refs(
            old(map)@,
            refs@.map_values(|r: ObjSectionRef| (r.obj_index, r.offset)),
            name@,
            index,
        ),
{
    let ghost rv = refs@.map_values(|r: ObjSectionRef| (r.obj_index, r.offset));
    let mut t: usize = 0;
    while t < refs.len()
        invariant
            t <= refs@.len(),
            rv == refs@.map_values(|r: ObjSectionRef| (r.obj_index, r.offset)),
            map.wf(),
            map@ == insert_refs(old(map)@, rv.take(t as int), name@, index),
        decreases refs@.len() - t,
    {
        let r = &refs[t];
        map.insert(r.obj_index, name.clone(), PeSectionPosition { section_index: index, offset: r.offset });
        assert(rv.take(t + 1).drop_last() =~= rv.take(t as int));
        t = t + 1;
    }
    assert(rv.take(t as int) =~= rv);
}

/// A layout under construction: the layout so far and the next file offset and
/// virtual address.
struct LayoutBuilder {
    layout: SectionLayout,
    raw_address: u32,
    virtual_address: u32,
}

impl LayoutBuilder {
    spec fn view(self) -> LayoutState {
        LayoutState {
            size_of_headers: self.layout.size_of_headers,
            raw_address: self.raw_address,
            virtual_address: self.virtual_address,
            sections: self.layout.pe_sections@.map_values(|p: PeSection| (p.header, p.data@)),
            map: self.layout.obj_section_map@,
            size_of_code: self.layout.size_of_code,
            size_of_initialized_data: self.layout.size_of_initialized_data,
            size_of_uninitialized_data: self.layout.size_of_uninitialized_data,
            base_of_code: self.layout.base_of_code,
            base_of_data: self.layout.base_of_data,
        }
    }

    fn start(n: usize, fa: u32, sa: u32) -> (b: LayoutBuilder)
        requires
            fa > 0,
            sa > 0,
            layout_start(n as int, fa, sa) is Some,
        ensures
            b.layout.obj_section_map.wf(),
            Some(b.view()) == layout_start(n as int, fa, sa),
    {
        reveal(layout_start);
        let max_sections = (n + 2) as u32;
        let header_bytes = DosHeader::SIZE + PeHeader::SIZE + SectionHeader::SIZE * max_sections;
        let q = div_ceil_exec(header_bytes, fa);
        assert(q * fa <= u32::MAX);
        let size_of_headers = q * fa;
        assert(((size_of_headers / sa) + 1) * sa <= u32::MAX);
        assert((size_of_headers / sa) + 1 <= u32::MAX) by (nonlinear_arith)
            requires
                ((size_of_headers / sa) + 1) * sa <= u32::MAX,
                sa >= 1,
        ;
        let p = size_of_headers / sa + 1;
        assert(p * sa <= u32::MAX);
        let virtual_address = p * sa;
        let b = LayoutBuilder {
            layout: SectionLayout {
                pe_sections: Vec::new(),
                obj_section_map: ObjSectionMap::new(),
                size_of_headers,
                size_of_code: 0,
                size_of_initialized_data: 0,
                size_of_uninitialized_data: 0,
                base_of_code: 0,
                base_of_data: 0,
            },
            raw_address: size_of_headers,
            virtual_address,
        };
        assert(b.view().sections =~= Seq::<(SectionHeader, Seq<u8>)>::empty());
        b
    }

    /// Places `section` after the sections placed so far.
    fn place(&mut self, section: &MergedSection, fa: u32, sa: u32)
        requires
            fa > 0,
            sa > 0,
            old(self).layout.obj_section_map.wf(),
            layout_step(old(self).view(), section.view(), fa, sa) is Some,
        ensures
            final(self).layout.obj_section_map.wf(),
            Some(final(self).view()) == layout_step(old(self).view(), section.view(), fa, sa),
    {
        reveal(layout_step);
        let ghost m = section.view();
        let ghost next = layout_step(self.view(), m, fa, sa)->0;
        let kind = section.kind();
        let len = section.data.len();
        let virtual_size = (if len >= 4 {
            len
        } else {
            4
        }) as u32;
        let mut size_of_raw_data: u32 = 0;
        let mut pointer_to_raw_data: u32 = 0;
        if kind != SectionKind::Bss {
            let raw_size = div_ceil_exec(len as u32, fa) * fa;
            pointer_to_raw_data = self.raw_address;
            size_of_raw_data = raw_size;
            self.raw_address = self.raw_address + raw_size;
        }
        let sec_index = self.layout.pe_sections.len();
        let section_name = name_to_str(&section.name);
        insert_refs_exec(&mut self.layout.obj_section_map, &section.obj_sections, &section_name, sec_index);
        match kind {
            SectionKind::Code => {
                self.layout.size_of_code = self.layout.size_of_code + size_of_raw_data;
                if self.layout.base_of_code == 0 {
                    self.layout.base_of_code = self.virtual_address;
                }
            },
            SectionKind::Data => {
                self.layout.size_of_initialized_data = self.layout.size_of_initialized_data
                    + size_of_raw_data;
                if self.layout.base_of_data == 0 {
                    self.layout.base_of_data = self.virtual_address;
                }
            },
            SectionKind::Bss => {
                self.layout.size_of_uninitialized_data = self.layout.size_of_uninitialized_data
                    + virtual_size;
            },
            SectionKind::Other => {},
        }
        let rounded = align_up(len as u32, sa);
        let aligned_virtual_size = if rounded >= sa {
            rounded
        } else {
            sa
        };
        let header = SectionHeader {
            name: section.name,
            virtual_size,
            virtual_address: self.virtual_address,
            size_of_raw_data,
            pointer_to_raw_data,
            pointer_to_relocations: 0,
            pointer_to_line_numbers: 0,
            number_of_relocations: 0,
            number_of_line_numbers: 0,
            characteristics: section.characteristics,
        };
        let data = if kind == SectionKind::Bss {
            Vec::new()
        } else {
            let d = section.data.clone();
            assert(d@ =~= section.data@);
            d
        };
        let ghost before = self.layout.pe_sections@;
        self.layout.pe_sections.push(PeSection { header, data });
        self.virtual_address = self.virtual_address + aligned_virtual_size;
        proof {
            assert(self.layout.pe_sections@.map_values(|p: PeSection| (p.header, p.data@))
                =~= before.map_values(|p: PeSection| (p.header, p.data@)).push(
                (header, next.sections.last().1),
            ));
        }
    }
}

/// Merges the sections of the object files by name, sorts them by kind and fixes
/// their file offsets and virtual addresses.
pub fn merge_and_layout(obj_files: &[ObjectFile], opts: &LinkerOptions) -> (layout: SectionLayout)
    requires
        opts.file_alignment > 0,
        opts.section_alignment > 0,
        layout_of(obj_files@, opts.file_alignment, opts.section_alignment) is Some,
    ensures
        layout_matches(layout, layout_of(obj_files@, opts.file_alignment, opts.section_alignment)->0),
{
    try_merge_and_layout(obj_files, opts).unwrap()
}

/// Whether the headers of `n` sections fit in 32-bit sizes (`layout_start` is defined).
fn start_fits(n: usize, fa: u32, sa: u32) -> (r: bool)
    requires
        fa > 0,
        sa > 0,
    ensures
        r == (layout_start(n as int, fa, sa) is Some),
{
    reveal(layout_start);
    if n > usize::MAX - 2 {
        return false;
    }
    let max_sections = (n + 2) as u32;
    let table: u64 = SectionHeader::SIZE as u64 * max_sections as u64;
    let header_bytes: u64 = DosHeader::SIZE as u64 + PeHeader::SIZE as u64 + table;
    if table > u32::MAX as u64 || header_bytes > u32::MAX as u64 {
        return false;
    }
    let q = div_ceil_exec(header_bytes as u32, fa) as u64;
    assert(q * fa <= 0xffff_ffffu64 * 0xffff_ffffu64) by (nonlinear_arith)
        requires
            q <= 0xffff_ffffu64,
            fa <= 0xffff_ffffu64,
    ;
    let soh: u64 = q * fa as u64;
    if soh > u32::MAX as u64 {
        return false;
    }
    let p: u64 = soh / sa as u64 + 1;
    assert(p * sa <= 0x1_0000_0000u64 * 0xffff_ffffu64) by (nonlinear_arith)
        requires
            p <= 0x1_0000_0000u64,
            sa <= 0xffff_ffffu64,
    ;
    p * sa as u64 <= u32::MAX as u64
}

/// Whether placing `section` next keeps every size within 32 bits (`layout_step` is defined).
fn step_fits(b: &LayoutBuilder, section: &MergedSection, fa: u32, sa: u32) -> (r: bool)
    requires
        fa > 0,
        sa > 0,
    ensures
        r == (layout_step(b.view(), section.view(), fa, sa) is Some),
{
    reveal(layout_step);
    let kind = section.kind();
    let len = section.data.len();
    let len32 = len as u32;
    let virtual_size = (if len >= 4 {
        len
    } else {
        4
    }) as u32;
    let q = div_ceil_exec(len32, fa) as u64;
    assert(q * fa <= 0xffff_ffffu64 * 0xffff_ffffu64) by (nonlinear_arith)
        requires
            q <= 0xffff_ffffu64,
            fa <= 0xffff_ffffu64,
    ;
    let raw_size: u64 = q * fa as u64;
    let raw: u64 = if kind == SectionKind::Bss {
        0
    } else {
        raw_size
    };
    let new_raw: u64 = b.raw_address as u64 + raw;
    let new_code: u64 = if kind == SectionKind::Code {
        b.layout.size_of_code as u64 + raw
    } else {
        b.layout.size_of_code as u64
    };
    let new_init: u64 = if kind == SectionKind::Data {
        b.layout.size_of_initialized_data as u64 + raw
    } else {
        b.layout.size_of_initialized_data as u64
    };
    let new_bss: u64 = if kind == SectionKind::Bss {
        b.layout.size_of_uninitialized_data as u64 + virtual_size as u64
    } else {
        b.layout.size_of_uninitialized_data as u64
    };
    let max = u32::MAX as u64;
    if raw_size > max || new_raw > max || new_code > max || new_init > max || new_bss > max
        || len32 as u64 + sa as u64 > max {
        return false;
    }
    let rounded = align_up(len32, sa);
    let aligned = if rounded >= sa {
        rounded
    } else {
        sa
    };
    b.virtual_address as u64 + aligned as u64 <= max
}

/// Lays out the merged sections, or gives `None` where a size or address would not
/// fit in 32 bits (where `merge_and_layout` is not defined).
pub fn try_merge_and_layout(obj_files: &[ObjectFile], opts: &LinkerOptions) -> (r: Option<SectionLayout>)
    requires
        opts.file_alignment > 0,
        opts.section_alignment > 0,
    ensures
        r is Some <==> layout_of(obj_files@, opts.file_alignment, opts.section_alignment) is Some,
        r matches Some(layout) ==> layout_matches(
            layout,
            layout_of(obj_files@, opts.file_alignment, opts.section_alignment)->0,
        ),
{
    let fa = opts.file_alignment;
    let sa = opts.section_alignment;
    let merged = merge_sections(obj_files);
    let order = kind_order(&merged);
    let ghost mv = merged_view(merged@);
    let ghost sorted = sorted_by_kind(mv);
    let ghost start = layout_start(mv.len() as int, fa, sa);
    if !start_fits(merged.len(), fa, sa) {
        proof {
            lemma_fold_from_none(sorted, fa, sa);
        }
        return None;
    }
    proof {
        assert(sorted.take(0) =~= Seq::<MergedSpec>::empty());
    }
    let mut b = LayoutBuilder::start(merged.len(), fa, sa);
    let mut j: usize = 0;
    while j < order.len()
        invariant
            fa > 0,
            sa > 0,
            mv == merged_view(merged@),
            fa == opts.file_alignment,
            sa == opts.section_alignment,
            mv == merge_objects(obj_files@, obj_files@.len() as int),
            sorted == sorted_by_kind(mv),
            start == layout_start(mv.len() as int, fa, sa),
            forall|i: int| 0 <= i < order@.len() ==> #[trigger] order@[i] < merged@.len(),
            order@.map_values(|i: usize| mv[i as int]) == sorted,
            j <= order@.len(),
            layout_fold(start, sorted.take(j as int), fa, sa) == Some(b.view()),
            b.layout.obj_section_map.wf(),
        decreases order@.len() - j,
    {
        let idx = order[j];
        let section = &merged[idx];
        proof {
            let m = mv[idx as int];
            assert(sorted[j as int] == m);
            assert(sorted.take(j + 1).drop_last() =~= sorted.take(j as int));
            assert(sorted.take(j + 1).last() == m);
            assert(m == section.view());
        }
        if !step_fits(&b, section, fa, sa) {
            proof {
                assert(layout_fold(start, sorted.take(j + 1), fa, sa) is None);
                lemma_fold_none_after(start, sorted, j + 1, fa, sa);
            }
            return None;
        }
        b.place(section, fa, sa);
        j = j + 1;
    }
    assert(sorted.take(order@.len() as int) =~= sorted);
    Some(b.layout)
}

/// Nothing can be laid out after a start that cannot.
proof fn lemma_fold_from_none(s: Seq<MergedSpec>, fa: u32, sa: u32)
    ensures
        layout_fold(None, s, fa, sa) is None,
    decreases s.len(),
{
    if s.len() > 0 {
        lemma_fold_from_none(s.drop_last(), fa, sa);
    }
}

/// Once a prefix cannot be laid out, neither can the whole.
proof fn lemma_fold_none_after(start: Option<LayoutState>, s: Seq<MergedSpec>, j: int, fa: u32, sa: u32)
    requires
        0 <= j <= s.len(),
        layout_fold(start, s.take(j), fa, sa) is None,
    ensures
        layout_fold(start, s, fa, sa) is None,
    decreases s.len(),
{
    if j == s.len() {
        assert(s.take(j) =~= s);
    } else {
        assert(s.drop_last().take(j) =~= s.take(j));
        lemma_fold_none_after(start, s.drop_last(), j, fa, sa);
    }
}

} // verus!
