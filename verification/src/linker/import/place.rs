//! Where the sections added for imports go: after every section in memory and in
//! the file.
use vstd::prelude::*;

use crate::binary_io::align_up;
use crate::linker::options::LinkerOptions;
use crate::pe::pe_file::PeSection;

verus! {

/// A section's place: virtual address, virtual size, file offset, size in the file.
pub type Geometry = (u32, u32, u32, u32);

/// The place of each section.
pub open spec fn geometries(s: Seq<PeSection>) -> Seq<Geometry> {
    s.map_values(
        |p: PeSection|
            (
                p.header.virtual_address,
                p.header.virtual_size,
                p.header.pointer_to_raw_data,
                p.header.size_of_raw_data,
            ),
    )
}

/// `size` rounded up by the bit mask of `align` (as `align_up` computes it).
pub open spec fn align_up_spec(size: u32, align: u32) -> u32 {
    ((size + align - 1) as u32) & !((align - 1) as u32)
}

/// The end in memory of a section at `va` of size `vs`: its size rounded up to the
/// section alignment, and at least one alignment unit.
pub open spec fn end_va(va: u32, vs: u32, sa: u32) -> int {
    va + if align_up_spec(vs, sa) >= sa { align_up_spec(vs, sa) as int } else { sa as int }
}

/// Whether the end in memory of each section is computed within 32 bits.
pub open spec fn ends_fit(g: Seq<Geometry>, sa: u32) -> bool {
    forall|i: int|
        0 <= i < g.len() ==> (#[trigger] g[i]).1 + sa - 1 <= u32::MAX && end_va(g[i].0, g[i].1, sa) <= u32::MAX
}

/// The greatest end in memory of the first `k` sections (-1 for none).
pub open spec fn max_end_va(g: Seq<Geometry>, sa: u32, k: int) -> int
    decreases k,
{
    if k <= 0 {
        -1
    } else {
        let prev = max_end_va(g, sa, k - 1);
        let e = end_va(g[k - 1].0, g[k - 1].1, sa);
        if e > prev {
            e
        } else {
            prev
        }
    }
}

/// The virtual address of a section added after the sections `g`: the greatest end
/// in memory, or the section alignment when there is no section.
pub open spec fn next_va_spec(g: Seq<Geometry>, sa: u32) -> int {
    if g.len() == 0 {
        sa as int
    } else {
        max_end_va(g, sa, g.len() as int)
    }
}

/// Whether the end in the file of each section with file data is within 32 bits.
pub open spec fn raw_ends_fit(g: Seq<Geometry>) -> bool {
    forall|i: int| 0 <= i < g.len() && (#[trigger] g[i]).2 > 0 ==> g[i].2 + g[i].3 <= u32::MAX
}

/// The greatest end in the file of the first `k` sections that have a file offset (0 for none).
pub open spec fn max_end_raw(g: Seq<Geometry>, k: int) -> int
    decreases k,
{
    if k <= 0 {
        0
    } else {
        let prev = max_end_raw(g, k - 1);
        let e = if g[k - 1].2 > 0 {
            g[k - 1].2 + g[k - 1].3
        } else {
            0
        };
        if e > prev {
            e
        } else {
            prev
        }
    }
}

/// The file offset of a section added after the sections `g`.
pub open spec fn next_raw_spec(g: Seq<Geometry>) -> int {
    max_end_raw(g, g.len() as int)
}

/// The virtual address for a section added after `sections`.
pub fn next_virtual_address(sections: &Vec<PeSection>, opts: &LinkerOptions) -> (r: u32)
    requires
        opts.section_alignment > 0,
        ends_fit(geometries(sections@), opts.section_alignment),
    ensures
        r == next_va_spec(geometries(sections@), opts.section_alignment),
{
    let ghost g = geometries(sections@);
    let sa = opts.section_alignment;
    if sections.len() == 0 {
        return sa;
    }
    let mut best: u32 = 0;
    let mut i: usize = 0;
    while i < sections.len()
        invariant
            sa == opts.section_alignment,
            sa > 0,
            g == geometries(sections@),
            ends_fit(g, sa),
            i <= sections@.len(),
            i > 0 ==> best == max_end_va(g, sa, i as int),
        decreases sections@.len() - i,
    {
        let h = &sections[i].header;
        assert(g[i as int] == (h.virtual_address, h.virtual_size, h.pointer_to_raw_data, h.size_of_raw_data));
        let rounded = align_up(h.virtual_size, sa);
        let aligned = if rounded >= sa {
            rounded
        } else {
            sa
        };
        let e = h.virtual_address + aligned;
        assert(e == end_va(g[i as int].0, g[i as int].1, sa));
        assert(max_end_va(g, sa, i + 1) == if e > max_end_va(g, sa, i as int) { e as int } else { max_end_va(g, sa, i as int) });
        if i == 0 || e > best {
            best = e;
        }
        i = i + 1;
    }
    best
}

/// The file offset for a section added after `sections`.
pub fn next_raw_address(sections: &Vec<PeSection>) -> (r: u32)
    requires
        raw_ends_fit(geometries(sections@)),
    ensures
        r == next_raw_spec(geometries(sections@)),
{
    let ghost g = geometries(sections@);
    let mut best: u32 = 0;
    let mut i: usize = 0;
    while i < sections.len()
        invariant
            g == geometries(sections@),
            raw_ends_fit(g),
            i <= sections@.len(),
            best == max_end_raw(g, i as int),
        decreases sections@.len() - i,
    {
        let h = &sections[i].header;
        assert(g[i as int] == (h.virtual_address, h.virtual_size, h.pointer_to_raw_data, h.size_of_raw_data));
        if h.pointer_to_raw_data > 0 {
            let e = h.pointer_to_raw_data + h.size_of_raw_data;
            if e > best {
                best = e;
            }
        }
        i = i + 1;
    }
    best
}

/// The 8 bytes of a section name: the UTF-8 bytes of `t`, cut or padded with zeros.
pub open spec fn name8(t: Seq<char>) -> Seq<u8> {
    let b = vstd::utf8::encode_utf8(t);
    Seq::new(8, |i: int| if i < b.len() { b[i] } else { 0u8 })
}

/// The 8-byte section name field for `s`.
pub fn str_to_name(s: &str) -> (r: [u8; 8])
    ensures
        r@ == name8(s@),
{
    let b = s.as_bytes();
    let mut name: [u8; 8] = [0u8; 8];
    let mut i: usize = 0;
    while i < 8 && i < b.len()
        invariant
            i <= 8,
            i <= b@.len(),
            b@ == vstd::utf8::encode_utf8(s@),
            name@.len() == 8,
            forall|k: int| 0 <= k < i ==> name@[k] == b@[k],
            forall|k: int| i <= k < 8 ==> name@[k] == 0,
        decreases 8 - i,
    {
        name[i] = b[i];
        i = i + 1;
    }
    assert forall|k: int| 0 <= k < 8 implies name@[k] == name8(s@)[k] by {
        if k < i {
            assert(k < b@.len());
        }
    }
    assert(name@ =~= name8(s@));
    name
}

} // verus!
