//! What a loader reads back from the `.idata` bytes: each directory entry points at
//! its DLL's tables and name, each lookup and address entry at its function's
//! hint/name entry, and the tables end in zero entries.
use vstd::prelude::*;
use vstd::utf8::encode_utf8;

use crate::binary_io::{le_u32_at, lemma_u32_le_roundtrip, u32_le, zeros};
use crate::pe::pe_file::write_at;

use super::idata::{
    dir_size, dir_writes, dll_writes, entries_before, enc_len, fn_writes, hint_bytes, hint_rva, hints_before,
    iat_rva, idata_end, idata_image, ilt_rva, ilt_size, lemma_hint_bytes_mono, lemma_idata_bounds,
    lemma_sums_mono, name_rva, put_u32, DllTable,
};

verus! {

/// Writing `bytes` inside `buf` keeps its length and changes only the bytes written.
proof fn lemma_write_inside(buf: Seq<u8>, pos: int, bytes: Seq<u8>)
    requires
        0 <= pos,
        pos + bytes.len() <= buf.len(),
    ensures
        write_at(buf, pos, bytes).len() == buf.len(),
        forall|i: int|
            0 <= i < buf.len() ==> #[trigger] write_at(buf, pos, bytes)[i] == if pos <= i < pos + bytes.len() {
                bytes[i - pos]
            } else {
                buf[i]
            },
{
}

/// Where the writes of function `k` of DLL `d` go, relative to the section start.
proof fn lemma_step_bounds(dl: DllTable, base: int, d: int, k: int)
    requires
        0 <= d < dl.len(),
        0 <= k < dl[d].1.len(),
    ensures
        ilt_rva(dl, base, d) - base + 4 * k == dir_size(dl) + 4 * (entries_before(dl, d) + k),
        iat_rva(dl, base, d) - base + 4 * k == dir_size(dl) + ilt_size(dl) + 4 * (entries_before(dl, d) + k),
        0 <= entries_before(dl, d),
        entries_before(dl, d) + k + 1 <= entries_before(dl, dl.len() as int),
        hint_rva(dl, base, d, k) - base == dir_size(dl) + 2 * ilt_size(dl) + hints_before(dl, d) + hint_bytes(dl[d].1, k),
        hint_rva(dl, base, d, k) - base + 2 + enc_len(dl[d].1[k]) + 1 == hint_rva(dl, base, d, k + 1) - base,
        0 <= hints_before(dl, d) + hint_bytes(dl[d].1, k),
        hints_before(dl, d) + hint_bytes(dl[d].1, k + 1) <= hints_before(dl, dl.len() as int),
        0 <= enc_len(dl[d].1[k]),
        dir_size(dl) + 2 * ilt_size(dl) + hints_before(dl, dl.len() as int) <= idata_end(dl, base) - base,
        0 <= dir_size(dl),
        0 <= ilt_size(dl),
{
    lemma_idata_bounds(dl, base, d);
    lemma_hint_bytes_mono(dl[d].1, k + 1, dl[d].1.len() as int);
    lemma_hint_bytes_mono(dl[d].1, 0, k);
}

/// The functions of the tables in order: an earlier one has its entry and its
/// hint/name entry before those of a later one.
proof fn lemma_order(dl: DllTable, e: int, k: int, d: int, j: int)
    requires
        0 <= e < dl.len(),
        0 <= k < dl[e].1.len(),
        0 <= d < dl.len(),
        0 <= j <= dl[d].1.len(),
        e < d || (e == d && k < j),
    ensures
        entries_before(dl, e) + k + 1 <= entries_before(dl, d) + j,
        hints_before(dl, e) + hint_bytes(dl[e].1, k + 1) <= hints_before(dl, d) + hint_bytes(dl[d].1, j),
{
    if e < d {
        lemma_sums_mono(dl, e + 1, d);
        lemma_hint_bytes_mono(dl[e].1, k + 1, dl[e].1.len() as int);
        lemma_hint_bytes_mono(dl[d].1, 0, j);
    } else {
        lemma_hint_bytes_mono(dl[d].1, k + 1, j);
    }
}

/// Whether function `k` of DLL `d` writes the byte at `i` (relative to the section
/// start): its lookup entry, its address entry or its name.
spec fn fn_touches(dl: DllTable, base: int, d: int, k: int, i: int) -> bool {
    let a = ilt_rva(dl, base, d) - base + 4 * k;
    let b = iat_rva(dl, base, d) - base + 4 * k;
    let h = hint_rva(dl, base, d, k) - base + 2;
    (a <= i < a + 4) || (b <= i < b + 4) || (h <= i < h + enc_len(dl[d].1[k]))
}

/// Whether the name of DLL `d` is written over the byte at `i`.
spec fn name_touches(dl: DllTable, base: int, d: int, i: int) -> bool {
    let o = name_rva(dl, base, d) - base;
    o <= i < o + enc_len(dl[d].0)
}

/// The writes of the first `j` functions of DLL `d` keep the length.
proof fn lemma_fn_len(buf: Seq<u8>, dl: DllTable, base: int, d: int, j: int)
    requires
        0 <= d < dl.len(),
        0 <= j <= dl[d].1.len(),
        buf.len() == idata_end(dl, base) - base,
    ensures
        fn_writes(buf, dl, base, d, j).len() == buf.len(),
    decreases j,
{
    if j > 0 {
        let k = j - 1;
        lemma_fn_len(buf, dl, base, d, k);
        lemma_step_bounds(dl, base, d, k);
        let b = fn_writes(buf, dl, base, d, k);
        let h = hint_rva(dl, base, d, k);
        let b1 = put_u32(b, ilt_rva(dl, base, d) - base + 4 * k, h);
        let b2 = put_u32(b1, iat_rva(dl, base, d) - base + 4 * k, h);
        lemma_write_inside(b, ilt_rva(dl, base, d) - base + 4 * k, u32_le(h as u32));
        lemma_write_inside(b1, iat_rva(dl, base, d) - base + 4 * k, u32_le(h as u32));
        lemma_write_inside(b2, h - base + 2, encode_utf8(dl[d].1[k]));
    }
}

/// The writes of the first `d` DLLs keep the length.
proof fn lemma_dll_len(buf: Seq<u8>, dl: DllTable, base: int, d: int)
    requires
        0 <= d <= dl.len(),
        buf.len() == idata_end(dl, base) - base,
    ensures
        dll_writes(buf, dl, base, d).len() == buf.len(),
    decreases d,
{
    if d > 0 {
        let e = d - 1;
        lemma_dll_len(buf, dl, base, e);
        let x = dll_writes(buf, dl, base, e);
        lemma_fn_len(x, dl, base, e, dl[e].1.len() as int);
        lemma_idata_bounds(dl, base, e);
        let y = fn_writes(x, dl, base, e, dl[e].1.len() as int);
        lemma_write_inside(y, name_rva(dl, base, e) - base, encode_utf8(dl[e].0));
    }
}

/// Byte `t` of the directory entry of DLL `e`: the RVAs of its lookup table, of two
/// zero fields, of its name and of its address table.
spec fn dir_entry_byte(dl: DllTable, base: int, e: int, t: int) -> u8 {
    if t < 4 {
        u32_le(ilt_rva(dl, base, e) as u32)[t]
    } else if t < 12 {
        0u8
    } else if t < 16 {
        u32_le(name_rva(dl, base, e) as u32)[t - 12]
    } else {
        u32_le(iat_rva(dl, base, e) as u32)[t - 16]
    }
}

/// Writing `v` at `off` inside `buf` keeps its length and changes only those 4 bytes.
proof fn lemma_put_u32(buf: Seq<u8>, off: int, v: int, i: int)
    requires
        0 <= off,
        off + 4 <= buf.len(),
    ensures
        put_u32(buf, off, v).len() == buf.len(),
        0 <= i < buf.len() ==> put_u32(buf, off, v)[i] == if off <= i < off + 4 {
            u32_le(v as u32)[i - off]
        } else {
            buf[i]
        },
{
    lemma_write_inside(buf, off, u32_le(v as u32));
}

/// What the directory entry of DLL `e` writes: the length stays, the bytes outside
/// the entry stay, and the entry holds its fields.
#[verifier::rlimit(30)]
proof fn lemma_dir_step(buf: Seq<u8>, dl: DllTable, base: int, e: int, i: int)
    requires
        0 <= e < dl.len(),
        dir_writes(buf, dl, base, e).len() == idata_end(dl, base) - base,
    ensures
        dir_writes(buf, dl, base, e + 1).len() == dir_writes(buf, dl, base, e).len(),
        0 <= i < dir_writes(buf, dl, base, e).len() ==> dir_writes(buf, dl, base, e + 1)[i] == if 20 * e <= i < 20
            * e + 20 {
            dir_entry_byte(dl, base, e, i - 20 * e)
        } else {
            dir_writes(buf, dl, base, e)[i]
        },
{
    assert(20 * e + 20 <= idata_end(dl, base) - base) by {
        lemma_idata_bounds(dl, base, e);
        lemma_sums_mono(dl, 0, dl.len() as int);
    }
    let b = dir_writes(buf, dl, base, e);
    let at = 20 * e;
    let b1 = put_u32(b, at, ilt_rva(dl, base, e));
    let b2 = put_u32(b1, at + 4, 0);
    let b3 = put_u32(b2, at + 8, 0);
    let b4 = put_u32(b3, at + 12, name_rva(dl, base, e));
    lemma_put_u32(b, at, ilt_rva(dl, base, e), i);
    lemma_put_u32(b1, at + 4, 0, i);
    lemma_put_u32(b2, at + 8, 0, i);
    lemma_put_u32(b3, at + 12, name_rva(dl, base, e), i);
    lemma_put_u32(b4, at + 16, iat_rva(dl, base, e), i);
    assert(u32_le(0 as u32) =~= seq![0u8, 0u8, 0u8, 0u8]);
}

/// The directory writes of the first `d` DLLs keep the length.
proof fn lemma_dir_len(buf: Seq<u8>, dl: DllTable, base: int, d: int)
    requires
        0 <= d <= dl.len(),
        buf.len() == idata_end(dl, base) - base,
    ensures
        dir_writes(buf, dl, base, d).len() == buf.len(),
    decreases d,
{
    if d > 0 {
        lemma_dir_len(buf, dl, base, d - 1);
        lemma_dir_step(buf, dl, base, d - 1, 0);
    }
}

/// The directory writes of the DLLs `d1..d2` keep every byte outside their entries.
proof fn lemma_dir_frame(buf: Seq<u8>, dl: DllTable, base: int, d1: int, d2: int, i: int)
    requires
        0 <= d1 <= d2 <= dl.len(),
        buf.len() == idata_end(dl, base) - base,
        0 <= i < buf.len(),
        i < 20 * d1 || 20 * d2 <= i,
    ensures
        dir_writes(buf, dl, base, d2)[i] == dir_writes(buf, dl, base, d1)[i],
    decreases d2 - d1,
{
    if d1 < d2 {
        lemma_dir_frame(buf, dl, base, d1, d2 - 1, i);
        lemma_dir_len(buf, dl, base, d2 - 1);
        lemma_dir_step(buf, dl, base, d2 - 1, i);
    }
}

/// The byte that function `k` of DLL `d` writes at `i`, where it writes there.
spec fn fn_byte(dl: DllTable, base: int, d: int, k: int, i: int) -> u8 {
    let a = ilt_rva(dl, base, d) - base + 4 * k;
    let b = iat_rva(dl, base, d) - base + 4 * k;
    let h = hint_rva(dl, base, d, k) - base + 2;
    if h <= i < h + enc_len(dl[d].1[k]) {
        encode_utf8(dl[d].1[k])[i - h]
    } else if b <= i < b + 4 {
        u32_le(hint_rva(dl, base, d, k) as u32)[i - b]
    } else {
        u32_le(hint_rva(dl, base, d, k) as u32)[i - a]
    }
}

/// What the writes of function `k` of DLL `d` leave at `i`.
proof fn lemma_fn_step(buf: Seq<u8>, dl: DllTable, base: int, d: int, k: int, i: int)
    requires
        0 <= d < dl.len(),
        0 <= k < dl[d].1.len(),
        buf.len() == idata_end(dl, base) - base,
        0 <= i < buf.len(),
    ensures
        fn_writes(buf, dl, base, d, k + 1)[i] == if fn_touches(dl, base, d, k, i) {
            fn_byte(dl, base, d, k, i)
        } else {
            fn_writes(buf, dl, base, d, k)[i]
        },
{
    lemma_fn_len(buf, dl, base, d, k);
    lemma_step_bounds(dl, base, d, k);
    let b = fn_writes(buf, dl, base, d, k);
    let h = hint_rva(dl, base, d, k);
    let b1 = put_u32(b, ilt_rva(dl, base, d) - base + 4 * k, h);
    let b2 = put_u32(b1, iat_rva(dl, base, d) - base + 4 * k, h);
    lemma_put_u32(b, ilt_rva(dl, base, d) - base + 4 * k, h, i);
    lemma_put_u32(b1, iat_rva(dl, base, d) - base + 4 * k, h, i);
    lemma_write_inside(b2, h - base + 2, encode_utf8(dl[d].1[k]));
}

/// The writes of the functions `j1..j2` of DLL `d` keep every byte that none of them
/// writes.
proof fn lemma_fn_frame(buf: Seq<u8>, dl: DllTable, base: int, d: int, j1: int, j2: int, i: int)
    requires
        0 <= d < dl.len(),
        0 <= j1 <= j2 <= dl[d].1.len(),
        buf.len() == idata_end(dl, base) - base,
        0 <= i < buf.len(),
        forall|k: int| j1 <= k < j2 ==> !fn_touches(dl, base, d, k, i),
    ensures
        fn_writes(buf, dl, base, d, j2)[i] == fn_writes(buf, dl, base, d, j1)[i],
    decreases j2 - j1,
{
    if j1 < j2 {
        lemma_fn_frame(buf, dl, base, d, j1, j2 - 1, i);
        lemma_fn_step(buf, dl, base, d, j2 - 1, i);
    }
}

/// The writes of the DLLs `d1..d2` keep every byte that none of them writes.
proof fn lemma_dll_frame(buf: Seq<u8>, dl: DllTable, base: int, d1: int, d2: int, i: int)
    requires
        0 <= d1 <= d2 <= dl.len(),
        buf.len() == idata_end(dl, base) - base,
        0 <= i < buf.len(),
        forall|e: int, k: int| d1 <= e < d2 && 0 <= k < dl[e].1.len() ==> !fn_touches(dl, base, e, k, i),
        forall|e: int| d1 <= e < d2 ==> !name_touches(dl, base, e, i),
    ensures
        dll_writes(buf, dl, base, d2)[i] == dll_writes(buf, dl, base, d1)[i],
    decreases d2 - d1,
{
    if d1 < d2 {
        let e = d2 - 1;
        lemma_dll_frame(buf, dl, base, d1, e, i);
        lemma_dll_len(buf, dl, base, e);
        let x = dll_writes(buf, dl, base, e);
        let len = dl[e].1.len() as int;
        assert forall|k: int| 0 <= k < len implies !fn_touches(dl, base, e, k, i) by {
            assert(d1 <= e < d2);
        }
        lemma_fn_frame(x, dl, base, e, 0, len, i);
        lemma_fn_len(x, dl, base, e, len);
        lemma_idata_bounds(dl, base, e);
        let y = fn_writes(x, dl, base, e, len);
        lemma_write_inside(y, name_rva(dl, base, e) - base, encode_utf8(dl[e].0));
        assert(!name_touches(dl, base, e, i));
    }
}

/// No function written after function `j` of DLL `d` writes where it wrote.
proof fn lemma_later_fns(dl: DllTable, base: int, d: int, j: int, i: int)
    requires
        0 <= d < dl.len(),
        0 <= j < dl[d].1.len(),
        fn_touches(dl, base, d, j, i),
    ensures
        forall|k: int| j + 1 <= k < dl[d].1.len() ==> !fn_touches(dl, base, d, k, i),
        forall|e: int, k: int|
            d + 1 <= e < dl.len() && 0 <= k < dl[e].1.len() ==> !fn_touches(dl, base, e, k, i),
{
    lemma_step_bounds(dl, base, d, j);
    assert forall|k: int| j + 1 <= k < dl[d].1.len() implies !fn_touches(dl, base, d, k, i) by {
        lemma_order(dl, d, j, d, k);
        lemma_step_bounds(dl, base, d, k);
    }
    assert forall|e: int, k: int| d + 1 <= e < dl.len() && 0 <= k < dl[e].1.len() implies !fn_touches(
        dl,
        base,
        e,
        k,
        i,
    ) by {
        lemma_order(dl, d, j, e, k);
        lemma_step_bounds(dl, base, e, k);
    }
}

/// No DLL name is written where a function's entries or name are.
proof fn lemma_names_apart(dl: DllTable, base: int, d: int, j: int, i: int)
    requires
        0 <= d < dl.len(),
        0 <= j < dl[d].1.len(),
        fn_touches(dl, base, d, j, i),
    ensures
        forall|e: int| 0 <= e < dl.len() ==> !name_touches(dl, base, e, i),
{
    lemma_step_bounds(dl, base, d, j);
    assert forall|e: int| 0 <= e < dl.len() implies !name_touches(dl, base, e, i) by {
        lemma_idata_bounds(dl, base, e);
    }
}

/// What function `j` of DLL `d` writes stays in the `.idata` bytes: nothing written
/// after it goes there.
proof fn lemma_fn_kept(dl: DllTable, base: int, d: int, j: int, i: int)
    requires
        0 <= d < dl.len(),
        0 <= j < dl[d].1.len(),
        fn_touches(dl, base, d, j, i),
    ensures
        0 <= i < idata_end(dl, base) - base,
        idata_image(dl, base)[i] == fn_byte(dl, base, d, j, i),
{
    let n = dl.len() as int;
    let size = idata_end(dl, base) - base;
    lemma_step_bounds(dl, base, d, j);
    lemma_later_fns(dl, base, d, j, i);
    lemma_names_apart(dl, base, d, j, i);
    let b0 = dir_writes(zeros(size as nat), dl, base, n);
    lemma_dir_len(zeros(size as nat), dl, base, n);
    let x = dll_writes(b0, dl, base, d);
    lemma_dll_len(b0, dl, base, d);
    let len = dl[d].1.len() as int;
    lemma_fn_step(x, dl, base, d, j, i);
    lemma_fn_frame(x, dl, base, d, j + 1, len, i);
    lemma_fn_len(x, dl, base, d, len);
    let y = fn_writes(x, dl, base, d, len);
    lemma_idata_bounds(dl, base, d);
    lemma_write_inside(y, name_rva(dl, base, d) - base, encode_utf8(dl[d].0));
    assert(!name_touches(dl, base, d, i));
    lemma_dll_frame(b0, dl, base, d + 1, n, i);
}

/// The four bytes at `at` of `img` read back as `v` where they are those of `v`.
proof fn lemma_read_back(img: Seq<u8>, at: int, v: int)
    requires
        0 <= v <= u32::MAX,
        0 <= at,
        at + 4 <= img.len(),
        forall|t: int| 0 <= t < 4 ==> #[trigger] img[at + t] == u32_le(v as u32)[t],
    ensures
        le_u32_at(img, at) == v,
{
    lemma_u32_le_roundtrip(v as u32);
    assert(img[at + 0] == u32_le(v as u32)[0]);
    assert(img[at + 1] == u32_le(v as u32)[1]);
    assert(img[at + 2] == u32_le(v as u32)[2]);
    assert(img[at + 3] == u32_le(v as u32)[3]);
}

/// No function and no DLL name is written over the zero hint of function `j` of DLL
/// `d`, nor over the zero byte that ends its name.
proof fn lemma_hint_apart(dl: DllTable, base: int, d: int, j: int, i: int)
    requires
        0 <= d < dl.len(),
        0 <= j < dl[d].1.len(),
        ({
            let h = hint_rva(dl, base, d, j) - base;
            i == h || i == h + 1 || i == h + 2 + enc_len(dl[d].1[j])
        }),
    ensures
        forall|e: int, k: int| 0 <= e < dl.len() && 0 <= k < dl[e].1.len() ==> !fn_touches(dl, base, e, k, i),
        forall|e: int| 0 <= e < dl.len() ==> !name_touches(dl, base, e, i),
{
    lemma_step_bounds(dl, base, d, j);
    assert forall|e: int, k: int| 0 <= e < dl.len() && 0 <= k < dl[e].1.len() implies !fn_touches(
        dl,
        base,
        e,
        k,
        i,
    ) by {
        lemma_step_bounds(dl, base, e, k);
        if e < d || (e == d && k < j) {
            lemma_order(dl, e, k, d, j);
        } else if e > d || (e == d && k > j) {
            lemma_order(dl, d, j, e, k);
        }
    }
    assert forall|e: int| 0 <= e < dl.len() implies !name_touches(dl, base, e, i) by {
        lemma_idata_bounds(dl, base, e);
    }
}

/// In the `.idata` bytes, the lookup entry and the address entry of function `j` of
/// DLL `d` both hold the RVA of the function's hint/name entry, and the function's
/// name stands two bytes into that entry, after the hint.
pub proof fn law_idata_function_entries(dl: DllTable, base: int, d: int, j: int)
    requires
        0 <= base,
        idata_end(dl, base) <= u32::MAX,
        0 <= d < dl.len(),
        0 <= j < dl[d].1.len(),
    ensures
        le_u32_at(idata_image(dl, base), ilt_rva(dl, base, d) - base + 4 * j) == hint_rva(dl, base, d, j),
        le_u32_at(idata_image(dl, base), iat_rva(dl, base, d) - base + 4 * j) == hint_rva(dl, base, d, j),
        idata_image(dl, base).subrange(
            hint_rva(dl, base, d, j) - base + 2,
            hint_rva(dl, base, d, j) - base + 2 + enc_len(dl[d].1[j]),
        ) == encode_utf8(dl[d].1[j]),
        idata_image(dl, base)[hint_rva(dl, base, d, j) - base] == 0,
        idata_image(dl, base)[hint_rva(dl, base, d, j) - base + 1] == 0,
        idata_image(dl, base)[hint_rva(dl, base, d, j) - base + 2 + enc_len(dl[d].1[j])] == 0,
{
    lemma_fn_slot(dl, base, d, j, false);
    lemma_fn_slot(dl, base, d, j, true);
    lemma_fn_name(dl, base, d, j);
    lemma_hint_zeros(dl, base, d, j);
}

/// The lookup entry (or, with `in_iat`, the address entry) of function `j` of DLL `d`
/// reads back as the RVA of its hint/name entry.
proof fn lemma_fn_slot(dl: DllTable, base: int, d: int, j: int, in_iat: bool)
    requires
        0 <= base,
        idata_end(dl, base) <= u32::MAX,
        0 <= d < dl.len(),
        0 <= j < dl[d].1.len(),
    ensures
        le_u32_at(
            idata_image(dl, base),
            (if in_iat { iat_rva(dl, base, d) } else { ilt_rva(dl, base, d) }) - base + 4 * j,
        ) == hint_rva(dl, base, d, j),
{
    let img = idata_image(dl, base);
    let h = hint_rva(dl, base, d, j);
    let a = (if in_iat { iat_rva(dl, base, d) } else { ilt_rva(dl, base, d) }) - base + 4 * j;
    lemma_step_bounds(dl, base, d, j);
    lemma_fn_kept(dl, base, d, j, a);
    assert forall|t: int| 0 <= t < 4 implies #[trigger] img[a + t] == u32_le(h as u32)[t] by {
        lemma_fn_kept(dl, base, d, j, a + t);
    }
    lemma_read_back(img, a, h);
}

/// The name of function `j` of DLL `d` stands two bytes into its hint/name entry.
proof fn lemma_fn_name(dl: DllTable, base: int, d: int, j: int)
    requires
        0 <= d < dl.len(),
        0 <= j < dl[d].1.len(),
    ensures
        idata_image(dl, base).subrange(
            hint_rva(dl, base, d, j) - base + 2,
            hint_rva(dl, base, d, j) - base + 2 + enc_len(dl[d].1[j]),
        ) == encode_utf8(dl[d].1[j]),
{
    let img = idata_image(dl, base);
    let o = hint_rva(dl, base, d, j) - base + 2;
    let name = encode_utf8(dl[d].1[j]);
    lemma_step_bounds(dl, base, d, j);
    lemma_image_len(dl, base);
    assert forall|t: int| 0 <= t < name.len() implies #[trigger] img.subrange(o, o + name.len())[t] == name[t] by {
        lemma_fn_kept(dl, base, d, j, o + t);
    }
    assert(img.subrange(o, o + name.len()) =~= name);
}

/// The hint of function `j` of DLL `d` is zero, and its name ends in a zero byte.
proof fn lemma_hint_zeros(dl: DllTable, base: int, d: int, j: int)
    requires
        0 <= d < dl.len(),
        0 <= j < dl[d].1.len(),
    ensures
        idata_image(dl, base)[hint_rva(dl, base, d, j) - base] == 0,
        idata_image(dl, base)[hint_rva(dl, base, d, j) - base + 1] == 0,
        idata_image(dl, base)[hint_rva(dl, base, d, j) - base + 2 + enc_len(dl[d].1[j])] == 0,
{
    let h = hint_rva(dl, base, d, j) - base;
    let e = enc_len(dl[d].1[j]);
    lemma_step_bounds(dl, base, d, j);
    lemma_idata_bounds(dl, base, d);
    lemma_sums_mono(dl, 0, dl.len() as int);
    lemma_hint_apart(dl, base, d, j, h);
    lemma_zero_kept(dl, base, h);
    lemma_hint_apart(dl, base, d, j, h + 1);
    lemma_zero_kept(dl, base, h + 1);
    lemma_hint_apart(dl, base, d, j, h + 2 + e);
    lemma_zero_kept(dl, base, h + 2 + e);
}

/// The directory and the bytes past the functions' names are not written by any
/// function of any DLL.
proof fn lemma_fns_apart(dl: DllTable, base: int, i: int)
    requires
        0 <= i < dir_size(dl) || dir_size(dl) + 2 * ilt_size(dl) + hints_before(dl, dl.len() as int) <= i,
    ensures
        forall|e: int, k: int| 0 <= e < dl.len() && 0 <= k < dl[e].1.len() ==> !fn_touches(dl, base, e, k, i),
{
    assert forall|e: int, k: int| 0 <= e < dl.len() && 0 <= k < dl[e].1.len() implies !fn_touches(
        dl,
        base,
        e,
        k,
        i,
    ) by {
        lemma_step_bounds(dl, base, e, k);
    }
}

/// What no DLL writes in the `.idata` bytes is what the directory writes left.
proof fn lemma_dlls_apart(dl: DllTable, base: int, i: int)
    requires
        0 <= i < idata_end(dl, base) - base,
        forall|e: int, k: int| 0 <= e < dl.len() && 0 <= k < dl[e].1.len() ==> !fn_touches(dl, base, e, k, i),
        forall|e: int| 0 <= e < dl.len() ==> !name_touches(dl, base, e, i),
    ensures
        idata_image(dl, base)[i] == dir_writes(
            zeros((idata_end(dl, base) - base) as nat),
            dl,
            base,
            dl.len() as int,
        )[i],
{
    let size = idata_end(dl, base) - base;
    let n = dl.len() as int;
    lemma_dir_len(zeros(size as nat), dl, base, n);
    lemma_dll_frame(dir_writes(zeros(size as nat), dl, base, n), dl, base, 0, n, i);
}

/// Byte `t` of the directory entry of DLL `d` in the `.idata` bytes.
proof fn lemma_dir_kept(dl: DllTable, base: int, d: int, t: int)
    requires
        0 <= d < dl.len(),
        0 <= t < 20,
    ensures
        idata_image(dl, base)[20 * d + t] == dir_entry_byte(dl, base, d, t),
{
    let size = idata_end(dl, base) - base;
    let n = dl.len() as int;
    let i = 20 * d + t;
    lemma_idata_bounds(dl, base, d);
    lemma_fns_apart(dl, base, i);
    assert forall|e: int| 0 <= e < dl.len() implies !name_touches(dl, base, e, i) by {
        lemma_idata_bounds(dl, base, e);
        lemma_sums_mono(dl, 0, n);
    }
    lemma_dlls_apart(dl, base, i);
    lemma_dir_frame(zeros(size as nat), dl, base, d + 1, n, i);
    lemma_dir_len(zeros(size as nat), dl, base, d);
    lemma_dir_step(zeros(size as nat), dl, base, d, i);
}

/// Byte `t` of the name of DLL `d` in the `.idata` bytes.
proof fn lemma_name_kept(dl: DllTable, base: int, d: int, t: int)
    requires
        0 <= d < dl.len(),
        0 <= t < enc_len(dl[d].0),
    ensures
        idata_image(dl, base)[name_rva(dl, base, d) - base + t] == encode_utf8(dl[d].0)[t],
{
    let size = idata_end(dl, base) - base;
    let n = dl.len() as int;
    let o = name_rva(dl, base, d) - base;
    let i = o + t;
    lemma_idata_bounds(dl, base, d);
    lemma_sums_mono(dl, 0, n);
    lemma_fns_apart(dl, base, i);
    assert forall|e: int| d + 1 <= e < n implies !name_touches(dl, base, e, i) by {
        lemma_sums_mono(dl, d + 1, e);
    }
    let b0 = dir_writes(zeros(size as nat), dl, base, n);
    lemma_dir_len(zeros(size as nat), dl, base, n);
    lemma_dll_frame(b0, dl, base, d + 1, n, i);
    lemma_dll_len(b0, dl, base, d);
    let x = dll_writes(b0, dl, base, d);
    let len = dl[d].1.len() as int;
    lemma_fn_len(x, dl, base, d, len);
    lemma_write_inside(fn_writes(x, dl, base, d, len), o, encode_utf8(dl[d].0));
}

/// A byte that neither the directory nor any DLL writes stays zero.
proof fn lemma_zero_kept(dl: DllTable, base: int, i: int)
    requires
        20 * dl.len() <= i < idata_end(dl, base) - base,
        forall|e: int, k: int| 0 <= e < dl.len() && 0 <= k < dl[e].1.len() ==> !fn_touches(dl, base, e, k, i),
        forall|e: int| 0 <= e < dl.len() ==> !name_touches(dl, base, e, i),
    ensures
        idata_image(dl, base)[i] == 0,
{
    let size = idata_end(dl, base) - base;
    lemma_dlls_apart(dl, base, i);
    lemma_dir_frame(zeros(size as nat), dl, base, 0, dl.len() as int, i);
}

/// The `.idata` bytes fill the section's contents.
proof fn lemma_image_len(dl: DllTable, base: int)
    ensures
        0 <= idata_end(dl, base) - base,
        idata_image(dl, base).len() == idata_end(dl, base) - base,
{
    let n = dl.len() as int;
    let size = idata_end(dl, base) - base;
    lemma_sums_mono(dl, 0, n);
    lemma_dir_len(zeros(size as nat), dl, base, n);
    lemma_dll_len(dir_writes(zeros(size as nat), dl, base, n), dl, base, n);
}

/// Field `f` of the directory entry of DLL `d`.
spec fn dir_field(dl: DllTable, base: int, d: int, f: int) -> int {
    if f == 0 {
        ilt_rva(dl, base, d)
    } else if f == 3 {
        name_rva(dl, base, d)
    } else if f == 4 {
        iat_rva(dl, base, d)
    } else {
        0
    }
}

/// Field `f` of the directory entry of DLL `d` reads back.
proof fn lemma_dir_field(dl: DllTable, base: int, d: int, f: int)
    requires
        0 <= base,
        idata_end(dl, base) <= u32::MAX,
        0 <= d < dl.len(),
        0 <= f < 5,
    ensures
        le_u32_at(idata_image(dl, base), 20 * d + 4 * f) == dir_field(dl, base, d, f),
{
    let img = idata_image(dl, base);
    let v = dir_field(dl, base, d, f);
    lemma_image_len(dl, base);
    lemma_idata_bounds(dl, base, d);
    lemma_sums_mono(dl, 0, dl.len() as int);
    lemma_sums_mono(dl, 0, d);
    assert(u32_le(0 as u32) =~= seq![0u8, 0u8, 0u8, 0u8]);
    assert forall|t: int| 0 <= t < 4 implies #[trigger] img[20 * d + 4 * f + t] == u32_le(v as u32)[t] by {
        lemma_dir_kept(dl, base, d, 4 * f + t);
    }
    lemma_read_back(img, 20 * d + 4 * f, v);
}

/// The name of DLL `d` stands at the RVA of its name.
proof fn lemma_dll_name(dl: DllTable, base: int, d: int)
    requires
        0 <= d < dl.len(),
    ensures
        idata_image(dl, base).subrange(
            name_rva(dl, base, d) - base,
            name_rva(dl, base, d) - base + enc_len(dl[d].0),
        ) == encode_utf8(dl[d].0),
{
    let img = idata_image(dl, base);
    lemma_image_len(dl, base);
    lemma_idata_bounds(dl, base, d);
    lemma_sums_mono(dl, 0, dl.len() as int);
    let o = name_rva(dl, base, d) - base;
    let name = encode_utf8(dl[d].0);
    assert forall|t: int| 0 <= t < name.len() implies #[trigger] img.subrange(o, o + name.len())[t] == name[t] by {
        lemma_name_kept(dl, base, d, t);
    }
    assert(img.subrange(o, o + name.len()) =~= name);
}

/// In the `.idata` bytes, the directory entry of DLL `d` holds the RVAs of its lookup
/// table, of its name and of its address table (the two fields between are zero),
/// and the DLL's name stands at the RVA of its name.
pub proof fn law_idata_directory_entry(dl: DllTable, base: int, d: int)
    requires
        0 <= base,
        idata_end(dl, base) <= u32::MAX,
        0 <= d < dl.len(),
    ensures
        le_u32_at(idata_image(dl, base), 20 * d) == ilt_rva(dl, base, d),
        le_u32_at(idata_image(dl, base), 20 * d + 4) == 0,
        le_u32_at(idata_image(dl, base), 20 * d + 8) == 0,
        le_u32_at(idata_image(dl, base), 20 * d + 12) == name_rva(dl, base, d),
        le_u32_at(idata_image(dl, base), 20 * d + 16) == iat_rva(dl, base, d),
        idata_image(dl, base).subrange(
            name_rva(dl, base, d) - base,
            name_rva(dl, base, d) - base + enc_len(dl[d].0),
        ) == encode_utf8(dl[d].0),
{
    lemma_dir_field(dl, base, d, 0);
    lemma_dir_field(dl, base, d, 1);
    lemma_dir_field(dl, base, d, 2);
    lemma_dir_field(dl, base, d, 3);
    lemma_dir_field(dl, base, d, 4);
    lemma_dll_name(dl, base, d);
}

/// No function and no DLL name is written over the zero entries that end the lookup
/// and address tables of DLL `d`.
proof fn lemma_table_end_apart(dl: DllTable, base: int, d: int, i: int)
    requires
        0 <= d < dl.len(),
        ({
            let a = ilt_rva(dl, base, d) - base + 4 * dl[d].1.len();
            let b = iat_rva(dl, base, d) - base + 4 * dl[d].1.len();
            (a <= i < a + 4) || (b <= i < b + 4)
        }),
    ensures
        forall|e: int, k: int| 0 <= e < dl.len() && 0 <= k < dl[e].1.len() ==> !fn_touches(dl, base, e, k, i),
        forall|e: int| 0 <= e < dl.len() ==> !name_touches(dl, base, e, i),
{
    let len = dl[d].1.len() as int;
    lemma_idata_bounds(dl, base, d);
    lemma_sums_mono(dl, 0, dl.len() as int);
    assert forall|e: int, k: int| 0 <= e < dl.len() && 0 <= k < dl[e].1.len() implies !fn_touches(
        dl,
        base,
        e,
        k,
        i,
    ) by {
        lemma_step_bounds(dl, base, e, k);
        if e <= d {
            lemma_order(dl, e, k, d, len);
        } else {
            lemma_sums_mono(dl, d + 1, e);
        }
    }
    assert forall|e: int| 0 <= e < dl.len() implies !name_touches(dl, base, e, i) by {
        lemma_idata_bounds(dl, base, e);
    }
}

/// No DLL name is written over the zero byte that ends the name of DLL `d`.
proof fn lemma_name_end_apart(dl: DllTable, base: int, d: int)
    requires
        0 <= d < dl.len(),
    ensures
        forall|e: int| 0 <= e < dl.len() ==> !#[trigger] name_touches(dl, base, e, name_rva(dl, base, d) - base + enc_len(dl[d].0)),
{
    let i = name_rva(dl, base, d) - base + enc_len(dl[d].0);
    assert forall|e: int| 0 <= e < dl.len() implies !name_touches(dl, base, e, i) by {
        lemma_idata_bounds(dl, base, e);
        if e < d {
            lemma_sums_mono(dl, e + 1, d);
        } else if e > d {
            lemma_sums_mono(dl, d + 1, e);
        }
    }
}

/// The `.idata` tables end where a loader stops reading: the directory in an entry of
/// zeros, the lookup table and the address table of DLL `d` each in a zero entry, and
/// the DLL's name in a zero byte.
pub proof fn law_idata_table_ends(dl: DllTable, base: int, d: int)
    requires
        0 <= d < dl.len(),
    ensures
        forall|t: int| 0 <= t < 20 ==> #[trigger] idata_image(dl, base)[20 * dl.len() + t] == 0,
        le_u32_at(idata_image(dl, base), ilt_rva(dl, base, d) - base + 4 * dl[d].1.len()) == 0,
        le_u32_at(idata_image(dl, base), iat_rva(dl, base, d) - base + 4 * dl[d].1.len()) == 0,
        idata_image(dl, base)[name_rva(dl, base, d) - base + enc_len(dl[d].0)] == 0,
{
    let img = idata_image(dl, base);
    let n = dl.len() as int;
    let len = dl[d].1.len() as int;
    lemma_image_len(dl, base);
    lemma_idata_bounds(dl, base, d);
    lemma_sums_mono(dl, 0, n);
    assert forall|t: int| 0 <= t < 20 implies #[trigger] img[20 * n + t] == 0 by {
        let i = 20 * n + t;
        lemma_fns_apart(dl, base, i);
        assert forall|e: int| 0 <= e < n implies !name_touches(dl, base, e, i) by {
            lemma_idata_bounds(dl, base, e);
        }
        lemma_zero_kept(dl, base, i);
    }
    let a = ilt_rva(dl, base, d) - base + 4 * len;
    let b = iat_rva(dl, base, d) - base + 4 * len;
    assert forall|t: int| 0 <= t < 4 implies #[trigger] img[a + t] == 0 && img[b + t] == 0 by {
        lemma_table_end_apart(dl, base, d, a + t);
        lemma_zero_kept(dl, base, a + t);
        lemma_table_end_apart(dl, base, d, b + t);
        lemma_zero_kept(dl, base, b + t);
    }
    assert(img[a + 0] == 0 && img[a + 1] == 0 && img[a + 2] == 0 && img[a + 3] == 0);
    assert(img[b + 0] == 0 && img[b + 1] == 0 && img[b + 2] == 0 && img[b + 3] == 0);
    let o = name_rva(dl, base, d) - base + enc_len(dl[d].0);
    lemma_fns_apart(dl, base, o);
    lemma_name_end_apart(dl, base, d);
    lemma_zero_kept(dl, base, o);
}

} // verus!
