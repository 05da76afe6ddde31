use vstd::prelude::*;

use crate::error::{unexpected_eof, LinkerError, Result};

verus! {

// ---------------------------------------------------------------------------
// Little-endian encodings
// ---------------------------------------------------------------------------

/// The `u16` stored little-endian at `d[i..i + 2]`.
pub open spec fn le_u16_at(d: Seq<u8>, i: int) -> u16 {
    (d[i] as int + d[i + 1] as int * 0x100) as u16
}

/// The `u32` stored little-endian at `d[i..i + 4]`.
pub open spec fn le_u32_at(d: Seq<u8>, i: int) -> u32 {
    (d[i] as int + d[i + 1] as int * 0x100 + d[i + 2] as int * 0x1_0000 + d[i + 3] as int
        * 0x100_0000) as u32
}

/// The `u64` stored little-endian at `d[i..i + 8]`.
pub open spec fn le_u64_at(d: Seq<u8>, i: int) -> u64 {
    (le_u32_at(d, i) as int + le_u32_at(d, i + 4) as int * 0x1_0000_0000) as u64
}

/// The two bytes of `v`, least significant first.
pub open spec fn u16_le(v: u16) -> Seq<u8> {
    seq![(v % 0x100) as u8, (v / 0x100) as u8]
}

/// The four bytes of `v`, least significant first.
pub open spec fn u32_le(v: u32) -> Seq<u8> {
    seq![
        (v % 0x100) as u8,
        ((v / 0x100) % 0x100) as u8,
        ((v / 0x1_0000) % 0x100) as u8,
        (v / 0x100_0000) as u8,
    ]
}

/// The eight bytes of `v`, least significant first.
pub open spec fn u64_le(v: u64) -> Seq<u8> {
    u32_le((v % 0x1_0000_0000) as u32) + u32_le((v / 0x1_0000_0000) as u32)
}

/// `n` zero bytes.
pub open spec fn zeros(n: nat) -> Seq<u8> {
    Seq::new(n, |i: int| 0u8)
}

/// Decoding the little-endian bytes of a `u16` gives it back.
pub proof fn lemma_u16_le_roundtrip(v: u16)
    ensures
        u16_le(v).len() == 2,
        le_u16_at(u16_le(v), 0) == v,
{
    assert(u16_le(v)[0] as int + u16_le(v)[1] as int * 0x100 == v as int);
}

/// Decoding the little-endian bytes of a `u32` gives it back.
pub proof fn lemma_u32_le_roundtrip(v: u32)
    ensures
        u32_le(v).len() == 4,
        le_u32_at(u32_le(v), 0) == v,
{
    let b = u32_le(v);
    assert(b[0] as int + b[1] as int * 0x100 + b[2] as int * 0x1_0000 + b[3] as int * 0x100_0000
        == v as int) by (nonlinear_arith)
        requires
            b[0] == (v % 0x100) as u8,
            b[1] == ((v / 0x100) % 0x100) as u8,
            b[2] == ((v / 0x1_0000) % 0x100) as u8,
            b[3] == (v / 0x100_0000) as u8,
    ;
}

/// Decoding the little-endian bytes of a `u64` gives it back.
pub proof fn lemma_u64_le_roundtrip(v: u64)
    ensures
        u64_le(v).len() == 8,
        le_u64_at(u64_le(v), 0) == v,
{
    let lo = (v % 0x1_0000_0000) as u32;
    let hi = (v / 0x1_0000_0000) as u32;
    lemma_u32_le_roundtrip(lo);
    lemma_u32_le_roundtrip(hi);
    let b = u64_le(v);
    assert(b.subrange(0, 4) =~= u32_le(lo));
    assert(b.subrange(4, 8) =~= u32_le(hi));
    assert(le_u32_at(b, 0) == lo);
    assert(le_u32_at(b, 4) == le_u32_at(u32_le(hi), 0));
    assert(lo as int + hi as int * 0x1_0000_0000 == v as int);
}

/// Decoding at an offset inside a concatenation reads the middle part.
pub proof fn lemma_le_at_concat(a: Seq<u8>, m: Seq<u8>, b: Seq<u8>)
    ensures
        m.len() >= 2 ==> le_u16_at(a + m + b, a.len() as int) == le_u16_at(m, 0),
        m.len() >= 4 ==> le_u32_at(a + m + b, a.len() as int) == le_u32_at(m, 0),
        m.len() >= 8 ==> le_u32_at(a + m + b, a.len() as int + 4) == le_u32_at(m, 4),
        m.len() >= 8 ==> le_u64_at(a + m + b, a.len() as int) == le_u64_at(m, 0),
{
    let s = a + m + b;
    let n = a.len() as int;
    if m.len() >= 2 {
        assert(s[n] == m[0] && s[n + 1] == m[1]);
    }
    if m.len() >= 4 {
        assert(s[n] == m[0] && s[n + 1] == m[1] && s[n + 2] == m[2] && s[n + 3] == m[3]);
    }
    if m.len() >= 8 {
        assert(s[n + 4] == m[4] && s[n + 5] == m[5] && s[n + 6] == m[6] && s[n + 7] == m[7]);
    }
}

/// A `u16` written into a byte stream is read back at the position it was written
/// to, whatever comes before or after it.
pub proof fn law_u16_write_read(before: Seq<u8>, v: u16, after: Seq<u8>)
    ensures
        le_u16_at(before + u16_le(v) + after, before.len() as int) == v,
{
    lemma_u16_le_roundtrip(v);
    lemma_le_at_concat(before, u16_le(v), after);
}

/// A `u32` written into a byte stream is read back at the position it was written to.
pub proof fn law_u32_write_read(before: Seq<u8>, v: u32, after: Seq<u8>)
    ensures
        le_u32_at(before + u32_le(v) + after, before.len() as int) == v,
{
    lemma_u32_le_roundtrip(v);
    lemma_le_at_concat(before, u32_le(v), after);
}

/// A `u64` written into a byte stream is read back at the position it was written to.
pub proof fn law_u64_write_read(before: Seq<u8>, v: u64, after: Seq<u8>)
    ensures
        le_u64_at(before + u64_le(v) + after, before.len() as int) == v,
{
    lemma_u64_le_roundtrip(v);
    lemma_le_at_concat(before, u64_le(v), after);
}

// ---------------------------------------------------------------------------
// Reading
// ---------------------------------------------------------------------------

/// An in-memory input with a read position, as a file being read.
/// The position may stand past the end; reading there fails.
pub struct ByteReader {
    pub data: Vec<u8>,
    pub pos: u64,
}

impl ByteReader {
    /// A reader over `data`, positioned at its start.
    pub fn new(data: Vec<u8>) -> (r: ByteReader)
        ensures
            r.data@ == data@,
            r.pos == 0,
    {
        ByteReader { data, pos: 0 }
    }
}

/// Whether `n` bytes can be read at `cursor` from `contents` (no bytes always can).
pub open spec fn can_read(contents: Seq<u8>, cursor: int, n: int) -> bool {
    n == 0 || cursor + n <= contents.len()
}

/// The `n` bytes of `d` at `start` (none when `n` is zero, wherever `start` is).
pub open spec fn bytes_at(d: Seq<u8>, start: int, n: int) -> Seq<u8> {
    if n == 0 {
        Seq::empty()
    } else {
        d.subrange(start, start + n)
    }
}

/// Little-endian reads from a positioned byte source.
///
/// Every read either takes its bytes at the cursor and moves past them, or, where
/// too few bytes remain, fails with an `Io` error and leaves the source as it was.
pub trait ReadExt {
    spec fn contents(&self) -> Seq<u8>;

    spec fn cursor(&self) -> int;

    fn read_u8(&mut self) -> (r: Result<u8>)
        ensures
            final(self).contents() == old(self).contents(),
            can_read(old(self).contents(), old(self).cursor(), 1) ==> (r matches Ok(v) && v
                == old(self).contents()[old(self).cursor()] && final(self).cursor() == old(
                self,
            ).cursor() + 1),
            !can_read(old(self).contents(), old(self).cursor(), 1) ==> (r matches Err(
                LinkerError::Io(_),
            ) && final(self).cursor() == old(self).cursor()),
    ;

    fn read_u16_le(&mut self) -> (r: Result<u16>)
        ensures
            final(self).contents() == old(self).contents(),
            can_read(old(self).contents(), old(self).cursor(), 2) ==> (r matches Ok(v) && v
                == le_u16_at(old(self).contents(), old(self).cursor()) && final(self).cursor()
                == old(self).cursor() + 2),
            !can_read(old(self).contents(), old(self).cursor(), 2) ==> (r matches Err(
                LinkerError::Io(_),
            ) && final(self).cursor() == old(self).cursor()),
    ;

    fn read_u32_le(&mut self) -> (r: Result<u32>)
        ensures
            final(self).contents() == old(self).contents(),
            can_read(old(self).contents(), old(self).cursor(), 4) ==> (r matches Ok(v) && v
                == le_u32_at(old(self).contents(), old(self).cursor()) && final(self).cursor()
                == old(self).cursor() + 4),
            !can_read(old(self).contents(), old(self).cursor(), 4) ==> (r matches Err(
                LinkerError::Io(_),
            ) && final(self).cursor() == old(self).cursor()),
    ;

    fn read_u64_le(&mut self) -> (r: Result<u64>)
        ensures
            final(self).contents() == old(self).contents(),
            can_read(old(self).contents(), old(self).cursor(), 8) ==> (r matches Ok(v) && v
                == le_u64_at(old(self).contents(), old(self).cursor()) && final(self).cursor()
                == old(self).cursor() + 8),
            !can_read(old(self).contents(), old(self).cursor(), 8) ==> (r matches Err(
                LinkerError::Io(_),
            ) && final(self).cursor() == old(self).cursor()),
    ;

    fn read_bytes(&mut self, n: usize) -> (r: Result<Vec<u8>>)
        ensures
            final(self).contents() == old(self).contents(),
            can_read(old(self).contents(), old(self).cursor(), n as int) ==> (r matches Ok(v)
                && v@ == bytes_at(old(self).contents(), old(self).cursor(), n as int)
                && final(self).cursor() == old(self).cursor() + n),
            !can_read(old(self).contents(), old(self).cursor(), n as int) ==> (r matches Err(
                LinkerError::Io(_),
            ) && final(self).cursor() == old(self).cursor()),
    ;

    fn read_array<const N: usize>(&mut self) -> (r: Result<[u8; N]>)
        ensures
            final(self).contents() == old(self).contents(),
            can_read(old(self).contents(), old(self).cursor(), N as int) ==> (r matches Ok(v)
                && v@ == bytes_at(old(self).contents(), old(self).cursor(), N as int)
                && final(self).cursor() == old(self).cursor() + N),
            !can_read(old(self).contents(), old(self).cursor(), N as int) ==> (r matches Err(
                LinkerError::Io(_),
            ) && final(self).cursor() == old(self).cursor()),
    ;

    fn position(&mut self) -> (r: Result<u64>)
        ensures
            final(self).contents() == old(self).contents(),
            final(self).cursor() == old(self).cursor(),
            r matches Ok(p) && p == old(self).cursor(),
    ;

    fn set_position(&mut self, pos: u64) -> (r: Result<()>)
        ensures
            final(self).contents() == old(self).contents(),
            final(self).cursor() == pos,
            r is Ok,
    ;
}

impl ReadExt for ByteReader {
    open spec fn contents(&self) -> Seq<u8> {
        self.data@
    }

    open spec fn cursor(&self) -> int {
        self.pos as int
    }

    fn read_u8(&mut self) -> (r: Result<u8>) {
        if self.pos >= self.data.len() as u64 {
            return Err(unexpected_eof());
        }
        let v = self.data[self.pos as usize];
        self.pos = self.pos + 1;
        Ok(v)
    }

    fn read_u16_le(&mut self) -> (r: Result<u16>) {
        let len = self.data.len() as u64;
        if self.pos > len || len - self.pos < 2 {
            return Err(unexpected_eof());
        }
        let p = self.pos as usize;
        let v = self.data[p] as u16 + self.data[p + 1] as u16 * 0x100;
        self.pos = self.pos + 2;
        Ok(v)
    }

    fn read_u32_le(&mut self) -> (r: Result<u32>) {
        let len = self.data.len() as u64;
        if self.pos > len || len - self.pos < 4 {
            return Err(unexpected_eof());
        }
        let p = self.pos as usize;
        let v = self.data[p] as u32 + self.data[p + 1] as u32 * 0x100 + self.data[p + 2] as u32
            * 0x1_0000 + self.data[p + 3] as u32 * 0x100_0000;
        self.pos = self.pos + 4;
        Ok(v)
    }

    fn read_u64_le(&mut self) -> (r: Result<u64>) {
        let len = self.data.len() as u64;
        if self.pos > len || len - self.pos < 8 {
            return Err(unexpected_eof());
        }
        let lo = match self.read_u32_le() {
            Ok(v) => v,
            Err(e) => return Err(e),
        };
        let hi = match self.read_u32_le() {
            Ok(v) => v,
            Err(e) => return Err(e),
        };
        Ok(lo as u64 + hi as u64 * 0x1_0000_0000)
    }

    fn read_bytes(&mut self, n: usize) -> (r: Result<Vec<u8>>) {
        if n == 0 {
            return Ok(Vec::new());
        }
        let len = self.data.len() as u64;
        if self.pos > len || len - self.pos < n as u64 {
            return Err(unexpected_eof());
        }
        let start = self.pos as usize;
        let mut out: Vec<u8> = Vec::new();
        let mut i: usize = 0;
        while i < n
            invariant
                start + n <= self.data@.len(),
                self.data@.len() <= usize::MAX,
                i <= n,
                out@ == self.data@.subrange(start as int, start + i),
            decreases n - i,
        {
            out.push(self.data[start + i]);
            i = i + 1;
            assert(out@ =~= self.data@.subrange(start as int, start + i));
        }
        self.pos = self.pos + n as u64;
        Ok(out)
    }

    fn read_array<const N: usize>(&mut self) -> (r: Result<[u8; N]>) {
        let mut out: [u8; N] = [0u8; N];
        if N == 0 {
            assert(out@ =~= Seq::<u8>::empty());
            return Ok(out);
        }
        let len = self.data.len() as u64;
        if self.pos > len || len - self.pos < N as u64 {
            return Err(unexpected_eof());
        }
        let start = self.pos as usize;
        let mut i: usize = 0;
        while i < N
            invariant
                start + N <= self.data@.len(),
                self.data@.len() <= usize::MAX,
                i <= N,
                forall|k: int| 0 <= k < i ==> out@[k] == self.data@[start + k],
            decreases N - i,
        {
            out[i] = self.data[start + i];
            i = i + 1;
        }
        assert(out@ =~= self.data@.subrange(start as int, start + N));
        self.pos = self.pos + N as u64;
        Ok(out)
    }

    fn position(&mut self) -> (r: Result<u64>) {
        Ok(self.pos)
    }

    fn set_position(&mut self, pos: u64) -> (r: Result<()>) {
        self.pos = pos;
        Ok(())
    }
}

// ---------------------------------------------------------------------------
// Writing
// ---------------------------------------------------------------------------

/// Little-endian writes that append to a growing byte sink.
pub trait WriteExt {
    spec fn written(&self) -> Seq<u8>;

    fn write_u8(&mut self, v: u8)
        ensures
            final(self).written() == old(self).written().push(v),
    ;

    fn write_u16_le(&mut self, v: u16)
        ensures
            final(self).written() == old(self).written() + u16_le(v),
    ;

    fn write_u32_le(&mut self, v: u32)
        ensures
            final(self).written() == old(self).written() + u32_le(v),
    ;

    fn write_u64_le(&mut self, v: u64)
        ensures
            final(self).written() == old(self).written() + u64_le(v),
    ;

    fn write_bytes(&mut self, bytes: &[u8])
        ensures
            final(self).written() == old(self).written() + bytes@,
    ;

    /// Writes zeros from `current` up to `target` (nothing when `target <= current`).
    fn pad_to(&mut self, current: u64, target: u64)
        ensures
            target > current ==> final(self).written() == old(self).written() + zeros(
                ((target - current) as u64) as usize as nat,
            ),
            target <= current ==> final(self).written() == old(self).written(),
    ;
}

impl WriteExt for Vec<u8> {
    open spec fn written(&self) -> Seq<u8> {
        self@
    }

    fn write_u8(&mut self, v: u8) {
        self.push(v);
    }

    fn write_u16_le(&mut self, v: u16) {
        self.push((v % 0x100) as u8);
        self.push((v / 0x100) as u8);
        assert(self@ =~= old(self)@ + u16_le(v));
    }

    fn write_u32_le(&mut self, v: u32) {
        self.push((v % 0x100) as u8);
        self.push(((v / 0x100) % 0x100) as u8);
        self.push(((v / 0x1_0000) % 0x100) as u8);
        self.push((v / 0x100_0000) as u8);
        assert(self@ =~= old(self)@ + u32_le(v));
    }

    fn write_u64_le(&mut self, v: u64) {
        self.write_u32_le((v % 0x1_0000_0000) as u32);
        self.write_u32_le((v / 0x1_0000_0000) as u32);
        assert(self@ =~= old(self)@ + u64_le(v));
    }

    fn write_bytes(&mut self, bytes: &[u8]) {
        let mut i: usize = 0;
        while i < bytes.len()
            invariant
                i <= bytes@.len(),
                self@ == old(self)@ + bytes@.subrange(0, i as int),
            decreases bytes@.len() - i,
        {
            self.push(bytes[i]);
            i = i + 1;
            assert(self@ =~= old(self)@ + bytes@.subrange(0, i as int));
        }
        assert(bytes@.subrange(0, i as int) =~= bytes@);
    }

    fn pad_to(&mut self, current: u64, target: u64) {
        if target > current {
            let n = (target - current) as usize;
            let mut i: usize = 0;
            while i < n
                invariant
                    i <= n,
                    self@ == old(self)@ + zeros(i as nat),
                decreases n - i,
            {
                self.push(0u8);
                i = i + 1;
                assert(self@ =~= old(self)@ + zeros(i as nat));
            }
        }
    }
}

// ---------------------------------------------------------------------------
// Utilities
// ---------------------------------------------------------------------------

/// Whether `x` is a power of two.
pub open spec fn is_pow2(x: u32) -> bool {
    x != 0 && x & ((x - 1) as u32) == 0
}

/// Rounds `size` up to a multiple of `align`, which is meant to be a power of two.
pub fn align_up(size: u32, align: u32) -> (r: u32)
    requires
        align > 0,
        size + align - 1 <= u32::MAX,
    ensures
        r == (size + align - 1) as u32 & !((align - 1) as u32),
        is_pow2(align) ==> r % align == 0 && size <= r && r < size + align,
{
    let s = size + (align - 1);
    let m = align - 1;
    let r = s & !m;
    proof {
        if is_pow2(align) {
            assert(align & ((align - 1) as u32) == 0 && align != 0 && m == (align - 1) as u32 && s
                == size + align - 1 && r == s & !m ==> r % align == 0 && size <= r && r < size
                + align) by (bit_vector);
        }
    }
    r
}

} // verus!
