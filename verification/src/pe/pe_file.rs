//! A whole PE file.
use vstd::prelude::*;

use crate::binary_io::zeros;
use crate::coff::section_header::SectionHeader;

use super::dos_header::DosHeader;
use super::pe_header::PeHeader;

verus! {

pub struct PeSection {
    pub header: SectionHeader,
    pub data: Vec<u8>,
}

pub struct PeFile {
    pub dos_header: DosHeader,
    pub pe_header: PeHeader,
    pub sections: Vec<PeSection>,
}

/// `buf` with `bytes` written at `pos`: a gap before `pos` is filled with zeros and the
/// contents grow where the write goes past the end, as when writing at a seek position.
pub open spec fn write_at(buf: Seq<u8>, pos: int, bytes: Seq<u8>) -> Seq<u8> {
    let ext = if pos > buf.len() {
        buf + zeros((pos - buf.len()) as nat)
    } else {
        buf
    };
    if pos + bytes.len() >= ext.len() {
        ext.take(pos) + bytes
    } else {
        ext.take(pos) + bytes + ext.skip(pos + bytes.len())
    }
}

/// The section headers, one after the other.
pub open spec fn section_headers_encoded(s: Seq<PeSection>) -> Seq<u8>
    decreases s.len(),
{
    if s.len() == 0 {
        Seq::empty()
    } else {
        section_headers_encoded(s.drop_last()) + s.last().header.encoded()
    }
}

/// `img` with the data of each section written at its file offset, in order.
pub open spec fn with_section_data(img: Seq<u8>, s: Seq<PeSection>) -> Seq<u8>
    decreases s.len(),
{
    if s.len() == 0 {
        img
    } else {
        let before = with_section_data(img, s.drop_last());
        write_at(before, s.last().header.pointer_to_raw_data as int, s.last().data@)
    }
}

impl PeFile {
    /// The file size the image is first given: the end of the last section's raw data.
    pub open spec fn initial_size(self) -> int {
        let last = self.sections@.last().header;
        last.pointer_to_raw_data + last.size_of_raw_data
    }

    /// The header bytes: DOS header, PE header, then every section header.
    pub open spec fn headers_encoded(self) -> Seq<u8> {
        self.dos_header.encoded() + self.pe_header.encoded() + section_headers_encoded(
            self.sections@,
        )
    }

    /// The file contents: zeros up to `initial_size`, the headers written from offset 0,
    /// then each section's data written at its `pointer_to_raw_data`.
    pub open spec fn image_spec(self) -> Seq<u8> {
        with_section_data(
            write_at(zeros(self.initial_size() as nat), 0, self.headers_encoded()),
            self.sections@,
        )
    }

    /// The header bytes of the file.
    pub fn headers_bytes(&self) -> (headers: Vec<u8>)
        ensures
            headers@ == self.headers_encoded(),
    {
        let mut headers: Vec<u8> = Vec::new();
        self.dos_header.write(&mut headers);
        self.pe_header.write(&mut headers);
        let mut k: usize = 0;
        while k < self.sections.len()
            invariant
                k <= self.sections@.len(),
                headers@ == self.dos_header.encoded() + self.pe_header.encoded()
                    + section_headers_encoded(self.sections@.take(k as int)),
            decreases self.sections@.len() - k,
        {
            self.sections[k].header.write(&mut headers);
            assert(self.sections@.take(k + 1).drop_last() =~= self.sections@.take(k as int));
            k = k + 1;
            assert(headers@ =~= self.dos_header.encoded() + self.pe_header.encoded()
                + section_headers_encoded(self.sections@.take(k as int)));
        }
        assert(self.sections@.take(k as int) =~= self.sections@);
        headers
    }

    /// The bytes of the PE file.
    pub fn image(&self) -> (img: Vec<u8>)
        requires
            self.sections@.len() > 0,
            self.initial_size() <= u32::MAX,
            forall|k: int|
                0 <= k < self.sections@.len() ==> #[trigger] self.sections@[k].header.pointer_to_raw_data
                    + self.sections@[k].data@.len() <= usize::MAX,
        ensures
            img@ == self.image_spec(),
    {
        let last = &self.sections[self.sections.len() - 1];
        let file_size = last.header.pointer_to_raw_data + last.header.size_of_raw_data;
        let mut img = zero_bytes(file_size as usize);
        let headers = self.headers_bytes();
        let header_len = headers.len();
        assert(headers@.len() == header_len);
        write_bytes_at(&mut img, 0, headers.as_slice());
        let ghost base = img@;
        let mut k: usize = 0;
        while k < self.sections.len()
            invariant
                k <= self.sections@.len(),
                base == write_at(zeros(self.initial_size() as nat), 0, self.headers_encoded()),
                img@ == with_section_data(base, self.sections@.take(k as int)),
                forall|j: int|
                    0 <= j < self.sections@.len() ==> #[trigger] self.sections@[j].header.pointer_to_raw_data
                        + self.sections@[j].data@.len() <= usize::MAX,
            decreases self.sections@.len() - k,
        {
            let sec = &self.sections[k];
            write_bytes_at(&mut img, sec.header.pointer_to_raw_data as usize, sec.data.as_slice());
            assert(self.sections@.take(k + 1).drop_last() =~= self.sections@.take(k as int));
            k = k + 1;
        }
        assert(self.sections@.take(k as int) =~= self.sections@);
        img
    }
}

/// `n` zero bytes.
pub fn zero_bytes(n: usize) -> (v: Vec<u8>)
    ensures
        v@ == zeros(n as nat),
{
    let mut v: Vec<u8> = Vec::new();
    let mut i: usize = 0;
    while i < n
        invariant
            i <= n,
            v@ == zeros(i as nat),
        decreases n - i,
    {
        v.push(0u8);
        i = i + 1;
        assert(v@ =~= zeros(i as nat));
    }
    v
}

/// Writes `bytes` into `buf` at `pos`, zero-filling a gap and growing `buf` as needed.
pub fn write_bytes_at(buf: &mut Vec<u8>, pos: usize, bytes: &[u8])
    requires
        pos + bytes@.len() <= usize::MAX,
    ensures
        final(buf)@ == write_at(old(buf)@, pos as int, bytes@),
{
    while buf.len() < pos
        invariant
            old(buf)@.len() <= buf@.len() <= pos || buf@.len() == old(buf)@.len(),
            buf@.len() <= pos ==> buf@ == old(buf)@ + zeros((buf@.len() - old(buf)@.len()) as nat),
            buf@.len() > pos ==> buf@ == old(buf)@,
        decreases pos - buf@.len(),
    {
        buf.push(0u8);
        assert(buf@ =~= old(buf)@ + zeros((buf@.len() - old(buf)@.len()) as nat));
    }
    let ghost ext = buf@;
    assert(ext == (if pos > old(buf)@.len() {
        old(buf)@ + zeros((pos - old(buf)@.len()) as nat)
    } else {
        old(buf)@
    }));
    let mut i: usize = 0;
    while i < bytes.len()
        invariant
            i <= bytes@.len(),
            pos + bytes@.len() <= usize::MAX,
            pos <= ext.len(),
            buf@.len() == if pos + i > ext.len() { pos + i } else { ext.len() as int },
            forall|k: int| 0 <= k < pos ==> buf@[k] == ext[k],
            forall|k: int| pos <= k < pos + i ==> buf@[k] == bytes@[k - pos],
            forall|k: int| pos + i <= k < buf@.len() ==> buf@[k] == ext[k],
        decreases bytes@.len() - i,
    {
        if pos + i < buf.len() {
            buf.set(pos + i, bytes[i]);
        } else {
            buf.push(bytes[i]);
        }
        i = i + 1;
    }
    assert(buf@ =~= write_at(old(buf)@, pos as int, bytes@));
}

} // verus!
