use rslinker::binary_io::{align_up, ByteReader, ReadExt, WriteExt};
use rslinker::error::LinkerError;

#[test]
fn test_read_write_roundtrip() {
    let mut buf: Vec<u8> = Vec::new();
    buf.write_u32_le(0xDEAD_BEEF);
    let mut r = ByteReader::new(buf);
    r.set_position(0).unwrap();
    assert_eq!(r.read_u32_le().unwrap(), 0xDEAD_BEEF);
}

#[test]
fn test_align_up() {
    assert_eq!(align_up(0, 0x200), 0);
    assert_eq!(align_up(1, 0x200), 0x200);
    assert_eq!(align_up(0x200, 0x200), 0x200);
    assert_eq!(align_up(0x201, 0x200), 0x400);
    assert_eq!(align_up(0x1000, 0x1000), 0x1000);
}

#[test]
fn align_up_at_the_top_of_the_range() {
    assert_eq!(align_up(0xFFFF_F000, 0x1000), 0xFFFF_F000);
    assert_eq!(align_up(0xFFFF_FC01, 0x200), 0xFFFF_FE00);
    assert_eq!(align_up(7, 1), 7);
}

#[test]
fn writes_are_little_endian() {
    let mut w: Vec<u8> = Vec::new();
    w.write_u8(0x11);
    w.write_u16_le(0x2233);
    w.write_u32_le(0x4455_6677);
    w.write_u64_le(0x8899_AABB_CCDD_EEFF);
    w.write_bytes(&[1, 2]);
    assert_eq!(
        w,
        vec![0x11, 0x33, 0x22, 0x77, 0x66, 0x55, 0x44, 0xFF, 0xEE, 0xDD, 0xCC, 0xBB, 0xAA, 0x99, 0x88, 1, 2]
    );
}

#[test]
fn pad_to_writes_the_gap_only() {
    let mut w: Vec<u8> = vec![7];
    w.pad_to(1, 4);
    assert_eq!(w, vec![7, 0, 0, 0]);
    w.pad_to(9, 4);
    assert_eq!(w, vec![7, 0, 0, 0]);
}

#[test]
fn every_width_reads_back() {
    let mut w: Vec<u8> = Vec::new();
    w.write_u16_le(0xBEEF);
    w.write_u64_le(0x0123_4567_89AB_CDEF);
    w.write_u8(0x5A);
    let mut r = ByteReader::new(w);
    assert_eq!(r.read_u16_le().unwrap(), 0xBEEF);
    assert_eq!(r.read_u64_le().unwrap(), 0x0123_4567_89AB_CDEF);
    assert_eq!(r.position().unwrap(), 10);
    assert_eq!(r.read_u8().unwrap(), 0x5A);
    r.set_position(2).unwrap();
    assert_eq!(r.read_bytes(3).unwrap(), vec![0xEF, 0xCD, 0xAB]);
    let a: [u8; 2] = r.read_array().unwrap();
    assert_eq!(a, [0x89, 0x67]);
}

#[test]
fn reading_past_the_end_fails_and_stays_put() {
    let mut r = ByteReader::new(vec![1, 2, 3]);
    r.set_position(1).unwrap();
    assert!(matches!(r.read_u32_le(), Err(LinkerError::Io(_))));
    assert_eq!(r.position().unwrap(), 1);
    assert_eq!(r.read_u16_le().unwrap(), 0x0302);
    assert!(matches!(r.read_u8(), Err(LinkerError::Io(_))));
    r.set_position(100).unwrap();
    assert!(matches!(r.read_bytes(1), Err(LinkerError::Io(_))));
    assert_eq!(r.read_bytes(0).unwrap(), Vec::<u8>::new());
    assert_eq!(r.position().unwrap(), 100);
}
