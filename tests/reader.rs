use dither_bmp::error::FormatError;
use dither_bmp::util::{ByteReader, ReadLittleEndian};

#[test]
fn test_read_u8() {
    let mut r = ByteReader::new(vec![73]);
    let x: u8 = r.read_u8().unwrap();
    assert_eq!(x, 73);
}

#[test]
fn test_read_u16() {
    let mut r = ByteReader::new(vec![0xCD, 0xAB]);
    let x: u16 = r.read_u16().unwrap();
    assert_eq!(x, 0xABCD)
}

#[test]
fn test_read_u32() {
    let mut r = ByteReader::new(vec![0x01, 0xEF, 0xCD, 0xAB]);
    let x: u32 = r.read_u32().unwrap();
    assert_eq!(x, 0xABCDEF01)
}

#[test]
fn reads_follow_one_another() {
    let mut r = ByteReader::new(vec![7, 0x34, 0x12, 0x78, 0x56, 0x34, 0x12]);
    assert_eq!(r.read_u8(), Ok(7));
    assert_eq!(r.read_u16(), Ok(0x1234));
    assert_eq!(r.read_u32(), Ok(0x12345678));
    assert_eq!(r.read_u8(), Err(FormatError::Truncated));
}

#[test]
fn short_read_fails_and_consumes_nothing() {
    let mut r = ByteReader::new(vec![1, 2, 3]);
    assert_eq!(r.read_u32(), Err(FormatError::Truncated));
    assert_eq!(r.read_u16(), Ok(0x0201));
    assert_eq!(r.read_u16(), Err(FormatError::Truncated));
    assert_eq!(r.read_u8(), Ok(3));
}
