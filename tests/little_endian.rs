use dither_bmp::little_endian::{read_u16, read_u32, write_u16, write_u32};

#[test]
fn read_u16_1() {
    let bytes = [0b00000001, 0b00000000];
    let read = read_u16(&bytes);
    assert_eq!(read, 0b00000000_00000001);
}

#[test]
fn read_u16_2() {
    let bytes = [0b00000000, 0b00000001];
    let read = read_u16(&bytes);
    assert_eq!(read, 0b00000001_00000000);
}

#[test]
fn read_u16_3() {
    let bytes = [0b01010101, 0b10101010];
    let read = read_u16(&bytes);
    assert_eq!(read, 0b10101010_01010101);
}

#[test]
fn read_u16_4() {
    let bytes = [0b11111111, 0b11111111];
    let read = read_u16(&bytes);
    assert_eq!(read, 0b11111111_11111111);
}

#[test]
fn read_u16_5() {
    let bytes = [0b00000000, 0b00000000];
    let read = read_u16(&bytes);
    assert_eq!(read, 0b00000000_00000000);
}

#[test]
fn read_u32_is_little_endian() {
    let bytes = [0x01, 0xEF, 0xCD, 0xAB, 0xFF];
    assert_eq!(read_u32(&bytes), 0xABCDEF01);
}

#[test]
fn write_u16_is_little_endian() {
    assert_eq!(write_u16(0xABCD), [0xCD, 0xAB]);
    assert_eq!(read_u16(&write_u16(0x1234)), 0x1234);
}

#[test]
fn write_u32_is_little_endian() {
    assert_eq!(write_u32(0xABCDEF01), [0x01, 0xEF, 0xCD, 0xAB]);
    assert_eq!(read_u32(&write_u32(0xDEADBEEF)), 0xDEADBEEF);
}
