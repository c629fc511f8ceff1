use byteorder::ByteOrder;
use byteorder::LittleEndian;

use heightmap::cursor::Cursor;
use heightmap::error::MapError;

#[test]
fn u16_and_u32_reads_are_little_endian() {
    let bytes = vec![0x01u8, 0x02, 0x03, 0x04, 0x05, 0x06];
    let mut cur = Cursor::new(bytes);
    assert_eq!(cur.read_u16().unwrap(), 0x0201);
    assert_eq!(cur.read_u32().unwrap(), 0x0605_0403);
}

#[test]
fn reads_agree_with_byteorder() {
    let bytes = vec![0xDEu8, 0xAD, 0xBE, 0xEF, 0x12, 0x34];
    let mut cur = Cursor::new(bytes.clone());
    assert_eq!(cur.read_u32().unwrap(), LittleEndian::read_u32(&bytes[0..4]));
    assert_eq!(cur.read_u16().unwrap(), LittleEndian::read_u16(&bytes[4..6]));
}

#[test]
fn signed_byte_reads_use_twos_complement() {
    let bytes = vec![0x00u8, 0x01, 0x7F, 0x80, 0xFF, 0xFE];
    let mut cur = Cursor::new(bytes);
    assert_eq!(cur.read_i8().unwrap(), 0);
    assert_eq!(cur.read_i8().unwrap(), 1);
    assert_eq!(cur.read_i8().unwrap(), 127);
    assert_eq!(cur.read_i8().unwrap(), -128);
    assert_eq!(cur.read_i8().unwrap(), -1);
    assert_eq!(cur.read_i8().unwrap(), -2);
}

#[test]
fn short_read_fails_and_leaves_position() {
    let bytes = vec![0x0Au8, 0x0B];
    let mut cur = Cursor::new(bytes);
    // Not enough bytes for a u32: the read fails and consumes nothing.
    assert_eq!(cur.read_u32().unwrap_err(), MapError::UnexpectedEof);
    assert_eq!(cur.read_u16().unwrap(), 0x0B0A);
    assert_eq!(cur.read_u8().unwrap_err(), MapError::UnexpectedEof);
}

#[test]
fn read_bytes_returns_exact_slice() {
    let bytes = vec![1u8, 2, 3, 4, 5];
    let mut cur = Cursor::new(bytes);
    assert_eq!(cur.read_bytes(3).unwrap(), vec![1u8, 2, 3]);
    assert_eq!(cur.read_bytes(3).unwrap_err(), MapError::UnexpectedEof);
    assert_eq!(cur.read_bytes(2).unwrap(), vec![4u8, 5]);
}

#[test]
fn fixed_string_trims_trailing_nuls_only() {
    let bytes = vec![b'a', 0, b'b', 0, 0, 0];
    let mut cur = Cursor::new(bytes);
    let s = cur.read_fixed_string(6).unwrap();
    assert_eq!(s, "a\0b");
}

#[test]
fn fixed_string_of_invalid_utf8_is_empty() {
    let bytes = vec![0xC3u8, 0x28, 0x00, 0x00];
    let mut cur = Cursor::new(bytes);
    assert_eq!(cur.read_fixed_string(4).unwrap(), "");
}
