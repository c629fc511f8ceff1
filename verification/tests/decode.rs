use heightmap::cursor::Cursor;
use heightmap::error::MapError;
use heightmap::header::MapHeader;
use heightmap::tiles::TileMap;

fn push_u16(v: &mut Vec<u8>, x: u16) {
    v.extend_from_slice(&x.to_le_bytes());
}

fn push_u32(v: &mut Vec<u8>, x: u32) {
    v.extend_from_slice(&x.to_le_bytes());
}

/// Builds a 96-byte header with the given grid size and name bytes;
/// the other fields get fixed recognizable values.
fn header_bytes(w: u32, h: u32, name: &[u8]) -> Vec<u8> {
    let mut v = Vec::new();
    push_u32(&mut v, 0x5030_414D); // signature
    push_u32(&mut v, 7); // reserved_1
    push_u32(&mut v, 0x3F80_0000); // reserved_2 (1.0f32 bits)
    push_u32(&mut v, 0x4000_0000); // reserved_3 (2.0f32 bits)
    push_u32(&mut v, 0x0000_0000); // min_height_bits (0.0f32)
    push_u32(&mut v, 0x42C8_0000); // max_height_bits (100.0f32)
    push_u32(&mut v, w);
    push_u32(&mut v, h);
    push_u32(&mut v, 11); // reserved_4
    push_u32(&mut v, 12); // reserved_5
    push_u32(&mut v, 13); // reserved_6
    push_u32(&mut v, 14); // reserved_7
    push_u32(&mut v, 15); // reserved_8
    push_u16(&mut v, 21); // reserved_9
    push_u16(&mut v, 22); // reserved_10
    push_u32(&mut v, 31); // reserved_11
    push_u32(&mut v, 32); // reserved_12
    assert!(name.len() <= 32);
    let mut name_field = name.to_vec();
    name_field.resize(32, 0);
    v.extend_from_slice(&name_field);
    assert_eq!(v.len(), 96);
    v
}

/// An eight-byte point record.
fn point_bytes(height_bits: u32, reserved: u8, red: u8, green: u8, blue: u8) -> Vec<u8> {
    let mut v = Vec::new();
    push_u32(&mut v, height_bits);
    v.push(reserved);
    v.push(red);
    v.push(green);
    v.push(blue);
    v
}

#[test]
fn header_fields_decode_in_order() {
    let bytes = header_bytes(640, 480, b"Test Map");
    let mut cur = Cursor::new(bytes);
    let hd = MapHeader::parse(&mut cur).unwrap();
    assert_eq!(hd.signature, 0x5030_414D);
    assert_eq!(hd.reserved_1, 7);
    assert_eq!(hd.reserved_2, 0x3F80_0000);
    assert_eq!(hd.reserved_3, 0x4000_0000);
    assert_eq!(hd.min_height_bits, 0x0000_0000);
    assert_eq!(hd.max_height_bits, 0x42C8_0000);
    assert_eq!(hd.w, 640);
    assert_eq!(hd.h, 480);
    assert_eq!(hd.reserved_4, 11);
    assert_eq!(hd.reserved_5, 12);
    assert_eq!(hd.reserved_6, 13);
    assert_eq!(hd.reserved_7, 14);
    assert_eq!(hd.reserved_8, 15);
    assert_eq!(hd.reserved_9, 21);
    assert_eq!(hd.reserved_10, 22);
    assert_eq!(hd.reserved_11, 31);
    assert_eq!(hd.reserved_12, 32);
    assert_eq!(hd.name, "Test Map");
}

#[test]
fn header_too_short_is_eof() {
    let mut bytes = header_bytes(2, 2, b"x");
    bytes.truncate(95);
    let mut cur = Cursor::new(bytes);
    assert_eq!(MapHeader::parse(&mut cur).unwrap_err(), MapError::UnexpectedEof);
}

#[test]
fn name_with_invalid_utf8_falls_back_to_empty() {
    let bytes = header_bytes(1, 1, &[0xFF, 0xFE, 0x80]);
    let mut cur = Cursor::new(bytes);
    let hd = MapHeader::parse(&mut cur).unwrap();
    assert_eq!(hd.name, "");
}

#[test]
fn name_with_multibyte_utf8_decodes() {
    let bytes = header_bytes(1, 1, "h\u{e9}llo".as_bytes());
    let mut cur = Cursor::new(bytes);
    let hd = MapHeader::parse(&mut cur).unwrap();
    assert_eq!(hd.name, "h\u{e9}llo");
}

#[test]
fn single_data_run_then_skip() {
    // Grid 2x1; run code 0 (one data cell), then run code -1 (skip one).
    let mut bytes = header_bytes(2, 1, b"scene");
    bytes.extend_from_slice(&[0x00, 0xAA, 0x00, 0x00, 0x00, 0x10, 0x20, 0x30, 0x00, 0xFF]);
    let mut cur = Cursor::new(bytes);
    let map = TileMap::parse(&mut cur).unwrap();
    assert_eq!(map.enabled, vec![1u8, 0u8]);
    assert_eq!(map.points.len(), 1);
    assert_eq!(map.points[0].height_bits, 0xAA);
    assert_eq!(map.points[0].reserved, 0x10);
    assert_eq!(map.points[0].red, 0x20);
    assert_eq!(map.points[0].green, 0x30);
    assert_eq!(map.points[0].blue, 0x00);
}

#[test]
fn skip_run_then_data_run() {
    // Four cells; run code -2 (skip two), then run code 1 (two data cells).
    let mut bytes = header_bytes(4, 1, b"strip");
    bytes.push(0xFE);
    bytes.push(0x01);
    bytes.extend_from_slice(&point_bytes(0x3F80_0000, 1, 2, 3, 4));
    bytes.extend_from_slice(&point_bytes(0x4000_0000, 5, 6, 7, 8));
    let mut cur = Cursor::new(bytes);
    let map = TileMap::parse(&mut cur).unwrap();
    assert_eq!(map.enabled, vec![0u8, 0u8, 1u8, 1u8]);
    assert_eq!(map.points.len(), 2);
    assert_eq!(map.points[0].height_bits, 0x3F80_0000);
    assert_eq!(map.points[1].height_bits, 0x4000_0000);
}

#[test]
fn data_run_past_grid_size_is_overflow() {
    // One cell, but run code 1 covers two cells.
    let mut bytes = header_bytes(1, 1, b"over");
    bytes.push(0x01);
    bytes.extend_from_slice(&point_bytes(0, 0, 0, 0, 0));
    bytes.extend_from_slice(&point_bytes(0, 0, 0, 0, 0));
    let mut cur = Cursor::new(bytes);
    assert_eq!(TileMap::parse(&mut cur).unwrap_err(), MapError::RunOverflow);
}

#[test]
fn skip_run_past_grid_size_is_overflow() {
    // One cell, but run code -2 skips two cells.
    let mut bytes = header_bytes(1, 1, b"over");
    bytes.push(0xFE);
    let mut cur = Cursor::new(bytes);
    assert_eq!(TileMap::parse(&mut cur).unwrap_err(), MapError::RunOverflow);
}

#[test]
fn stream_ending_before_grid_is_covered_is_eof() {
    // Two cells, one data run of one cell, then nothing.
    let mut bytes = header_bytes(2, 1, b"cut");
    bytes.push(0x00);
    bytes.extend_from_slice(&point_bytes(0, 0, 0, 0, 0));
    let mut cur = Cursor::new(bytes);
    assert_eq!(TileMap::parse(&mut cur).unwrap_err(), MapError::UnexpectedEof);
}

#[test]
fn stream_ending_inside_a_point_is_eof() {
    let mut bytes = header_bytes(1, 1, b"cut");
    bytes.extend_from_slice(&[0x00, 0xAA, 0xBB]);
    let mut cur = Cursor::new(bytes);
    assert_eq!(TileMap::parse(&mut cur).unwrap_err(), MapError::UnexpectedEof);
}

#[test]
fn empty_grid_decodes_to_empty_map() {
    let bytes = header_bytes(0, 7, b"empty");
    let mut cur = Cursor::new(bytes);
    let map = TileMap::parse(&mut cur).unwrap();
    assert_eq!(map.enabled.len(), 0);
    assert_eq!(map.points.len(), 0);
}

#[test]
fn skip_run_of_remaining_cells_ends_decode() {
    // Run code -128 skips 128 cells exactly.
    let mut bytes = header_bytes(128, 1, b"allskip");
    bytes.push(0x80);
    let mut cur = Cursor::new(bytes);
    let map = TileMap::parse(&mut cur).unwrap();
    assert_eq!(map.enabled.len(), 128);
    assert!(map.enabled.iter().all(|&e| e == 0));
    assert_eq!(map.points.len(), 0);
}

#[test]
fn enabled_count_matches_point_count() {
    // Mixed runs over a 3x3 grid: data 2, skip 3, data 3, skip 1.
    let mut bytes = header_bytes(3, 3, b"mixed");
    bytes.push(0x01);
    bytes.extend_from_slice(&point_bytes(1, 0, 0, 0, 0));
    bytes.extend_from_slice(&point_bytes(2, 0, 0, 0, 0));
    bytes.push(0xFD); // -3
    bytes.push(0x02);
    bytes.extend_from_slice(&point_bytes(3, 0, 0, 0, 0));
    bytes.extend_from_slice(&point_bytes(4, 0, 0, 0, 0));
    bytes.extend_from_slice(&point_bytes(5, 0, 0, 0, 0));
    bytes.push(0xFF); // -1
    let mut cur = Cursor::new(bytes);
    let map = TileMap::parse(&mut cur).unwrap();
    assert_eq!(map.enabled.len(), 9);
    let ones = map.enabled.iter().filter(|&&e| e == 1).count();
    assert_eq!(ones, map.points.len());
    assert_eq!(map.points.len(), 5);
    assert_eq!(map.enabled, vec![1, 1, 0, 0, 0, 1, 1, 1, 0]);
}

#[test]
fn decoding_is_deterministic() {
    let mut bytes = header_bytes(2, 1, b"same");
    bytes.extend_from_slice(&[0x00, 0xAA, 0x00, 0x00, 0x00, 0x10, 0x20, 0x30, 0x00, 0xFF]);
    let mut cur1 = Cursor::new(bytes.clone());
    let mut cur2 = Cursor::new(bytes);
    let m1 = TileMap::parse(&mut cur1).unwrap();
    let m2 = TileMap::parse(&mut cur2).unwrap();
    assert_eq!(m1.header.signature, m2.header.signature);
    assert_eq!(m1.header.w, m2.header.w);
    assert_eq!(m1.header.h, m2.header.h);
    assert_eq!(m1.header.name, m2.header.name);
    assert_eq!(m1.points, m2.points);
    assert_eq!(m1.enabled, m2.enabled);
}
