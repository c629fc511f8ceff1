use vstd::prelude::*;

use crate::cursor::Cursor;
use crate::cursor::le16;
use crate::cursor::le32;
use crate::cursor::spec_fixed_string;
use crate::error::MapError;

verus! {

/// Size in bytes of the fixed header: 64 bytes of typed fields followed
/// by a 32-byte NUL-padded name field.
pub const HEADER_SIZE: usize = 96;

/// The fixed header of a map file, read field by field in stream order.
///
/// Floating-point fields of the format are held as their raw 32-bit
/// little-endian bit patterns; interpreting them is the caller's concern.
/// The `reserved_*` fields are unconfirmed slots of the format, kept as
/// opaque typed values.
#[derive(Debug)]
pub struct MapHeader {
    pub signature: u32,
    /// Unconfirmed 32-bit integer slot.
    pub reserved_1: u32,
    /// Unconfirmed 32-bit float slot, raw bits.
    pub reserved_2: u32,
    /// Unconfirmed 32-bit float slot, raw bits.
    pub reserved_3: u32,
    /// Smallest representable height, raw 32-bit float bits.
    pub min_height_bits: u32,
    /// Largest representable height, raw 32-bit float bits.
    pub max_height_bits: u32,
    /// Grid width in cells.
    pub w: u32,
    /// Grid height in cells.
    pub h: u32,
    /// Unconfirmed 32-bit float slot, raw bits.
    pub reserved_4: u32,
    /// Unconfirmed 32-bit float slot, raw bits.
    pub reserved_5: u32,
    /// Unconfirmed 32-bit float slot, raw bits.
    pub reserved_6: u32,
    /// Unconfirmed 32-bit float slot, raw bits.
    pub reserved_7: u32,
    /// Unconfirmed 32-bit float slot, raw bits.
    pub reserved_8: u32,
    /// Unconfirmed 16-bit integer slot.
    pub reserved_9: u16,
    /// Unconfirmed 16-bit integer slot.
    pub reserved_10: u16,
    /// Unconfirmed 32-bit float slot, raw bits.
    pub reserved_11: u32,
    /// Unconfirmed 32-bit float slot, raw bits.
    pub reserved_12: u32,
    /// Name field, NUL padding trimmed; empty where the bytes are not
    /// valid UTF-8.
    pub name: String,
}

/// Mathematical image of a `MapHeader`: the same fields with the name as
/// a character sequence.
pub struct MapHeaderView {
    pub signature: u32,
    pub reserved_1: u32,
    pub reserved_2: u32,
    pub reserved_3: u32,
    pub min_height_bits: u32,
    pub max_height_bits: u32,
    pub w: u32,
    pub h: u32,
    pub reserved_4: u32,
    pub reserved_5: u32,
    pub reserved_6: u32,
    pub reserved_7: u32,
    pub reserved_8: u32,
    pub reserved_9: u16,
    pub reserved_10: u16,
    pub reserved_11: u32,
    pub reserved_12: u32,
    pub name: Seq<char>,
}

impl View for MapHeader {
    type V = MapHeaderView;

    open spec fn view(&self) -> MapHeaderView {
        MapHeaderView {
            signature: self.signature,
            reserved_1: self.reserved_1,
            reserved_2: self.reserved_2,
            reserved_3: self.reserved_3,
            min_height_bits: self.min_height_bits,
            max_height_bits: self.max_height_bits,
            w: self.w,
            h: self.h,
            reserved_4: self.reserved_4,
            reserved_5: self.reserved_5,
            reserved_6: self.reserved_6,
            reserved_7: self.reserved_7,
            reserved_8: self.reserved_8,
            reserved_9: self.reserved_9,
            reserved_10: self.reserved_10,
            reserved_11: self.reserved_11,
            reserved_12: self.reserved_12,
            name: self.name@,
        }
    }
}

/// The header encoded at position `pos` of the stream: every field is
/// the little-endian value of its fixed slot.
pub open spec fn spec_header(b: Seq<u8>, pos: int) -> MapHeaderView
    recommends
        0 <= pos,
        pos + HEADER_SIZE <= b.len(),
{
    MapHeaderView {
        signature: le32(b.subrange(pos, pos + 4)) as u32,
        reserved_1: le32(b.subrange(pos + 4, pos + 8)) as u32,
        reserved_2: le32(b.subrange(pos + 8, pos + 12)) as u32,
        reserved_3: le32(b.subrange(pos + 12, pos + 16)) as u32,
        min_height_bits: le32(b.subrange(pos + 16, pos + 20)) as u32,
        max_height_bits: le32(b.subrange(pos + 20, pos + 24)) as u32,
        w: le32(b.subrange(pos + 24, pos + 28)) as u32,
        h: le32(b.subrange(pos + 28, pos + 32)) as u32,
        reserved_4: le32(b.subrange(pos + 32, pos + 36)) as u32,
        reserved_5: le32(b.subrange(pos + 36, pos + 40)) as u32,
        reserved_6: le32(b.subrange(pos + 40, pos + 44)) as u32,
        reserved_7: le32(b.subrange(pos + 44, pos + 48)) as u32,
        reserved_8: le32(b.subrange(pos + 48, pos + 52)) as u32,
        reserved_9: le16(b.subrange(pos + 52, pos + 54)) as u16,
        reserved_10: le16(b.subrange(pos + 54, pos + 56)) as u16,
        reserved_11: le32(b.subrange(pos + 56, pos + 60)) as u32,
        reserved_12: le32(b.subrange(pos + 60, pos + 64)) as u32,
        name: spec_fixed_string(b.subrange(pos + 64, pos + 96)),
    }
}

impl MapHeader {
    /// Reads the 17 header fields in their fixed order. Fails with
    /// `UnexpectedEof`, leaving the cursor where it stood, exactly when
    /// fewer than `HEADER_SIZE` bytes remain.
    pub fn parse(cur: &mut Cursor) -> (r: Result<MapHeader, MapError>)
        requires
            old(cur).wf(),
        ensures
            final(cur).wf(),
            final(cur).data() == old(cur).data(),
            if old(cur).position() + HEADER_SIZE <= old(cur).data().len() {
                (r matches Ok(hd) && hd@ == spec_header(old(cur).data(), old(cur).position()))
                    && final(cur).position() == old(cur).position() + HEADER_SIZE
            } else {
                r == Err::<MapHeader, MapError>(MapError::UnexpectedEof)
                    && final(cur).position() == old(cur).position()
            },
    {
        if cur.remaining() < HEADER_SIZE {
            return Err(MapError::UnexpectedEof);
        }
        let signature = cur.read_u32()?;
        let reserved_1 = cur.read_u32()?;
        let reserved_2 = cur.read_u32()?;
        let reserved_3 = cur.read_u32()?;
        let min_height_bits = cur.read_u32()?;
        let max_height_bits = cur.read_u32()?;
        let w = cur.read_u32()?;
        let h = cur.read_u32()?;
        let reserved_4 = cur.read_u32()?;
        let reserved_5 = cur.read_u32()?;
        let reserved_6 = cur.read_u32()?;
        let reserved_7 = cur.read_u32()?;
        let reserved_8 = cur.read_u32()?;
        let reserved_9 = cur.read_u16()?;
        let reserved_10 = cur.read_u16()?;
        let reserved_11 = cur.read_u32()?;
        let reserved_12 = cur.read_u32()?;
        let name = cur.read_fixed_string(0x20)?;
        Ok(MapHeader {
            signature,
            reserved_1,
            reserved_2,
            reserved_3,
            min_height_bits,
            max_height_bits,
            w,
            h,
            reserved_4,
            reserved_5,
            reserved_6,
            reserved_7,
            reserved_8,
            reserved_9,
            reserved_10,
            reserved_11,
            reserved_12,
            name,
        })
    }
}

} // verus!
