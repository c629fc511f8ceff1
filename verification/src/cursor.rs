use vstd::prelude::*;

use crate::error::MapError;

verus! {

/// Value of a two-byte little-endian unsigned integer.
pub open spec fn le16(b: Seq<u8>) -> int
    recommends
        b.len() == 2,
{
    b[0] + 0x100 * b[1]
}

/// Value of a four-byte little-endian unsigned integer.
pub open spec fn le32(b: Seq<u8>) -> int
    recommends
        b.len() == 4,
{
    b[0] + 0x100 * b[1] + 0x1_0000 * b[2] + 0x100_0000 * b[3]
}

/// Two's-complement value of a single byte read as a signed integer.
pub open spec fn as_signed(b: u8) -> int {
    if b < 0x80 {
        b as int
    } else {
        b - 0x100
    }
}

/// The bytes left after removing every trailing NUL byte.
pub open spec fn trim_nuls(b: Seq<u8>) -> Seq<u8>
    decreases b.len(),
{
    if b.len() > 0 && b[b.len() - 1] == 0 {
        trim_nuls(b.drop_last())
    } else {
        b
    }
}

/// The characters that a byte sequence decodes to as UTF-8, or `None`
/// where the bytes are not valid UTF-8. The result depends on the bytes
/// alone.
pub uninterp spec fn utf8_of(bytes: Seq<u8>) -> Option<Seq<char>>;

/// Text of a NUL-padded fixed-size field: the padding is removed and the
/// remaining bytes are decoded as UTF-8; invalid text yields the empty
/// string instead of a failure.
pub open spec fn spec_fixed_string(b: Seq<u8>) -> Seq<char> {
    match utf8_of(trim_nuls(b)) {
        Some(cs) => cs,
        None => Seq::empty(),
    }
}

/// Relies on `String::from_utf8`: it returns `Ok` exactly when the bytes
/// are valid UTF-8, and the decoded text is a function of the bytes alone.
#[verifier::external_body]
fn utf8_decode(bytes: Vec<u8>) -> (r: Option<String>)
    ensures
        match r {
            Some(s) => utf8_of(bytes@) == Some(s@),
            None => utf8_of(bytes@) is None,
        },
{
    String::from_utf8(bytes).ok()
}

/// Sequential little-endian reader over an in-memory byte stream.
///
/// Every read consumes exactly the requested number of bytes and fails
/// with `MapError::UnexpectedEof`, leaving the position unchanged, when
/// fewer bytes remain.
pub struct Cursor {
    bytes: Vec<u8>,
    pos: usize,
}

impl Cursor {
    /// The whole underlying byte stream.
    pub closed spec fn data(&self) -> Seq<u8> {
        self.bytes@
    }

    /// The current read position.
    pub closed spec fn position(&self) -> int {
        self.pos as int
    }

    /// The position never runs past the end of the stream.
    pub open spec fn wf(&self) -> bool {
        0 <= self.position() <= self.data().len()
    }

    pub fn new(bytes: Vec<u8>) -> (c: Cursor)
        ensures
            c.wf(),
            c.data() == bytes@,
            c.position() == 0,
    {
        Cursor { bytes, pos: 0 }
    }

    /// How many bytes remain to be read.
    pub fn remaining(&self) -> (r: usize)
        requires
            self.wf(),
        ensures
            r == self.data().len() - self.position(),
    {
        self.bytes.len() - self.pos
    }

    pub fn read_u8(&mut self) -> (r: Result<u8, MapError>)
        requires
            old(self).wf(),
        ensures
            final(self).wf(),
            final(self).data() == old(self).data(),
            if old(self).position() + 1 <= old(self).data().len() {
                r == Ok::<u8, MapError>(old(self).data()[old(self).position()])
                    && final(self).position() == old(self).position() + 1
            } else {
                r == Err::<u8, MapError>(MapError::UnexpectedEof)
                    && final(self).position() == old(self).position()
            },
    {
        if self.pos < self.bytes.len() {
            let b = self.bytes[self.pos];
            self.pos = self.pos + 1;
            Ok(b)
        } else {
            Err(MapError::UnexpectedEof)
        }
    }

    pub fn read_i8(&mut self) -> (r: Result<i8, MapError>)
        requires
            old(self).wf(),
        ensures
            final(self).wf(),
            final(self).data() == old(self).data(),
            if old(self).position() + 1 <= old(self).data().len() {
                (r matches Ok(v) && v as int == as_signed(
                    old(self).data()[old(self).position()],
                )) && final(self).position() == old(self).position() + 1
            } else {
                r == Err::<i8, MapError>(MapError::UnexpectedEof)
                    && final(self).position() == old(self).position()
            },
    {
        match self.read_u8() {
            Ok(b) => {
                if b < 0x80 {
                    Ok(b as i8)
                } else {
                    Ok(-1 - ((0xff - b) as i8))
                }
            },
            Err(e) => Err(e),
        }
    }

    pub fn read_u16(&mut self) -> (r: Result<u16, MapError>)
        requires
            old(self).wf(),
        ensures
            final(self).wf(),
            final(self).data() == old(self).data(),
            if old(self).position() + 2 <= old(self).data().len() {
                (r matches Ok(v) && v == le16(
                    old(self).data().subrange(old(self).position(), old(self).position() + 2),
                )) && final(self).position() == old(self).position() + 2
            } else {
                r == Err::<u16, MapError>(MapError::UnexpectedEof)
                    && final(self).position() == old(self).position()
            },
    {
        if self.bytes.len() - self.pos < 2 {
            return Err(MapError::UnexpectedEof);
        }
        let b0 = self.bytes[self.pos];
        let b1 = self.bytes[self.pos + 1];
        self.pos = self.pos + 2;
        let v: u16 = b0 as u16 + 0x100 * (b1 as u16);
        proof {
            let s = old(self).data().subrange(old(self).position(), old(self).position() + 2);
            assert(s[0] == b0 && s[1] == b1);
        }
        Ok(v)
    }

    pub fn read_u32(&mut self) -> (r: Result<u32, MapError>)
        requires
            old(self).wf(),
        ensures
            final(self).wf(),
            final(self).data() == old(self).data(),
            if old(self).position() + 4 <= old(self).data().len() {
                (r matches Ok(v) && v == le32(
                    old(self).data().subrange(old(self).position(), old(self).position() + 4),
                )) && final(self).position() == old(self).position() + 4
            } else {
                r == Err::<u32, MapError>(MapError::UnexpectedEof)
                    && final(self).position() == old(self).position()
            },
    {
        if self.bytes.len() - self.pos < 4 {
            return Err(MapError::UnexpectedEof);
        }
        let b0 = self.bytes[self.pos];
        let b1 = self.bytes[self.pos + 1];
        let b2 = self.bytes[self.pos + 2];
        let b3 = self.bytes[self.pos + 3];
        self.pos = self.pos + 4;
        let v: u32 = b0 as u32 + 0x100 * (b1 as u32) + 0x1_0000 * (b2 as u32) + 0x100_0000 * (
        b3 as u32);
        proof {
            let s = old(self).data().subrange(old(self).position(), old(self).position() + 4);
            assert(s[0] == b0 && s[1] == b1 && s[2] == b2 && s[3] == b3);
        }
        Ok(v)
    }

    /// Reads exactly `count` raw bytes.
    pub fn read_bytes(&mut self, count: usize) -> (r: Result<Vec<u8>, MapError>)
        requires
            old(self).wf(),
        ensures
            final(self).wf(),
            final(self).data() == old(self).data(),
            if old(self).position() + count <= old(self).data().len() {
                (r matches Ok(v) && v@ == old(self).data().subrange(
                    old(self).position(),
                    old(self).position() + count,
                )) && final(self).position() == old(self).position() + count
            } else {
                r == Err::<Vec<u8>, MapError>(MapError::UnexpectedEof)
                    && final(self).position() == old(self).position()
            },
    {
        if self.bytes.len() - self.pos < count {
            return Err(MapError::UnexpectedEof);
        }
        let mut out: Vec<u8> = Vec::new();
        let mut i: usize = 0;
        while i < count
            invariant
                self.wf(),
                self == old(self),
                i <= count,
                old(self).position() + count <= old(self).data().len(),
                old(self).data().len() <= usize::MAX,
                out@ == old(self).data().subrange(
                    old(self).position(),
                    old(self).position() + i,
                ),
            decreases count - i,
        {
            out.push(self.bytes[self.pos + i]);
            i = i + 1;
            proof {
                assert(out@ =~= old(self).data().subrange(
                    old(self).position(),
                    old(self).position() + i,
                ));
            }
        }
        self.pos = self.pos + count;
        Ok(out)
    }

    /// Reads exactly `size` bytes and decodes them as text: trailing NUL
    /// padding is removed and the rest is decoded as UTF-8, with invalid
    /// text yielding the empty string rather than a failure. Removing the
    /// padding before decoding equals trimming the decoded text, since a
    /// NUL byte is exactly the NUL character in UTF-8.
    pub fn read_fixed_string(&mut self, size: usize) -> (r: Result<String, MapError>)
        requires
            old(self).wf(),
        ensures
            final(self).wf(),
            final(self).data() == old(self).data(),
            if old(self).position() + size <= old(self).data().len() {
                (r matches Ok(s) && s@ == spec_fixed_string(
                    old(self).data().subrange(old(self).position(), old(self).position() + size),
                )) && final(self).position() == old(self).position() + size
            } else {
                r == Err::<String, MapError>(MapError::UnexpectedEof)
                    && final(self).position() == old(self).position()
            },
    {
        let raw = match self.read_bytes(size) {
            Ok(v) => v,
            Err(e) => {
                return Err(e);
            },
        };
        let mut trimmed = raw;
        while trimmed.len() > 0 && trimmed[trimmed.len() - 1] == 0
            invariant
                trim_nuls(trimmed@) == trim_nuls(
                    old(self).data().subrange(old(self).position(), old(self).position() + size),
                ),
            decreases trimmed@.len(),
        {
            proof {
                assert(trimmed@.drop_last() =~= trimmed@.subrange(0, trimmed@.len() - 1));
            }
            trimmed.truncate(trimmed.len() - 1);
        }
        proof {
            assert(trim_nuls(trimmed@) == trimmed@);
        }
        match utf8_decode(trimmed) {
            Some(s) => Ok(s),
            None => Ok(String::new()),
        }
    }
}

} // verus!
