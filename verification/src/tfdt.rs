//! The decode-time-offset box: a versioned fixed-record leaf.  The version
//! discriminant in its extended header selects the on-wire width of its one
//! field — 8 bytes when the version is 1, else 4 bytes — and decoding forces
//! the cursor to the declared end, tolerating trailing padding some
//! producers emit.

use vstd::prelude::*;

use crate::bytes::{be24_at, be32_at, be64_at, bytes_match, lemma_be32_of_u32_bytes,
    lemma_be64_of_u64_bytes, lemma_bytes_match_concat, read_u32_at, read_u64_at, u32_bytes,
    u64_bytes, write_u32_be, write_u64_be};
use crate::error::Error;
use crate::header::{
    lemma_parse_header_of_ser, lemma_read_ext_of_ser, parse_header, read_box_header_ext,
    ser_ext, ser_header, write_box_header_ext, BoxHeader, HEADER_EXT_SIZE, HEADER_SIZE,
};
use crate::types::BoxType;

verus! {

/// A decode-time-offset box.
#[derive(Debug, Clone, Copy, PartialEq, Eq)]
pub struct TfdtBox {
    /// Selects the field width: 8 bytes when 1, else 4.
    pub version: u8,
    /// Only the low 24 bits are representable on the wire; opaque to this
    /// layer and passed through unchanged.
    pub flags: u32,
    pub base_media_decode_time: u64,
}

/// The mathematical value of a [`TfdtBox`].
pub ghost struct TfdtView {
    pub version: u8,
    pub flags: u32,
    pub base_media_decode_time: u64,
}

impl View for TfdtBox {
    type V = TfdtView;

    open spec fn view(&self) -> TfdtView {
        TfdtView {
            version: self.version,
            flags: self.flags,
            base_media_decode_time: self.base_media_decode_time,
        }
    }
}

impl Default for TfdtBox {
    /// Version 0, no flags, decode time 0.
    fn default() -> (b: TfdtBox)
        ensures
            b@ == (TfdtView { version: 0, flags: 0, base_media_decode_time: 0 }),
    {
        TfdtBox { version: 0, flags: 0, base_media_decode_time: 0 }
    }
}

impl TfdtView {
    /// Header, extended header, and one field whose width the version picks.
    pub open spec fn spec_size(self) -> int {
        12 + if self.version == 1 {
            8int
        } else {
            4int
        }
    }

    /// The flags fit their 24 wire bits, and the decode time fits the width
    /// its version dictates.
    pub open spec fn wf(self) -> bool {
        &&& self.flags < 0x1000000
        &&& (self.version == 1 || self.base_media_decode_time <= u32::MAX)
    }

    /// The box's full encoding.
    pub open spec fn ser(self) -> Seq<u8> {
        ser_header(BoxType::TfdtBox, self.spec_size()) + ser_ext(self.version, self.flags) + (
        if self.version == 1 {
            u64_bytes(self.base_media_decode_time as int)
        } else {
            u32_bytes(self.base_media_decode_time as int)
        })
    }
}

/// What decoding a decode-time-offset box body yields: the extended header,
/// then the field at the version's width (zero-extended when 4 bytes wide),
/// the cursor forced to the declared end regardless of residual bytes.
pub open spec fn parse_tfdt(data: Seq<u8>, pos: int, size: int) -> Result<TfdtView, Error> {
    let end = pos - 8 + size;
    if end > data.len() {
        Err(Error::Truncated)
    } else if pos + 4 > data.len() {
        Err(Error::Truncated)
    } else {
        let version = data[pos];
        let flags = be24_at(data, pos + 1) as u32;
        if version == 1 {
            if pos + 12 > data.len() {
                Err(Error::Truncated)
            } else {
                Ok(
                    TfdtView {
                        version,
                        flags,
                        base_media_decode_time: be64_at(data, pos + 4) as u64,
                    },
                )
            }
        } else {
            if pos + 8 > data.len() {
                Err(Error::Truncated)
            } else {
                Ok(
                    TfdtView {
                        version,
                        flags,
                        base_media_decode_time: be32_at(data, pos + 4) as u64,
                    },
                )
            }
        }
    }
}

impl TfdtBox {
    /// This box's type tag.
    pub fn get_type(&self) -> (t: BoxType)
        ensures
            t == BoxType::TfdtBox,
    {
        BoxType::TfdtBox
    }

    /// This box's total encoded size, depending on the version's field
    /// width.
    pub fn get_size(&self) -> (s: u64)
        ensures
            s == self@.spec_size(),
    {
        let mut size = HEADER_SIZE + HEADER_EXT_SIZE;
        size += match self.version {
            1 => 8,
            _ => 4,
        };
        size
    }

    /// This box's type tag.
    pub fn box_type(&self) -> (t: BoxType)
        ensures
            t == BoxType::TfdtBox,
    {
        self.get_type()
    }

    /// This box's total encoded size.
    pub fn box_size(&self) -> (s: u64)
        ensures
            s == self@.spec_size(),
    {
        self.get_size()
    }

    /// A short human-readable line about this box.
    pub fn summary(&self) -> (r: Result<String, Error>)
        ensures
            r matches Ok(s) && s@ == Seq::<char>::empty(),
    {
        Ok(String::new())
    }

    /// Decodes a decode-time-offset box body; the cursor stands just past
    /// the header and is left at the declared end.
    pub fn read_box(data: &[u8], pos: usize, size: u64) -> (r: Result<(TfdtBox, usize), Error>)
        requires
            8 <= pos <= data@.len(),
            8 <= size,
        ensures
            match r {
                Ok((b, p)) => {
                    &&& parse_tfdt(data@, pos as int, size as int) == Ok::<TfdtView, Error>(b@)
                    &&& b@.wf()
                    &&& p == pos - 8 + size
                    &&& p <= data@.len()
                },
                Err(e) => parse_tfdt(data@, pos as int, size as int) == Err::<TfdtView, Error>(e),
            },
    {
        let n = data.len();
        if size - 8 > (n - pos) as u64 {
            return Err(Error::Truncated);
        }
        let end = pos + (size - 8) as usize;
        let ((version, flags), cur) = read_box_header_ext(data, pos)?;
        let base_media_decode_time: u64 = if version == 1 {
            if n - cur < 8 {
                return Err(Error::Truncated);
            }
            read_u64_at(data, cur)
        } else {
            if n - cur < 4 {
                return Err(Error::Truncated);
            }
            read_u32_at(data, cur) as u64
        };
        Ok((TfdtBox { version, flags, base_media_decode_time }, end))
    }

    /// Encodes this box: header, extended header, then the field at the
    /// width its version dictates.  Returns the number of bytes written,
    /// which equals the box's computed size.
    pub fn write_box(&self, out: &mut Vec<u8>) -> (r: Result<u64, Error>)
        requires
            self@.wf(),
        ensures
            final(out)@ == old(out)@ + self@.ser(),
            final(out)@.len() == old(out)@.len() + self@.spec_size(),
            r == Ok::<u64, Error>(self@.spec_size() as u64),
    {
        let size = self.box_size();
        let header = BoxHeader::new(self.get_type(), size);
        let _ = header.write(out)?;
        write_box_header_ext(out, self.version, self.flags);
        match self.version {
            1 => write_u64_be(out, self.base_media_decode_time),
            _ => write_u32_be(out, self.base_media_decode_time as u32),
        };
        proof {
            assert(final(out)@ =~= old(out)@ + self@.ser());
        }
        Ok(size)
    }
}

/// Round trip for the decode-time-offset box: decoding its own encoding
/// yields the header it was written with and the same value.
pub proof fn lemma_round_trip_tfdt(data: Seq<u8>, pos: int, v: TfdtView)
    requires
        v.wf(),
        bytes_match(data, pos, v.ser()),
    ensures
        parse_header(data, pos) == Ok::<_, Error>((
            BoxType::TfdtBox,
            v.spec_size() as u64,
            pos + 8,
        )),
        parse_tfdt(data, pos + 8, v.spec_size()) == Ok::<TfdtView, Error>(v),
{
    let hdr = ser_header(BoxType::TfdtBox, v.spec_size());
    let ext = ser_ext(v.version, v.flags);
    let fld = if v.version == 1 {
        u64_bytes(v.base_media_decode_time as int)
    } else {
        u32_bytes(v.base_media_decode_time as int)
    };
    lemma_bytes_match_concat(data, pos, hdr + ext, fld);
    lemma_bytes_match_concat(data, pos, hdr, ext);
    lemma_parse_header_of_ser(data, pos, BoxType::TfdtBox, v.spec_size());
    lemma_read_ext_of_ser(data, pos + 8, v.version, v.flags);
    if v.version == 1 {
        lemma_be64_of_u64_bytes(data, pos + 12, v.base_media_decode_time as int);
    } else {
        lemma_be32_of_u32_bytes(data, pos + 12, v.base_media_decode_time as int);
    }
}

} // verus!
