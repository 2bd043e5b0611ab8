//! The movie-fragment-header box: the mandatory child of the outer fragment
//! container, carrying an incrementing fragment sequence number behind a
//! version-and-flags extended header.

use vstd::prelude::*;

use crate::bytes::{be24_at, be32_at, bytes_match, lemma_be32_of_u32_bytes,
    lemma_bytes_match_concat, read_u32_at, u32_bytes, write_u32_be};
use crate::error::Error;
use crate::header::{
    lemma_parse_header_of_ser, lemma_read_ext_of_ser, parse_header, read_box_header_ext,
    ser_ext, ser_header, write_box_header_ext, BoxHeader, HEADER_EXT_SIZE, HEADER_SIZE,
};
use crate::types::BoxType;

verus! {

/// A movie-fragment-header box.
#[derive(Debug, Clone, Copy, PartialEq, Eq)]
pub struct MfhdBox {
    pub version: u8,
    /// Only the low 24 bits are representable on the wire.
    pub flags: u32,
    pub sequence_number: u32,
}

/// The mathematical value of an [`MfhdBox`].
pub ghost struct MfhdView {
    pub version: u8,
    pub flags: u32,
    pub sequence_number: u32,
}

impl View for MfhdBox {
    type V = MfhdView;

    open spec fn view(&self) -> MfhdView {
        MfhdView {
            version: self.version,
            flags: self.flags,
            sequence_number: self.sequence_number,
        }
    }
}

impl Default for MfhdBox {
    /// Version 0, no flags, sequence number 0.
    fn default() -> (b: MfhdBox)
        ensures
            b@ == (MfhdView { version: 0, flags: 0, sequence_number: 0 }),
    {
        MfhdBox { version: 0, flags: 0, sequence_number: 0 }
    }
}

impl MfhdView {
    /// Header, extended header, and one 4-byte field.
    pub open spec fn spec_size(self) -> int {
        16
    }

    /// The flags fit their 24 wire bits.
    pub open spec fn wf(self) -> bool {
        self.flags < 0x1000000
    }

    /// The box's full encoding.
    pub open spec fn ser(self) -> Seq<u8> {
        ser_header(BoxType::MfhdBox, self.spec_size()) + ser_ext(self.version, self.flags)
            + u32_bytes(self.sequence_number as int)
    }
}

/// What decoding a movie-fragment-header box body yields: the extended
/// header, then the 4-byte sequence number, the cursor forced to the declared
/// end.
pub open spec fn parse_mfhd(data: Seq<u8>, pos: int, size: int) -> Result<MfhdView, Error> {
    let end = pos - 8 + size;
    if end > data.len() {
        Err(Error::Truncated)
    } else if pos + 4 > data.len() {
        Err(Error::Truncated)
    } else if pos + 8 > data.len() {
        Err(Error::Truncated)
    } else {
        Ok(
            MfhdView {
                version: data[pos],
                flags: be24_at(data, pos + 1) as u32,
                sequence_number: be32_at(data, pos + 4) as u32,
            },
        )
    }
}

impl MfhdBox {
    /// This box's type tag.
    pub fn get_type(&self) -> (t: BoxType)
        ensures
            t == BoxType::MfhdBox,
    {
        BoxType::MfhdBox
    }

    /// This box's total encoded size.
    pub fn get_size(&self) -> (s: u64)
        ensures
            s == self@.spec_size(),
    {
        HEADER_SIZE + HEADER_EXT_SIZE + 4
    }

    /// This box's type tag.
    pub fn box_type(&self) -> (t: BoxType)
        ensures
            t == BoxType::MfhdBox,
    {
        self.get_type()
    }

    /// This box's total encoded size.
    pub fn box_size(&self) -> (s: u64)
        ensures
            s == self@.spec_size(),
    {
        self.get_size()
    }

    /// A short human-readable line about this box.
    pub fn summary(&self) -> (r: Result<String, Error>)
        ensures
            r matches Ok(s) && s@ == Seq::<char>::empty(),
    {
        Ok(String::new())
    }

    /// Decodes a movie-fragment-header box body; the cursor stands just past
    /// the header and is left at the declared end.
    pub fn read_box(data: &[u8], pos: usize, size: u64) -> (r: Result<(MfhdBox, usize), Error>)
        requires
            8 <= pos <= data@.len(),
            8 <= size,
        ensures
            match r {
                Ok((b, p)) => {
                    &&& parse_mfhd(data@, pos as int, size as int) == Ok::<MfhdView, Error>(b@)
                    &&& b@.wf()
                    &&& p == pos - 8 + size
                    &&& p <= data@.len()
                },
                Err(e) => parse_mfhd(data@, pos as int, size as int) == Err::<MfhdView, Error>(e),
            },
    {
        let n = data.len();
        if size - 8 > (n - pos) as u64 {
            return Err(Error::Truncated);
        }
        let end = pos + (size - 8) as usize;
        let ((version, flags), cur) = read_box_header_ext(data, pos)?;
        if n - cur < 4 {
            return Err(Error::Truncated);
        }
        let sequence_number = read_u32_at(data, cur);
        Ok((MfhdBox { version, flags, sequence_number }, end))
    }

    /// Encodes this box: header, extended header, sequence number.  Returns
    /// the number of bytes written, which equals the box's computed size.
    pub fn write_box(&self, out: &mut Vec<u8>) -> (r: Result<u64, Error>)
        requires
            self@.wf(),
        ensures
            final(out)@ == old(out)@ + self@.ser(),
            final(out)@.len() == old(out)@.len() + self@.spec_size(),
            r == Ok::<u64, Error>(self@.spec_size() as u64),
    {
        let size = self.box_size();
        let header = BoxHeader::new(self.get_type(), size);
        let _ = header.write(out)?;
        write_box_header_ext(out, self.version, self.flags);
        write_u32_be(out, self.sequence_number);
        proof {
            assert(final(out)@ =~= old(out)@ + self@.ser());
        }
        Ok(size)
    }
}

/// Round trip for the movie-fragment-header box: decoding its own encoding
/// yields the header it was written with and the same value.
pub proof fn lemma_round_trip_mfhd(data: Seq<u8>, pos: int, v: MfhdView)
    requires
        v.wf(),
        bytes_match(data, pos, v.ser()),
    ensures
        parse_header(data, pos) == Ok::<_, Error>((
            BoxType::MfhdBox,
            v.spec_size() as u64,
            pos + 8,
        )),
        parse_mfhd(data, pos + 8, v.spec_size()) == Ok::<MfhdView, Error>(v),
{
    let hdr = ser_header(BoxType::MfhdBox, v.spec_size());
    let ext = ser_ext(v.version, v.flags);
    let fld = u32_bytes(v.sequence_number as int);
    lemma_bytes_match_concat(data, pos, hdr + ext, fld);
    lemma_bytes_match_concat(data, pos, hdr, ext);
    lemma_parse_header_of_ser(data, pos, BoxType::MfhdBox, v.spec_size());
    lemma_read_ext_of_ser(data, pos + 8, v.version, v.flags);
    lemma_be32_of_u32_bytes(data, pos + 12, v.sequence_number as int);
}

} // verus!
