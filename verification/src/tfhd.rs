//! The track-fragment-header box: the mandatory child of the inner fragment
//! container.  It carries a track identifier and a base data offset behind a
//! version-and-flags extended header; the flag bit layout governs how sample
//! offsets are interpreted elsewhere, so this layer treats the record as
//! opaque fixed fields and passes them through unchanged.

use vstd::prelude::*;

use crate::bytes::{be24_at, be32_at, be64_at, bytes_match, lemma_be32_of_u32_bytes,
    lemma_be64_of_u64_bytes, lemma_bytes_match_concat, read_u32_at, read_u64_at, u32_bytes,
    u64_bytes, write_u32_be, write_u64_be};
use crate::error::Error;
use crate::header::{
    lemma_parse_header_of_ser, lemma_read_ext_of_ser, parse_header, read_box_header_ext,
    ser_ext, ser_header, write_box_header_ext, BoxHeader, HEADER_EXT_SIZE, HEADER_SIZE,
};
use crate::types::BoxType;

verus! {

/// A track-fragment-header box.
#[derive(Debug, Clone, Copy, PartialEq, Eq)]
pub struct TfhdBox {
    pub version: u8,
    /// Only the low 24 bits are representable on the wire; opaque to this
    /// layer and passed through unchanged.
    pub flags: u32,
    pub track_id: u32,
    pub base_data_offset: u64,
}

/// The mathematical value of a [`TfhdBox`].
pub ghost struct TfhdView {
    pub version: u8,
    pub flags: u32,
    pub track_id: u32,
    pub base_data_offset: u64,
}

impl View for TfhdBox {
    type V = TfhdView;

    open spec fn view(&self) -> TfhdView {
        TfhdView {
            version: self.version,
            flags: self.flags,
            track_id: self.track_id,
            base_data_offset: self.base_data_offset,
        }
    }
}

impl Default for TfhdBox {
    /// Version 0, no flags, track 0, offset 0.
    fn default() -> (b: TfhdBox)
        ensures
            b@ == (TfhdView { version: 0, flags: 0, track_id: 0, base_data_offset: 0 }),
    {
        TfhdBox { version: 0, flags: 0, track_id: 0, base_data_offset: 0 }
    }
}

impl TfhdView {
    /// Header, extended header, 4-byte track id, 8-byte base data offset.
    pub open spec fn spec_size(self) -> int {
        24
    }

    /// The flags fit their 24 wire bits.
    pub open spec fn wf(self) -> bool {
        self.flags < 0x1000000
    }

    /// The box's full encoding.
    pub open spec fn ser(self) -> Seq<u8> {
        ser_header(BoxType::TfhdBox, self.spec_size()) + ser_ext(self.version, self.flags)
            + u32_bytes(self.track_id as int) + u64_bytes(self.base_data_offset as int)
    }
}

/// What decoding a track-fragment-header box body yields: the extended
/// header, the track id, and the base data offset, the cursor forced to the
/// declared end.
pub open spec fn parse_tfhd(data: Seq<u8>, pos: int, size: int) -> Result<TfhdView, Error> {
    let end = pos - 8 + size;
    if end > data.len() {
        Err(Error::Truncated)
    } else if pos + 4 > data.len() {
        Err(Error::Truncated)
    } else if pos + 16 > data.len() {
        Err(Error::Truncated)
    } else {
        Ok(
            TfhdView {
                version: data[pos],
                flags: be24_at(data, pos + 1) as u32,
                track_id: be32_at(data, pos + 4) as u32,
                base_data_offset: be64_at(data, pos + 8) as u64,
            },
        )
    }
}

impl TfhdBox {
    /// This box's type tag.
    pub fn get_type(&self) -> (t: BoxType)
        ensures
            t == BoxType::TfhdBox,
    {
        BoxType::TfhdBox
    }

    /// This box's total encoded size.
    pub fn get_size(&self) -> (s: u64)
        ensures
            s == self@.spec_size(),
    {
        HEADER_SIZE + HEADER_EXT_SIZE + 4 + 8
    }

    /// This box's type tag.
    pub fn box_type(&self) -> (t: BoxType)
        ensures
            t == BoxType::TfhdBox,
    {
        self.get_type()
    }

    /// This box's total encoded size.
    pub fn box_size(&self) -> (s: u64)
        ensures
            s == self@.spec_size(),
    {
        self.get_size()
    }

    /// A short human-readable line about this box.
    pub fn summary(&self) -> (r: Result<String, Error>)
        ensures
            r matches Ok(s) && s@ == Seq::<char>::empty(),
    {
        Ok(String::new())
    }

    /// Decodes a track-fragment-header box body; the cursor stands just past
    /// the header and is left at the declared end.
    pub fn read_box(data: &[u8], pos: usize, size: u64) -> (r: Result<(TfhdBox, usize), Error>)
        requires
            8 <= pos <= data@.len(),
            8 <= size,
        ensures
            match r {
                Ok((b, p)) => {
                    &&& parse_tfhd(data@, pos as int, size as int) == Ok::<TfhdView, Error>(b@)
                    &&& b@.wf()
                    &&& p == pos - 8 + size
                    &&& p <= data@.len()
                },
                Err(e) => parse_tfhd(data@, pos as int, size as int) == Err::<TfhdView, Error>(e),
            },
    {
        let n = data.len();
        if size - 8 > (n - pos) as u64 {
            return Err(Error::Truncated);
        }
        let end = pos + (size - 8) as usize;
        let ((version, flags), cur) = read_box_header_ext(data, pos)?;
        if n - cur < 12 {
            return Err(Error::Truncated);
        }
        let track_id = read_u32_at(data, cur);
        let base_data_offset = read_u64_at(data, cur + 4);
        Ok((TfhdBox { version, flags, track_id, base_data_offset }, end))
    }

    /// Encodes this box: header, extended header, track id, base data
    /// offset.  Returns the number of bytes written, which equals the box's
    /// computed size.
    pub fn write_box(&self, out: &mut Vec<u8>) -> (r: Result<u64, Error>)
        requires
            self@.wf(),
        ensures
            final(out)@ == old(out)@ + self@.ser(),
            final(out)@.len() == old(out)@.len() + self@.spec_size(),
            r == Ok::<u64, Error>(self@.spec_size() as u64),
    {
        let size = self.box_size();
        let header = BoxHeader::new(self.get_type(), size);
        let _ = header.write(out)?;
        write_box_header_ext(out, self.version, self.flags);
        write_u32_be(out, self.track_id);
        write_u64_be(out, self.base_data_offset);
        proof {
            assert(final(out)@ =~= old(out)@ + self@.ser());
        }
        Ok(size)
    }
}

/// Round trip for the track-fragment-header box: decoding its own encoding
/// yields the header it was written with and the same value.
pub proof fn lemma_round_trip_tfhd(data: Seq<u8>, pos: int, v: TfhdView)
    requires
        v.wf(),
        bytes_match(data, pos, v.ser()),
    ensures
        parse_header(data, pos) == Ok::<_, Error>((
            BoxType::TfhdBox,
            v.spec_size() as u64,
            pos + 8,
        )),
        parse_tfhd(data, pos + 8, v.spec_size()) == Ok::<TfhdView, Error>(v),
{
    let hdr = ser_header(BoxType::TfhdBox, v.spec_size());
    let ext = ser_ext(v.version, v.flags);
    let tid = u32_bytes(v.track_id as int);
    let off = u64_bytes(v.base_data_offset as int);
    lemma_bytes_match_concat(data, pos, hdr + ext + tid, off);
    lemma_bytes_match_concat(data, pos, hdr + ext, tid);
    lemma_bytes_match_concat(data, pos, hdr, ext);
    lemma_parse_header_of_ser(data, pos, BoxType::TfhdBox, v.spec_size());
    lemma_read_ext_of_ser(data, pos + 8, v.version, v.flags);
    lemma_be32_of_u32_bytes(data, pos + 12, v.track_id as int);
    lemma_be64_of_u64_bytes(data, pos + 16, v.base_data_offset as int);
}

} // verus!
