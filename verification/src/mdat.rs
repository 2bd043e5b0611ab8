//! The media-data box: an opaque-payload leaf that owns an arbitrary-length
//! byte buffer.  Its body is the buffer verbatim; its size is the header
//! length plus the buffer length, with no slack or padding.

use vstd::prelude::*;

use crate::bytes::{byte_at, bytes_match, lemma_bytes_match_concat};
use crate::error::Error;
use crate::header::{lemma_parse_header_of_ser, parse_header, ser_header, BoxHeader, HEADER_SIZE};
use crate::types::BoxType;

verus! {

/// An opaque-payload box holding raw bytes.
#[derive(Debug, Clone, PartialEq)]
pub struct MdatBox {
    pub data: Vec<u8>,
}

/// The mathematical value of an [`MdatBox`]: its payload as a sequence.
pub ghost struct MdatView {
    pub data: Seq<u8>,
}

impl View for MdatBox {
    type V = MdatView;

    open spec fn view(&self) -> MdatView {
        MdatView { data: self.data@ }
    }
}

impl Default for MdatBox {
    /// An empty payload.
    fn default() -> (b: MdatBox)
        ensures
            b@.data == Seq::<u8>::empty(),
    {
        MdatBox { data: Vec::new() }
    }
}

impl MdatView {
    /// The box's total encoded size: header plus payload.
    pub open spec fn spec_size(self) -> int {
        8 + self.data.len() as int
    }

    /// A value this codec can re-encode with a standard header: its total
    /// size fits 32 bits.
    pub open spec fn wf(self) -> bool {
        self.spec_size() <= u32::MAX
    }

    /// The box's full encoding: standard header, then the payload verbatim.
    pub open spec fn ser(self) -> Seq<u8> {
        ser_header(BoxType::MdatBox, self.spec_size()) + self.data
    }
}

/// What decoding a media-data box body at `pos` with normalized size `size`
/// yields: exactly `size - 8` raw bytes, or a truncation error if the stream
/// holds fewer.
pub open spec fn parse_mdat(data: Seq<u8>, pos: int, size: int) -> Result<MdatView, Error> {
    let end = pos - 8 + size;
    if end > data.len() {
        Err(Error::Truncated)
    } else {
        Ok(MdatView { data: data.subrange(pos, end) })
    }
}

impl MdatBox {
    /// This box's type tag.
    pub fn get_type(&self) -> (t: BoxType)
        ensures
            t == BoxType::MdatBox,
    {
        BoxType::MdatBox
    }

    /// This box's total encoded size, recomputed from the current payload.
    pub fn get_size(&self) -> (s: u64)
        requires
            self@.wf(),
        ensures
            s == self@.spec_size(),
    {
        HEADER_SIZE + self.data.len() as u64
    }

    /// This box's type tag.
    pub fn box_type(&self) -> (t: BoxType)
        ensures
            t == BoxType::MdatBox,
    {
        self.get_type()
    }

    /// This box's total encoded size.
    pub fn box_size(&self) -> (s: u64)
        requires
            self@.wf(),
        ensures
            s == self@.spec_size(),
    {
        self.get_size()
    }

    /// A short human-readable line about this box; the payload itself is
    /// deliberately not described.
    pub fn summary(&self) -> (r: Result<String, Error>)
        ensures
            r matches Ok(s) && s@ == Seq::<char>::empty(),
    {
        Ok(String::new())
    }

    /// Decodes a media-data box body: the cursor stands just past the header
    /// and `size` is the header's normalized size.  Reads exactly `size - 8`
    /// bytes and leaves the cursor at the declared end.
    pub fn read_box(data: &[u8], pos: usize, size: u64) -> (r: Result<(MdatBox, usize), Error>)
        requires
            8 <= pos <= data@.len(),
            8 <= size,
        ensures
            match r {
                Ok((b, p)) => {
                    &&& parse_mdat(data@, pos as int, size as int) == Ok::<MdatView, Error>(b@)
                    &&& p == pos - 8 + size
                    &&& p <= data@.len()
                },
                Err(e) => parse_mdat(data@, pos as int, size as int) == Err::<MdatView, Error>(e),
            },
    {
        let n = data.len();
        if size - 8 > (n - pos) as u64 {
            return Err(Error::Truncated);
        }
        let m = (size - 8) as usize;
        let mut payload: Vec<u8> = Vec::new();
        let mut i: usize = 0;
        while i < m
            invariant
                i <= m,
                pos + m <= data@.len(),
                data@.len() <= usize::MAX,
                payload@ == data@.subrange(pos as int, pos + i),
            decreases m - i,
        {
            payload.push(byte_at(data, pos + i));
            i = i + 1;
            proof {
                assert(payload@ =~= data@.subrange(pos as int, pos + i));
            }
        }
        Ok((MdatBox { data: payload }, pos + m))
    }

    /// Encodes this box: header, then the payload verbatim.  Returns the
    /// number of bytes written, which equals the box's computed size.
    pub fn write_box(&self, out: &mut Vec<u8>) -> (r: Result<u64, Error>)
        requires
            self@.wf(),
        ensures
            final(out)@ == old(out)@ + self@.ser(),
            final(out)@.len() == old(out)@.len() + self@.spec_size(),
            r == Ok::<u64, Error>(self@.spec_size() as u64),
    {
        let size = self.box_size();
        let header = BoxHeader::new(self.get_type(), size);
        let _ = header.write(out)?;
        let mut i: usize = 0;
        let ghost mid = out@;
        let m = self.data.len();
        while i < m
            invariant
                i <= m,
                m == self.data@.len(),
                out@ == mid + self.data@.subrange(0, i as int),
            decreases m - i,
        {
            let b = self.data[i];
            out.push(b);
            i = i + 1;
            proof {
                assert(out@ =~= mid + self.data@.subrange(0, i as int));
            }
        }
        proof {
            assert(self.data@.subrange(0, self.data@.len() as int) =~= self.data@);
            assert(final(out)@ =~= old(out)@ + self@.ser());
        }
        Ok(size)
    }
}

/// Round trip for the media-data box: decoding its own encoding at any
/// position yields the header it was written with and the same value.
pub proof fn lemma_round_trip_mdat(data: Seq<u8>, pos: int, v: MdatView)
    requires
        v.wf(),
        bytes_match(data, pos, v.ser()),
    ensures
        parse_header(data, pos) == Ok::<_, Error>((
            BoxType::MdatBox,
            v.spec_size() as u64,
            pos + 8,
        )),
        parse_mdat(data, pos + 8, v.spec_size()) == Ok::<MdatView, Error>(v),
{
    lemma_bytes_match_concat(data, pos, ser_header(BoxType::MdatBox, v.spec_size()), v.data);
    lemma_parse_header_of_ser(data, pos, BoxType::MdatBox, v.spec_size());
    assert(data.subrange(pos + 8, pos + 8 - 8 + v.spec_size()) =~= v.data);
}

} // verus!
