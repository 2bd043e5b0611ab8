//! The header codec: the framing prefix every box starts with, the
//! version-and-flags extended header many box bodies carry, and skipping.
//!
//! A standard header is a 4-byte big-endian size followed by a 4-byte type
//! code; the size counts the whole box, header included.  A size field of 1 is
//! the reserved escape for a 64-bit size that follows the type code; the type
//! code `uuid` is the reserved escape for a 16-byte extended type identifier
//! that follows the header.  A declared size smaller than the box's own header
//! is malformed, and so is a size field of 0 (the conventional
//! "extends to the end of the stream" form is deliberately not supported).
//!
//! Reading a header yields its size normalized to an 8-byte header: 8 plus the
//! number of body bytes after the header.  For a standard header that is the
//! declared size itself; for the escape forms the escape bytes are charged to
//! the header, so that a box always spans `start + size` bytes of stream with
//! `start` the position 8 bytes before the body.

use vstd::prelude::*;

use crate::bytes::{
    be24_at, be32_at, be64_at, byte_at, bytes_match, lemma_be24_of_u24_bytes,
    lemma_be32_of_u32_bytes, lemma_be64_of_u64_bytes, lemma_bytes_match_concat, read_u24_at,
    read_u32_at, read_u64_at, u24_bytes, u32_bytes, u64_bytes, write_u24_be, write_u32_be,
    write_u64_be,
};
use crate::error::Error;
use crate::types::{fourcc_of, spec_fourcc_of, spec_type_of, type_tag_of, BoxType, FOURCC_UUID};

verus! {

/// Byte length of a standard box header.
pub const HEADER_SIZE: u64 = 8;

/// Byte length of the version-and-flags extended header.
pub const HEADER_EXT_SIZE: u64 = 4;

/// The framing prefix of one box: its resolved type tag and its normalized
/// size (8 plus the number of body bytes that follow the header).
#[derive(Debug, Clone, Copy, PartialEq, Eq, Structural)]
pub struct BoxHeader {
    pub name: BoxType,
    pub size: u64,
}

/// The standard 8-byte header for a box of total size `size` (which must be
/// below 2^32 to be representable in this form).
pub open spec fn ser_header(t: BoxType, size: int) -> Seq<u8> {
    u32_bytes(size) + u32_bytes(spec_fourcc_of(t) as int)
}

/// The minimal-width header for a box of total size `size`: standard when the
/// size fits 32 bits, otherwise the 64-bit escape form.
pub open spec fn ser_header_any(t: BoxType, size: int) -> Seq<u8> {
    if size <= u32::MAX {
        ser_header(t, size)
    } else {
        u32_bytes(1) + u32_bytes(spec_fourcc_of(t) as int) + u64_bytes(size)
    }
}

/// The version-and-flags extended header: 1 byte of version, then the low
/// 24 bits of `flags` as 3 bytes.
pub open spec fn ser_ext(version: u8, flags: u32) -> Seq<u8> {
    seq![version] + u24_bytes(flags as int)
}

/// What reading a header at `pos` yields: the resolved tag, the normalized
/// size, and the position just past the header — or the error.
pub open spec fn parse_header(data: Seq<u8>, pos: int) -> Result<(BoxType, u64, int), Error> {
    if pos + 8 > data.len() {
        Err(Error::Truncated)
    } else {
        let size32 = be32_at(data, pos);
        let code = be32_at(data, pos + 4) as u32;
        if size32 == 1 && pos + 16 > data.len() {
            Err(Error::Truncated)
        } else {
            let declared = if size32 == 1 {
                be64_at(data, pos + 8)
            } else {
                size32
            };
            let base: int = if size32 == 1 {
                16
            } else {
                8
            };
            let hdr: int = if code == FOURCC_UUID {
                base + 16
            } else {
                base
            };
            if code == FOURCC_UUID && pos + hdr > data.len() {
                Err(Error::Truncated)
            } else if declared < hdr {
                Err(Error::Malformed)
            } else {
                Ok((spec_type_of(code), (declared - (hdr - 8)) as u64, pos + hdr))
            }
        }
    }
}

impl BoxHeader {
    /// Builds the header value for a box of the given tag and freshly
    /// computed total size.
    pub fn new(name: BoxType, size: u64) -> (h: BoxHeader)
        ensures
            h == (BoxHeader { name, size }),
    {
        BoxHeader { name, size }
    }

    /// Reads one box header at `pos`, returning the header and the position
    /// just past it.  The cursor advances by exactly the header's byte
    /// length; nothing further is consumed.
    pub fn read(data: &[u8], pos: usize) -> (r: Result<(BoxHeader, usize), Error>)
        requires
            pos <= data@.len(),
        ensures
            match r {
                Ok((h, p)) => {
                    &&& parse_header(data@, pos as int) == Ok::<_, Error>((h.name, h.size, p as int))
                    &&& pos < p <= data@.len()
                    &&& h.size >= 8
                },
                Err(e) => parse_header(data@, pos as int) == Err::<(BoxType, u64, int), _>(e),
            },
    {
        let n = data.len();
        if n - pos < 8 {
            return Err(Error::Truncated);
        }
        let size32 = read_u32_at(data, pos);
        let code = read_u32_at(data, pos + 4);
        if size32 == 1 && n - pos < 16 {
            return Err(Error::Truncated);
        }
        let declared: u64 = if size32 == 1 {
            read_u64_at(data, pos + 8)
        } else {
            size32 as u64
        };
        let base: usize = if size32 == 1 {
            16
        } else {
            8
        };
        let hdr: usize = if code == FOURCC_UUID {
            base + 16
        } else {
            base
        };
        if code == FOURCC_UUID && n - pos < hdr {
            return Err(Error::Truncated);
        }
        if declared < hdr as u64 {
            return Err(Error::Malformed);
        }
        Ok((BoxHeader { name: type_tag_of(code), size: declared - (hdr as u64 - 8) }, pos + hdr))
    }

    /// Writes this header at minimal width: the standard 8-byte form unless
    /// the size needs the 64-bit escape.  Returns the number of bytes
    /// written.
    pub fn write(&self, out: &mut Vec<u8>) -> (r: Result<u64, Error>)
        ensures
            final(out)@ == old(out)@ + ser_header_any(self.name, self.size as int),
            r == Ok::<_, Error>(
                if self.size <= u32::MAX {
                    8u64
                } else {
                    16u64
                },
            ),
    {
        if self.size <= u32::MAX as u64 {
            write_u32_be(out, self.size as u32);
            write_u32_be(out, fourcc_of(self.name));
            proof {
                assert(final(out)@ =~= old(out)@ + ser_header_any(self.name, self.size as int));
            }
            Ok(8)
        } else {
            write_u32_be(out, 1);
            write_u32_be(out, fourcc_of(self.name));
            write_u64_be(out, self.size);
            proof {
                assert(final(out)@ =~= old(out)@ + ser_header_any(self.name, self.size as int));
            }
            Ok(16)
        }
    }
}

/// Reads the version-and-flags extended header at `pos`: 1 byte of version,
/// then 3 bytes packed into the low 24 bits of a `u32`.
pub fn read_box_header_ext(data: &[u8], pos: usize) -> (r: Result<((u8, u32), usize), Error>)
    requires
        pos <= data@.len(),
    ensures
        match r {
            Ok(((version, flags), p)) => {
                &&& pos + 4 <= data@.len()
                &&& version == data@[pos as int]
                &&& flags == be24_at(data@, pos + 1)
                &&& flags < 0x1000000
                &&& p == pos + 4
            },
            Err(e) => pos + 4 > data@.len() && e == Error::Truncated,
        },
{
    let n = data.len();
    if n - pos < 4 {
        return Err(Error::Truncated);
    }
    let version = byte_at(data, pos);
    let flags = read_u24_at(data, pos + 1);
    Ok(((version, flags), pos + 4))
}

/// Writes the version-and-flags extended header: the version byte, then the
/// low 24 bits of `flags`.
pub fn write_box_header_ext(out: &mut Vec<u8>, version: u8, flags: u32)
    ensures
        final(out)@ == old(out)@ + ser_ext(version, flags),
{
    out.push(version);
    write_u24_be(out, flags);
    proof {
        assert(final(out)@ =~= old(out)@ + ser_ext(version, flags));
    }
}

/// Advances past the body of a box whose header ended at `pos` and whose
/// normalized size is `size`: the resulting position is `pos - 8 + size`,
/// the declared end of the box.  Fails if that end lies beyond the stream.
pub fn skip_box(data: &[u8], pos: usize, size: u64) -> (r: Result<usize, Error>)
    requires
        8 <= pos <= data@.len(),
        8 <= size,
    ensures
        match r {
            Ok(p) => pos - 8 + size <= data@.len() && p == pos - 8 + size,
            Err(e) => pos - 8 + size > data@.len() && e == Error::Truncated,
        },
{
    let n = data.len();
    if size - 8 > (n - pos) as u64 {
        return Err(Error::Truncated);
    }
    Ok(pos + (size - 8) as usize)
}

/// Reading back a standard header written for a registered tag (or an unknown
/// tag whose code stays outside the registered set and off the escape codes)
/// yields the same tag, the same size, and the position just past the 8
/// header bytes.
pub proof fn lemma_parse_header_of_ser(data: Seq<u8>, pos: int, t: BoxType, size: int)
    requires
        8 <= size <= u32::MAX,
        spec_type_of(spec_fourcc_of(t)) == t,
        spec_fourcc_of(t) != FOURCC_UUID,
        bytes_match(data, pos, ser_header(t, size)),
    ensures
        parse_header(data, pos) == Ok::<_, Error>((t, size as u64, pos + 8)),
{
    lemma_bytes_match_concat(data, pos, u32_bytes(size), u32_bytes(spec_fourcc_of(t) as int));
    lemma_be32_of_u32_bytes(data, pos, size);
    lemma_be32_of_u32_bytes(data, pos + 4, spec_fourcc_of(t) as int);
}

/// The same, for the 64-bit escape form: the 8 escape bytes are charged to
/// the header, so the normalized size comes back as `size - 8`.
pub proof fn lemma_parse_header_of_ser_ext(data: Seq<u8>, pos: int, t: BoxType, size: int)
    requires
        u32::MAX < size <= u64::MAX,
        spec_type_of(spec_fourcc_of(t)) == t,
        spec_fourcc_of(t) != FOURCC_UUID,
        bytes_match(data, pos, ser_header_any(t, size)),
    ensures
        parse_header(data, pos) == Ok::<_, Error>((t, (size - 8) as u64, pos + 16)),
{
    lemma_bytes_match_concat(
        data,
        pos,
        u32_bytes(1) + u32_bytes(spec_fourcc_of(t) as int),
        u64_bytes(size),
    );
    lemma_bytes_match_concat(data, pos, u32_bytes(1), u32_bytes(spec_fourcc_of(t) as int));
    lemma_be32_of_u32_bytes(data, pos, 1);
    lemma_be32_of_u32_bytes(data, pos + 4, spec_fourcc_of(t) as int);
    lemma_be64_of_u64_bytes(data, pos + 8, size);
}

/// Reading back a written version-and-flags extended header yields the same
/// version and flags, provided the flags fit their 24 bits.
pub proof fn lemma_read_ext_of_ser(data: Seq<u8>, pos: int, version: u8, flags: u32)
    requires
        flags < 0x1000000,
        bytes_match(data, pos, ser_ext(version, flags)),
    ensures
        data[pos] == version,
        be24_at(data, pos + 1) == flags,
{
    lemma_bytes_match_concat(data, pos, seq![version], u24_bytes(flags as int));
    lemma_be24_of_u24_bytes(data, pos + 1, flags as int);
    assert(data[pos] == seq![version][0]);
}

} // verus!
