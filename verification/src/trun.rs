//! The sample-run-table box: a leaf describing a run of samples.  Its flag
//! bits select which fields are present on the wire: an optional data
//! offset, an optional first-sample flags word, and one 4-byte table entry
//! per sample for each per-sample flag that is set.

use vstd::prelude::*;

use crate::bytes::{be24_at, be32_at, bytes_match, lemma_be32_of_u32_bytes,
    lemma_bytes_match_concat, read_u32_at, u32_bytes, write_u32_be};
use crate::error::Error;
use crate::header::{
    lemma_parse_header_of_ser, lemma_read_ext_of_ser, parse_header, read_box_header_ext,
    ser_ext, ser_header, write_box_header_ext, BoxHeader,
};
use crate::types::BoxType;

verus! {

/// Presence bit for the data offset field.
pub const TRUN_FLAG_DATA_OFFSET: u32 = 0x000001;

/// Presence bit for the first-sample flags field.
pub const TRUN_FLAG_FIRST_SAMPLE_FLAGS: u32 = 0x000004;

/// Presence bit for the per-sample duration table.
pub const TRUN_FLAG_SAMPLE_DURATION: u32 = 0x000100;

/// Presence bit for the per-sample size table.
pub const TRUN_FLAG_SAMPLE_SIZE: u32 = 0x000200;

/// Presence bit for the per-sample flags table.
pub const TRUN_FLAG_SAMPLE_FLAGS: u32 = 0x000400;

/// Presence bit for the per-sample composition-offset table.
pub const TRUN_FLAG_SAMPLE_CTS: u32 = 0x000800;

/// A sample-run-table box.
#[derive(Debug, Clone, PartialEq)]
pub struct TrunBox {
    pub version: u8,
    /// Only the low 24 bits are representable on the wire; the presence
    /// bits above govern which fields follow the sample count.
    pub flags: u32,
    pub sample_count: u32,
    pub data_offset: Option<i32>,
    pub first_sample_flags: Option<u32>,
    pub sample_durations: Vec<u32>,
    pub sample_sizes: Vec<u32>,
    pub sample_flags: Vec<u32>,
    pub sample_cts: Vec<u32>,
}

impl TrunBox {
    pub const FLAG_DATA_OFFSET: u32 = TRUN_FLAG_DATA_OFFSET;

    pub const FLAG_FIRST_SAMPLE_FLAGS: u32 = TRUN_FLAG_FIRST_SAMPLE_FLAGS;

    pub const FLAG_SAMPLE_DURATION: u32 = TRUN_FLAG_SAMPLE_DURATION;

    pub const FLAG_SAMPLE_SIZE: u32 = TRUN_FLAG_SAMPLE_SIZE;

    pub const FLAG_SAMPLE_FLAGS: u32 = TRUN_FLAG_SAMPLE_FLAGS;

    pub const FLAG_SAMPLE_CTS: u32 = TRUN_FLAG_SAMPLE_CTS;
}

/// The mathematical value of a [`TrunBox`].
pub ghost struct TrunView {
    pub version: u8,
    pub flags: u32,
    pub sample_count: u32,
    pub data_offset: Option<i32>,
    pub first_sample_flags: Option<u32>,
    pub sample_durations: Seq<u32>,
    pub sample_sizes: Seq<u32>,
    pub sample_flags: Seq<u32>,
    pub sample_cts: Seq<u32>,
}

impl View for TrunBox {
    type V = TrunView;

    open spec fn view(&self) -> TrunView {
        TrunView {
            version: self.version,
            flags: self.flags,
            sample_count: self.sample_count,
            data_offset: self.data_offset,
            first_sample_flags: self.first_sample_flags,
            sample_durations: self.sample_durations@,
            sample_sizes: self.sample_sizes@,
            sample_flags: self.sample_flags@,
            sample_cts: self.sample_cts@,
        }
    }
}

impl Default for TrunBox {
    /// Version 0, no flags, no samples, every optional field absent.
    fn default() -> (b: TrunBox)
        ensures
            b@.version == 0,
            b@.flags == 0,
            b@.sample_count == 0,
            b@.data_offset is None,
            b@.first_sample_flags is None,
            b@.sample_durations == Seq::<u32>::empty(),
            b@.sample_sizes == Seq::<u32>::empty(),
            b@.sample_flags == Seq::<u32>::empty(),
            b@.sample_cts == Seq::<u32>::empty(),
    {
        TrunBox {
            version: 0,
            flags: 0,
            sample_count: 0,
            data_offset: None,
            first_sample_flags: None,
            sample_durations: Vec::new(),
            sample_sizes: Vec::new(),
            sample_flags: Vec::new(),
            sample_cts: Vec::new(),
        }
    }
}

/// The unsigned 32-bit wire image of a signed 32-bit value (two's
/// complement).
pub open spec fn u32_of_i32(d: i32) -> int {
    if d >= 0 {
        d as int
    } else {
        d + 0x100000000
    }
}

/// The signed 32-bit value a 32-bit wire image denotes (two's complement).
pub open spec fn i32_of_u32(u: int) -> int {
    if u >= 0x80000000 {
        u - 0x100000000
    } else {
        u
    }
}

/// A sequence of 4-byte big-endian entries, concatenated.
pub open spec fn cat_u32s(s: Seq<u32>) -> Seq<u8>
    decreases s.len(),
{
    if s.len() == 0 {
        Seq::empty()
    } else {
        u32_bytes(s[0] as int) + cat_u32s(s.subrange(1, s.len() as int))
    }
}

/// A table of `count` 4-byte big-endian entries read at `pos`.
pub open spec fn u32s_at(data: Seq<u8>, pos: int, count: int) -> Seq<u32> {
    Seq::new(count as nat, |i: int| be32_at(data, pos + 4 * i) as u32)
}

/// A concatenated table is 4 bytes per entry.
pub proof fn lemma_cat_u32s_len(s: Seq<u32>)
    ensures
        cat_u32s(s).len() == 4 * s.len(),
    decreases s.len(),
{
    if s.len() > 0 {
        lemma_cat_u32s_len(s.subrange(1, s.len() as int));
    }
}

/// Appending one entry to a table appends its 4 bytes to the concatenation.
pub proof fn lemma_cat_u32s_push(s: Seq<u32>, x: u32)
    ensures
        cat_u32s(s.push(x)) == cat_u32s(s) + u32_bytes(x as int),
    decreases s.len(),
{
    if s.len() == 0 {
        let p = s.push(x);
        assert(p.len() == 1 && p[0] == x);
        assert(p.subrange(1, 1) =~= Seq::<u32>::empty());
        assert(cat_u32s(p) == u32_bytes(x as int) + cat_u32s(Seq::<u32>::empty()));
        assert(cat_u32s(s.push(x)) =~= cat_u32s(s) + u32_bytes(x as int));
    } else {
        assert(s.push(x).subrange(1, s.len() as int + 1) =~= s.subrange(1, s.len() as int).push(
            x,
        ));
        lemma_cat_u32s_push(s.subrange(1, s.len() as int), x);
        assert(cat_u32s(s.push(x)) =~= cat_u32s(s) + u32_bytes(x as int));
    }
}

/// Reading back a written table gives every entry again.
pub proof fn lemma_u32s_of_cat(data: Seq<u8>, pos: int, s: Seq<u32>)
    requires
        bytes_match(data, pos, cat_u32s(s)),
    ensures
        forall|i: int| 0 <= i < s.len() ==> be32_at(data, pos + 4 * i) == s[i],
    decreases s.len(),
{
    lemma_cat_u32s_len(s);
    if s.len() > 0 {
        let rest = s.subrange(1, s.len() as int);
        lemma_bytes_match_concat(data, pos, u32_bytes(s[0] as int), cat_u32s(rest));
        lemma_be32_of_u32_bytes(data, pos, s[0] as int);
        lemma_u32s_of_cat(data, pos + 4, rest);
        assert forall|i: int| 0 <= i < s.len() implies be32_at(data, pos + 4 * i) == s[i] by {
            if i > 0 {
                assert(be32_at(data, pos + 4 + 4 * (i - 1)) == rest[i - 1]);
            }
        }
    }
}

impl TrunView {
    /// 4 bytes per entry of each table the flags make present.
    pub open spec fn body_extra(self) -> int {
        (if self.flags & TRUN_FLAG_DATA_OFFSET != 0 {
            4int
        } else {
            0int
        }) + (if self.flags & TRUN_FLAG_FIRST_SAMPLE_FLAGS != 0 {
            4int
        } else {
            0int
        }) + 4 * self.sample_durations.len() + 4 * self.sample_sizes.len() + 4
            * self.sample_flags.len() + 4 * self.sample_cts.len()
    }

    /// Header, extended header, sample count, then the flag-driven fields.
    pub open spec fn spec_size(self) -> int {
        16 + self.body_extra()
    }

    /// The flags fit their 24 wire bits, each optional field is present
    /// exactly when its presence bit is set, each per-sample table has one
    /// entry per sample exactly when its presence bit is set and is empty
    /// otherwise, and the total size fits 32 bits.
    pub open spec fn wf(self) -> bool {
        &&& self.flags < 0x1000000
        &&& (self.data_offset is Some <==> self.flags & TRUN_FLAG_DATA_OFFSET != 0)
        &&& (self.first_sample_flags is Some <==> self.flags & TRUN_FLAG_FIRST_SAMPLE_FLAGS != 0)
        &&& self.sample_durations.len() == (if self.flags & TRUN_FLAG_SAMPLE_DURATION != 0 {
            self.sample_count as int
        } else {
            0int
        })
        &&& self.sample_sizes.len() == (if self.flags & TRUN_FLAG_SAMPLE_SIZE != 0 {
            self.sample_count as int
        } else {
            0int
        })
        &&& self.sample_flags.len() == (if self.flags & TRUN_FLAG_SAMPLE_FLAGS != 0 {
            self.sample_count as int
        } else {
            0int
        })
        &&& self.sample_cts.len() == (if self.flags & TRUN_FLAG_SAMPLE_CTS != 0 {
            self.sample_count as int
        } else {
            0int
        })
        &&& self.spec_size() <= u32::MAX
    }

    /// The bytes of the optional data offset field.
    pub open spec fn ser_data_offset(self) -> Seq<u8> {
        match self.data_offset {
            Some(d) => u32_bytes(u32_of_i32(d)),
            None => Seq::empty(),
        }
    }

    /// The bytes of the optional first-sample flags field.
    pub open spec fn ser_first_sample_flags(self) -> Seq<u8> {
        match self.first_sample_flags {
            Some(f) => u32_bytes(f as int),
            None => Seq::empty(),
        }
    }

    /// The box's full encoding: header, extended header, sample count, the
    /// optional fields, then the per-sample tables back to back.
    pub open spec fn ser(self) -> Seq<u8> {
        ser_header(BoxType::TrunBox, self.spec_size()) + ser_ext(self.version, self.flags)
            + u32_bytes(self.sample_count as int) + self.ser_data_offset()
            + self.ser_first_sample_flags() + cat_u32s(self.sample_durations) + cat_u32s(
            self.sample_sizes,
        ) + cat_u32s(self.sample_flags) + cat_u32s(self.sample_cts)
    }
}

/// What decoding a sample-run-table box body yields: the extended header,
/// the sample count, then exactly the fields the flag bits make present, the
/// cursor forced to the declared end.
pub open spec fn parse_trun(data: Seq<u8>, pos: int, size: int) -> Result<TrunView, Error> {
    let end = pos - 8 + size;
    if end > data.len() {
        Err(Error::Truncated)
    } else if pos + 4 > data.len() {
        Err(Error::Truncated)
    } else {
        let version = data[pos];
        let flags = be24_at(data, pos + 1) as u32;
        let count = be32_at(data, pos + 4);
        let off_len: int = if flags & TRUN_FLAG_DATA_OFFSET != 0 {
            4
        } else {
            0
        };
        let fsf_len: int = if flags & TRUN_FLAG_FIRST_SAMPLE_FLAGS != 0 {
            4
        } else {
            0
        };
        let dur_n: int = if flags & TRUN_FLAG_SAMPLE_DURATION != 0 {
            count
        } else {
            0
        };
        let siz_n: int = if flags & TRUN_FLAG_SAMPLE_SIZE != 0 {
            count
        } else {
            0
        };
        let sfl_n: int = if flags & TRUN_FLAG_SAMPLE_FLAGS != 0 {
            count
        } else {
            0
        };
        let cts_n: int = if flags & TRUN_FLAG_SAMPLE_CTS != 0 {
            count
        } else {
            0
        };
        let q_off = pos + 8;
        let q_fsf = q_off + off_len;
        let q_dur = q_fsf + fsf_len;
        let q_siz = q_dur + 4 * dur_n;
        let q_sfl = q_siz + 4 * siz_n;
        let q_cts = q_sfl + 4 * sfl_n;
        let need = q_cts + 4 * cts_n;
        if need > data.len() {
            Err(Error::Truncated)
        } else {
            Ok(
                TrunView {
                    version,
                    flags,
                    sample_count: count as u32,
                    data_offset: if off_len == 4 {
                        Some(i32_of_u32(be32_at(data, q_off)) as i32)
                    } else {
                        None
                    },
                    first_sample_flags: if fsf_len == 4 {
                        Some(be32_at(data, q_fsf) as u32)
                    } else {
                        None
                    },
                    sample_durations: u32s_at(data, q_dur, dur_n),
                    sample_sizes: u32s_at(data, q_siz, siz_n),
                    sample_flags: u32s_at(data, q_sfl, sfl_n),
                    sample_cts: u32s_at(data, q_cts, cts_n),
                },
            )
        }
    }
}

/// Reads `count` 4-byte big-endian entries starting at `pos`, failing with a
/// truncation error if the stream ends first.
fn read_u32_vec(data: &[u8], pos: usize, count: u32) -> (r: Result<(Vec<u32>, usize), Error>)
    requires
        pos <= data@.len(),
    ensures
        match r {
            Ok((v, p)) => {
                &&& pos + 4 * count <= data@.len()
                &&& v@ == u32s_at(data@, pos as int, count as int)
                &&& p == pos + 4 * count
            },
            Err(e) => pos + 4 * count > data@.len() && e == Error::Truncated,
        },
{
    let n = data.len();
    if (((n - pos) / 4) as u64) < (count as u64) {
        return Err(Error::Truncated);
    }
    let mut v: Vec<u32> = Vec::new();
    let mut i: usize = 0;
    let m = count as usize;
    while i < m
        invariant
            i <= m,
            pos + 4 * m <= data@.len(),
            data@.len() <= usize::MAX,
            v@ == u32s_at(data@, pos as int, i as int),
        decreases m - i,
    {
        let x = read_u32_at(data, pos + 4 * i);
        v.push(x);
        i = i + 1;
        proof {
            assert(v@ =~= u32s_at(data@, pos as int, i as int));
        }
    }
    Ok((v, pos + 4 * m))
}

/// Writes each entry of a table as 4 big-endian bytes.
fn write_u32_vec(out: &mut Vec<u8>, v: &Vec<u32>)
    ensures
        final(out)@ == old(out)@ + cat_u32s(v@),
{
    let mut i: usize = 0;
    let m = v.len();
    while i < m
        invariant
            i <= m,
            m == v@.len(),
            out@ == old(out)@ + cat_u32s(v@.subrange(0, i as int)),
        decreases m - i,
    {
        write_u32_be(out, v[i]);
        i = i + 1;
        proof {
            assert(v@.subrange(0, i as int) =~= v@.subrange(0, i - 1).push(v@[i - 1]));
            lemma_cat_u32s_push(v@.subrange(0, i - 1), v@[i - 1]);
        }
    }
    proof {
        assert(v@.subrange(0, v@.len() as int) =~= v@);
    }
}

impl TrunBox {
    /// This box's type tag.
    pub fn get_type(&self) -> (t: BoxType)
        ensures
            t == BoxType::TrunBox,
    {
        BoxType::TrunBox
    }

    /// This box's total encoded size, recomputed from the present fields.
    pub fn get_size(&self) -> (s: u64)
        requires
            self@.wf(),
        ensures
            s == self@.spec_size(),
    {
        let mut size: u64 = 16;
        if self.flags & TRUN_FLAG_DATA_OFFSET != 0 {
            size += 4;
        }
        if self.flags & TRUN_FLAG_FIRST_SAMPLE_FLAGS != 0 {
            size += 4;
        }
        size += 4 * self.sample_durations.len() as u64;
        size += 4 * self.sample_sizes.len() as u64;
        size += 4 * self.sample_flags.len() as u64;
        size += 4 * self.sample_cts.len() as u64;
        size
    }

    /// This box's type tag.
    pub fn box_type(&self) -> (t: BoxType)
        ensures
            t == BoxType::TrunBox,
    {
        self.get_type()
    }

    /// This box's total encoded size.
    pub fn box_size(&self) -> (s: u64)
        requires
            self@.wf(),
        ensures
            s == self@.spec_size(),
    {
        self.get_size()
    }

    /// A short human-readable line about this box.
    pub fn summary(&self) -> (r: Result<String, Error>)
        ensures
            r matches Ok(s) && s@ == Seq::<char>::empty(),
    {
        Ok(String::new())
    }

    /// Decodes a sample-run-table box body; the cursor stands just past the
    /// header and is left at the declared end.
    pub fn read_box(data: &[u8], pos: usize, size: u64) -> (r: Result<(TrunBox, usize), Error>)
        requires
            8 <= pos <= data@.len(),
            8 <= size,
        ensures
            match r {
                Ok((b, p)) => {
                    &&& parse_trun(data@, pos as int, size as int) == Ok::<TrunView, Error>(b@)
                    &&& p == pos - 8 + size
                    &&& p <= data@.len()
                },
                Err(e) => parse_trun(data@, pos as int, size as int) == Err::<TrunView, Error>(e),
            },
    {
        let n = data.len();
        if size - 8 > (n - pos) as u64 {
            return Err(Error::Truncated);
        }
        let end = pos + (size - 8) as usize;
        let ((version, flags), mut cur) = read_box_header_ext(data, pos)?;
        if n - cur < 4 {
            return Err(Error::Truncated);
        }
        let sample_count = read_u32_at(data, cur);
        cur = cur + 4;
        let data_offset: Option<i32> = if flags & TRUN_FLAG_DATA_OFFSET != 0 {
            if n - cur < 4 {
                return Err(Error::Truncated);
            }
            let u = read_u32_at(data, cur);
            cur = cur + 4;
            if u >= 0x80000000 {
                Some(((u as i64) - 0x100000000) as i32)
            } else {
                Some(u as i32)
            }
        } else {
            None
        };
        let first_sample_flags: Option<u32> = if flags & TRUN_FLAG_FIRST_SAMPLE_FLAGS != 0 {
            if n - cur < 4 {
                return Err(Error::Truncated);
            }
            let f = read_u32_at(data, cur);
            cur = cur + 4;
            Some(f)
        } else {
            None
        };
        let dur_n: u32 = if flags & TRUN_FLAG_SAMPLE_DURATION != 0 {
            sample_count
        } else {
            0
        };
        let siz_n: u32 = if flags & TRUN_FLAG_SAMPLE_SIZE != 0 {
            sample_count
        } else {
            0
        };
        let sfl_n: u32 = if flags & TRUN_FLAG_SAMPLE_FLAGS != 0 {
            sample_count
        } else {
            0
        };
        let cts_n: u32 = if flags & TRUN_FLAG_SAMPLE_CTS != 0 {
            sample_count
        } else {
            0
        };
        let (sample_durations, cur2) = read_u32_vec(data, cur, dur_n)?;
        let (sample_sizes, cur3) = read_u32_vec(data, cur2, siz_n)?;
        let (sample_flags_v, cur4) = read_u32_vec(data, cur3, sfl_n)?;
        let (sample_cts, _cur5) = read_u32_vec(data, cur4, cts_n)?;
        Ok(
            (
                TrunBox {
                    version,
                    flags,
                    sample_count,
                    data_offset,
                    first_sample_flags,
                    sample_durations,
                    sample_sizes,
                    sample_flags: sample_flags_v,
                    sample_cts,
                },
                end,
            ),
        )
    }

    /// Encodes this box: header, extended header, sample count, the present
    /// optional fields, then the per-sample tables.  Returns the number of
    /// bytes written, which equals the box's computed size.
    #[verifier::rlimit(100)]
    pub fn write_box(&self, out: &mut Vec<u8>) -> (r: Result<u64, Error>)
        requires
            self@.wf(),
        ensures
            final(out)@ == old(out)@ + self@.ser(),
            final(out)@.len() == old(out)@.len() + self@.spec_size(),
            r == Ok::<u64, Error>(self@.spec_size() as u64),
    {
        let size = self.box_size();
        let header = BoxHeader::new(self.get_type(), size);
        let _ = header.write(out)?;
        write_box_header_ext(out, self.version, self.flags);
        write_u32_be(out, self.sample_count);
        match self.data_offset {
            Some(d) => {
                let u: u32 = if d >= 0 {
                    d as u32
                } else {
                    ((d as i64) + 0x100000000) as u32
                };
                write_u32_be(out, u);
            },
            None => {},
        }
        match self.first_sample_flags {
            Some(f) => write_u32_be(out, f),
            None => {},
        }
        write_u32_vec(out, &self.sample_durations);
        write_u32_vec(out, &self.sample_sizes);
        write_u32_vec(out, &self.sample_flags);
        write_u32_vec(out, &self.sample_cts);
        proof {
            lemma_cat_u32s_len(self@.sample_durations);
            lemma_cat_u32s_len(self@.sample_sizes);
            lemma_cat_u32s_len(self@.sample_flags);
            lemma_cat_u32s_len(self@.sample_cts);
            assert(final(out)@ =~= old(out)@ + self@.ser());
        }
        Ok(size)
    }
}

/// A well-formed sample-run-table box encodes to exactly its computed size.
pub proof fn lemma_trun_ser_len(v: TrunView)
    requires
        v.wf(),
    ensures
        v.ser().len() == v.spec_size(),
{
    lemma_cat_u32s_len(v.sample_durations);
    lemma_cat_u32s_len(v.sample_sizes);
    lemma_cat_u32s_len(v.sample_flags);
    lemma_cat_u32s_len(v.sample_cts);
}

/// Round trip for the sample-run-table box: decoding its own encoding yields
/// the header it was written with and the same value.
#[verifier::rlimit(100)]
pub proof fn lemma_round_trip_trun(data: Seq<u8>, pos: int, v: TrunView)
    requires
        v.wf(),
        bytes_match(data, pos, v.ser()),
    ensures
        parse_header(data, pos) == Ok::<_, Error>((
            BoxType::TrunBox,
            v.spec_size() as u64,
            pos + 8,
        )),
        parse_trun(data, pos + 8, v.spec_size()) == Ok::<TrunView, Error>(v),
{
    let hdr = ser_header(BoxType::TrunBox, v.spec_size());
    let ext = ser_ext(v.version, v.flags);
    let cnt = u32_bytes(v.sample_count as int);
    let off = v.ser_data_offset();
    let fsf = v.ser_first_sample_flags();
    let dur = cat_u32s(v.sample_durations);
    let siz = cat_u32s(v.sample_sizes);
    let sfl = cat_u32s(v.sample_flags);
    let cts = cat_u32s(v.sample_cts);
    lemma_cat_u32s_len(v.sample_durations);
    lemma_cat_u32s_len(v.sample_sizes);
    lemma_cat_u32s_len(v.sample_flags);
    lemma_cat_u32s_len(v.sample_cts);
    lemma_bytes_match_concat(data, pos, hdr + ext + cnt + off + fsf + dur + siz + sfl, cts);
    lemma_bytes_match_concat(data, pos, hdr + ext + cnt + off + fsf + dur + siz, sfl);
    lemma_bytes_match_concat(data, pos, hdr + ext + cnt + off + fsf + dur, siz);
    lemma_bytes_match_concat(data, pos, hdr + ext + cnt + off + fsf, dur);
    lemma_bytes_match_concat(data, pos, hdr + ext + cnt + off, fsf);
    lemma_bytes_match_concat(data, pos, hdr + ext + cnt, off);
    lemma_bytes_match_concat(data, pos, hdr + ext, cnt);
    lemma_bytes_match_concat(data, pos, hdr, ext);
    lemma_parse_header_of_ser(data, pos, BoxType::TrunBox, v.spec_size());
    lemma_read_ext_of_ser(data, pos + 8, v.version, v.flags);
    lemma_be32_of_u32_bytes(data, pos + 12, v.sample_count as int);
    let q_off = pos + 16;
    let q_fsf = q_off + off.len();
    let q_dur = q_fsf + fsf.len();
    let q_siz = q_dur + dur.len();
    let q_sfl = q_siz + siz.len();
    let q_cts = q_sfl + sfl.len();
    match v.data_offset {
        Some(d) => {
            lemma_be32_of_u32_bytes(data, q_off, u32_of_i32(d));
        },
        None => {},
    }
    match v.first_sample_flags {
        Some(f) => {
            lemma_be32_of_u32_bytes(data, q_fsf, f as int);
        },
        None => {},
    }
    lemma_u32s_of_cat(data, q_dur, v.sample_durations);
    lemma_u32s_of_cat(data, q_siz, v.sample_sizes);
    lemma_u32s_of_cat(data, q_sfl, v.sample_flags);
    lemma_u32s_of_cat(data, q_cts, v.sample_cts);
    let parsed = parse_trun(data, pos + 8, v.spec_size());
    assert(parsed is Ok);
    let w = parsed->Ok_0;
    assert(w.sample_durations =~= v.sample_durations);
    assert(w.sample_sizes =~= v.sample_sizes);
    assert(w.sample_flags =~= v.sample_flags);
    assert(w.sample_cts =~= v.sample_cts);
    assert(w == v);
}

} // verus!
