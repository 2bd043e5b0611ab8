//! The inner fragment container: a composite box holding one mandatory
//! track-fragment-header child and two optional children, a
//! decode-time-offset box and a sample-run-table box.
//!
//! Decoding walks child boxes until the container's declared end: each child
//! header is read, recognized children are decoded into their slot,
//! unrecognized or unexpected children are skipped — deliberately not an
//! error, the format's forward-compatibility mechanism.  Reaching the end
//! without the mandatory child is a required-child-missing failure.
//! Encoding writes the children in canonical order and recomputes the
//! container's size from its current children; nothing is cached.

use vstd::prelude::*;

use crate::bytes::{bytes_match, lemma_bytes_match_concat};
use crate::error::Error;
use crate::header::{parse_header, ser_header, skip_box, BoxHeader, HEADER_SIZE};
use crate::tfdt::{lemma_round_trip_tfdt, parse_tfdt, TfdtBox, TfdtView};
use crate::tfhd::{lemma_round_trip_tfhd, parse_tfhd, TfhdBox, TfhdView};
use crate::trun::{lemma_round_trip_trun, lemma_trun_ser_len, parse_trun, TrunBox, TrunView};
use crate::types::BoxType;

verus! {

/// An inner fragment container.
#[derive(Debug, Clone, PartialEq)]
pub struct TrafBox {
    pub tfhd: TfhdBox,
    pub tfdt: Option<TfdtBox>,
    pub trun: Option<TrunBox>,
}

/// The mathematical value of a [`TrafBox`].
pub ghost struct TrafView {
    pub tfhd: TfhdView,
    pub tfdt: Option<TfdtView>,
    pub trun: Option<TrunView>,
}

/// The view of an optional track-fragment-header slot.
pub open spec fn opt_tfhd_view(o: Option<TfhdBox>) -> Option<TfhdView> {
    match o {
        Some(b) => Some(b@),
        None => None,
    }
}

/// The view of an optional decode-time-offset child.
pub open spec fn opt_tfdt_view(o: Option<TfdtBox>) -> Option<TfdtView> {
    match o {
        Some(b) => Some(b@),
        None => None,
    }
}

/// The view of an optional sample-run-table child.
pub open spec fn opt_trun_view(o: Option<TrunBox>) -> Option<TrunView> {
    match o {
        Some(b) => Some(b@),
        None => None,
    }
}

impl View for TrafBox {
    type V = TrafView;

    open spec fn view(&self) -> TrafView {
        TrafView {
            tfhd: self.tfhd@,
            tfdt: opt_tfdt_view(self.tfdt),
            trun: opt_trun_view(self.trun),
        }
    }
}

impl Default for TrafBox {
    /// A default track-fragment-header child and no optional children.
    fn default() -> (b: TrafBox)
        ensures
            b@.tfhd == (TfhdView { version: 0, flags: 0, track_id: 0, base_data_offset: 0 }),
            b@.tfdt is None,
            b@.trun is None,
    {
        TrafBox { tfhd: Default::default(), tfdt: None, trun: None }
    }
}

impl TrafView {
    /// Header plus the sum of each present child's size, recomputed from the
    /// current children.
    pub open spec fn spec_size(self) -> int {
        8 + self.tfhd.spec_size() + (match self.tfdt {
            Some(t) => t.spec_size(),
            None => 0,
        }) + (match self.trun {
            Some(t) => t.spec_size(),
            None => 0,
        })
    }

    /// Every present child is well formed and the total size fits 32 bits.
    pub open spec fn wf(self) -> bool {
        &&& self.tfhd.wf()
        &&& (self.tfdt matches Some(t) ==> t.wf())
        &&& (self.trun matches Some(t) ==> t.wf())
        &&& self.spec_size() <= u32::MAX
    }

    /// The box's full encoding: header, then the children in canonical
    /// order — track-fragment-header, then decode-time-offset if present,
    /// then sample-run-table if present.  Absent children are omitted.
    pub open spec fn ser(self) -> Seq<u8> {
        ser_header(BoxType::TrafBox, self.spec_size()) + self.tfhd.ser() + (match self.tfdt {
            Some(t) => t.ser(),
            None => Seq::empty(),
        }) + (match self.trun {
            Some(t) => t.ser(),
            None => Seq::empty(),
        })
    }
}

/// A well-formed inner fragment container encodes to exactly its computed
/// size.
pub proof fn lemma_traf_ser_len(v: TrafView)
    requires
        v.wf(),
    ensures
        v.ser().len() == v.spec_size(),
{
    match v.trun {
        Some(t) => lemma_trun_ser_len(t),
        None => {},
    }
}

/// One step of the container walk: what decoding children from `pos` to the
/// container's declared `end` yields, given the slots accumulated so far.
/// A recognized child fills (or refills) its slot; an unrecognized child is
/// skipped; reaching `end` without the mandatory track-fragment-header child
/// is the required-child-missing failure.
#[verifier::opaque]
pub open spec fn parse_traf_children(
    data: Seq<u8>,
    pos: int,
    end: int,
    tfhd: Option<TfhdView>,
    tfdt: Option<TfdtView>,
    trun: Option<TrunView>,
) -> Result<TrafView, Error>
    decreases end - pos,
{
    if pos >= end {
        match tfhd {
            Some(h) => Ok(TrafView { tfhd: h, tfdt, trun }),
            None => Err(Error::BoxNotFound(BoxType::TfhdBox)),
        }
    } else {
        match parse_header(data, pos) {
            Err(e) => Err(e),
            Ok((name, size, hpos)) => {
                let child_end = hpos - 8 + size;
                let next = if child_end < end {
                    child_end
                } else {
                    end
                };
                match name {
                    BoxType::TfhdBox => match parse_tfhd(data, hpos, size as int) {
                        Err(e) => Err(e),
                        Ok(b) => parse_traf_children(data, next, end, Some(b), tfdt, trun),
                    },
                    BoxType::TfdtBox => match parse_tfdt(data, hpos, size as int) {
                        Err(e) => Err(e),
                        Ok(b) => parse_traf_children(data, next, end, tfhd, Some(b), trun),
                    },
                    BoxType::TrunBox => match parse_trun(data, hpos, size as int) {
                        Err(e) => Err(e),
                        Ok(b) => parse_traf_children(data, next, end, tfhd, tfdt, Some(b)),
                    },
                    _ => {
                        if child_end > data.len() {
                            Err(Error::Truncated)
                        } else {
                            parse_traf_children(data, next, end, tfhd, tfdt, trun)
                        }
                    },
                }
            },
        }
    }
}

/// What decoding an inner fragment container body yields: the walk over its
/// children up to the declared end, the cursor left exactly there.
pub open spec fn parse_traf(data: Seq<u8>, pos: int, size: int) -> Result<TrafView, Error> {
    let end = pos - 8 + size;
    if end > data.len() {
        Err(Error::Truncated)
    } else {
        parse_traf_children(data, pos, end, None, None, None)
    }
}

impl TrafBox {
    /// This box's type tag.
    pub fn get_type(&self) -> (t: BoxType)
        ensures
            t == BoxType::TrafBox,
    {
        BoxType::TrafBox
    }

    /// This box's total encoded size: header plus the sum of each present
    /// child's current size, recomputed on demand and never cached.
    pub fn get_size(&self) -> (s: u64)
        requires
            self@.wf(),
        ensures
            s == self@.spec_size(),
    {
        let mut size = HEADER_SIZE;
        size += self.tfhd.box_size();
        if let Some(ref tfdt) = self.tfdt {
            size += tfdt.box_size();
        }
        if let Some(ref trun) = self.trun {
            size += trun.box_size();
        }
        size
    }

    /// This box's type tag.
    pub fn box_type(&self) -> (t: BoxType)
        ensures
            t == BoxType::TrafBox,
    {
        self.get_type()
    }

    /// This box's total encoded size.
    pub fn box_size(&self) -> (s: u64)
        requires
            self@.wf(),
        ensures
            s == self@.spec_size(),
    {
        self.get_size()
    }

    /// A short human-readable line about this box.
    pub fn summary(&self) -> (r: Result<String, Error>)
        ensures
            r matches Ok(s) && s@ == Seq::<char>::empty(),
    {
        Ok(String::new())
    }

    /// Decodes an inner fragment container body: walks child boxes until the
    /// declared end, filling the slot of each recognized child, skipping
    /// unrecognized ones, and failing if the mandatory
    /// track-fragment-header child never appeared.  The cursor stands just
    /// past the header and is left exactly at the declared end.
    #[verifier::rlimit(100)]
    pub fn read_box(data: &[u8], pos: usize, size: u64) -> (r: Result<(TrafBox, usize), Error>)
        requires
            8 <= pos <= data@.len(),
            8 <= size,
        ensures
            match r {
                Ok((b, p)) => {
                    &&& parse_traf(data@, pos as int, size as int) == Ok::<TrafView, Error>(b@)
                    &&& p == pos - 8 + size
                    &&& p <= data@.len()
                },
                Err(e) => parse_traf(data@, pos as int, size as int) == Err::<TrafView, Error>(e),
            },
    {
        let n = data.len();
        if size - 8 > (n - pos) as u64 {
            return Err(Error::Truncated);
        }
        let end = pos + (size - 8) as usize;
        let mut tfhd: Option<TfhdBox> = None;
        let mut tfdt: Option<TfdtBox> = None;
        let mut trun: Option<TrunBox> = None;
        let mut cur: usize = pos;
        while cur < end
            invariant
                8 <= pos <= cur,
                cur <= data@.len(),
                end == pos - 8 + size,
                end <= data@.len(),
                parse_traf_children(data@, pos as int, end as int, None, None, None)
                    == parse_traf_children(
                    data@,
                    if cur < end {
                        cur as int
                    } else {
                        end as int
                    },
                    end as int,
                    opt_tfhd_view(tfhd),
                    opt_tfdt_view(tfdt),
                    opt_trun_view(trun),
                ),
            decreases
                    if cur < end {
                        end - cur
                    } else {
                        0int
                    },
        {
            let ghost c0 = cur as int;
            let ghost o_tfhd = opt_tfhd_view(tfhd);
            let ghost o_tfdt = opt_tfdt_view(tfdt);
            let ghost o_trun = opt_trun_view(trun);
            let ghost walk0 = parse_traf_children(data@, c0, end as int, o_tfhd, o_tfdt, o_trun);
            let (header, hpos) = match BoxHeader::read(data, cur) {
                Ok(h) => h,
                Err(e) => {
                    proof {
                        reveal(parse_traf_children);
                        assert(walk0 == Err::<TrafView, Error>(e));
                    }
                    return Err(e);
                },
            };
            match header.name {
                BoxType::TfhdBox => {
                    let (b, p) = match TfhdBox::read_box(data, hpos, header.size) {
                        Ok(x) => x,
                        Err(e) => {
                            proof {
                                reveal(parse_traf_children);
                                assert(walk0 == Err::<TrafView, Error>(e));
                            }
                            return Err(e);
                        },
                    };
                    tfhd = Some(b);
                    cur = p;
                    proof {
                        reveal(parse_traf_children);
                        let next = if cur < end {
                            cur as int
                        } else {
                            end as int
                        };
                        assert(walk0 == parse_traf_children(
                            data@,
                            next,
                            end as int,
                            Some(b@),
                            o_tfdt,
                            o_trun,
                        ));
                    }
                },
                BoxType::TfdtBox => {
                    let (b, p) = match TfdtBox::read_box(data, hpos, header.size) {
                        Ok(x) => x,
                        Err(e) => {
                            proof {
                                reveal(parse_traf_children);
                                assert(walk0 == Err::<TrafView, Error>(e));
                            }
                            return Err(e);
                        },
                    };
                    tfdt = Some(b);
                    cur = p;
                    proof {
                        reveal(parse_traf_children);
                        let next = if cur < end {
                            cur as int
                        } else {
                            end as int
                        };
                        assert(walk0 == parse_traf_children(
                            data@,
                            next,
                            end as int,
                            o_tfhd,
                            Some(b@),
                            o_trun,
                        ));
                    }
                },
                BoxType::TrunBox => {
                    let (b, p) = match TrunBox::read_box(data, hpos, header.size) {
                        Ok(x) => x,
                        Err(e) => {
                            proof {
                                reveal(parse_traf_children);
                                assert(walk0 == Err::<TrafView, Error>(e));
                            }
                            return Err(e);
                        },
                    };
                    trun = Some(b);
                    cur = p;
                    proof {
                        reveal(parse_traf_children);
                        let next = if cur < end {
                            cur as int
                        } else {
                            end as int
                        };
                        assert(walk0 == parse_traf_children(
                            data@,
                            next,
                            end as int,
                            o_tfhd,
                            o_tfdt,
                            Some(b@),
                        ));
                    }
                },
                _ => {
                    let p = match skip_box(data, hpos, header.size) {
                        Ok(x) => x,
                        Err(e) => {
                            proof {
                                reveal(parse_traf_children);
                                assert(walk0 == Err::<TrafView, Error>(e));
                            }
                            return Err(e);
                        },
                    };
                    cur = p;
                    proof {
                        reveal(parse_traf_children);
                        let next = if cur < end {
                            cur as int
                        } else {
                            end as int
                        };
                        assert(walk0 == parse_traf_children(
                            data@,
                            next,
                            end as int,
                            o_tfhd,
                            o_tfdt,
                            o_trun,
                        ));
                    }
                },
            }
        }
        proof {
            reveal(parse_traf_children);
        }
        match tfhd {
            Some(h) => Ok((TrafBox { tfhd: h, tfdt, trun }, end)),
            None => Err(Error::BoxNotFound(BoxType::TfhdBox)),
        }
    }

    /// Encodes this container: header with the freshly computed total size,
    /// then the children in canonical order, absent ones omitted.  Returns
    /// the number of bytes written, which equals the box's computed size.
    pub fn write_box(&self, out: &mut Vec<u8>) -> (r: Result<u64, Error>)
        requires
            self@.wf(),
        ensures
            final(out)@ == old(out)@ + self@.ser(),
            final(out)@.len() == old(out)@.len() + self@.spec_size(),
            r == Ok::<u64, Error>(self@.spec_size() as u64),
    {
        let size = self.box_size();
        let header = BoxHeader::new(self.get_type(), size);
        let _ = header.write(out)?;
        let _ = self.tfhd.write_box(out)?;
        if let Some(tfdt) = &self.tfdt {
            let _ = tfdt.write_box(out)?;
        }
        if let Some(trun) = &self.trun {
            let _ = trun.write_box(out)?;
        }
        proof {
            lemma_traf_ser_len(self@);
            assert(final(out)@ =~= old(out)@ + self@.ser());
        }
        Ok(size)
    }
}

/// Round trip for the inner fragment container: decoding its own encoding
/// yields the header it was written with and the same value, present and
/// absent optional children included.
#[verifier::rlimit(100)]
pub proof fn lemma_round_trip_traf(data: Seq<u8>, pos: int, v: TrafView)
    requires
        v.wf(),
        bytes_match(data, pos, v.ser()),
    ensures
        parse_header(data, pos) == Ok::<_, Error>((
            BoxType::TrafBox,
            v.spec_size() as u64,
            pos + 8,
        )),
        parse_traf(data, pos + 8, v.spec_size()) == Ok::<TrafView, Error>(v),
{
    let hdr = ser_header(BoxType::TrafBox, v.spec_size());
    let s1 = v.tfhd.ser();
    let s2 = match v.tfdt {
        Some(t) => t.ser(),
        None => Seq::<u8>::empty(),
    };
    let s3 = match v.trun {
        Some(t) => t.ser(),
        None => Seq::<u8>::empty(),
    };
    lemma_traf_ser_len(v);
    match v.trun {
        Some(t) => lemma_trun_ser_len(t),
        None => {},
    }
    lemma_bytes_match_concat(data, pos, hdr + s1 + s2, s3);
    lemma_bytes_match_concat(data, pos, hdr + s1, s2);
    lemma_bytes_match_concat(data, pos, hdr, s1);
    crate::header::lemma_parse_header_of_ser(data, pos, BoxType::TrafBox, v.spec_size());
    let end = pos + v.spec_size();
    let p1 = pos + 8;
    let p2 = p1 + v.tfhd.spec_size();
    let p3 = p2 + s2.len();
    lemma_round_trip_tfhd(data, p1, v.tfhd);
    assert(parse_traf_children(data, p1, end, None, None, None) == parse_traf_children(
        data,
        p2,
        end,
        Some(v.tfhd),
        None,
        None,
    )) by {
        reveal(parse_traf_children);
    }
    match v.tfdt {
        Some(t) => {
            lemma_round_trip_tfdt(data, p2, t);
            assert(parse_traf_children(data, p2, end, Some(v.tfhd), None, None)
                == parse_traf_children(data, p3, end, Some(v.tfhd), Some(t), None)) by {
                reveal(parse_traf_children);
            }
        },
        None => {
            assert(p3 == p2);
        },
    }
    match v.trun {
        Some(t) => {
            lemma_round_trip_trun(data, p3, t);
            assert(parse_traf_children(data, p3, end, Some(v.tfhd), v.tfdt, None)
                == parse_traf_children(data, end, end, Some(v.tfhd), v.tfdt, Some(t))) by {
                reveal(parse_traf_children);
            }
        },
        None => {
            assert(p3 == end);
        },
    }
    assert(parse_traf_children(data, end, end, Some(v.tfhd), v.tfdt, v.trun)
        == Ok::<TrafView, Error>(v)) by {
        reveal(parse_traf_children);
    }
}

} // verus!
