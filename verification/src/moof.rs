//! The outer fragment container: a composite box holding one mandatory
//! movie-fragment-header child and any number of inner fragment containers,
//! kept in their original order.
//!
//! Decoding walks child boxes until the container's declared end, exactly as
//! the inner container does: recognized children fill their slot or are
//! appended, unrecognized children are skipped, and reaching the end without
//! the mandatory child fails.  Encoding writes the movie-fragment-header
//! child, then each inner fragment container in order, under a freshly
//! computed total size.

use vstd::prelude::*;

use vstd::string::StringExecFns;

use crate::bytes::{bytes_match, lemma_bytes_match_concat};
use crate::error::Error;
use crate::header::{parse_header, ser_header, skip_box, BoxHeader, HEADER_SIZE};
use crate::mfhd::{lemma_round_trip_mfhd, parse_mfhd, MfhdBox, MfhdView};
use crate::text::{dec_rep, push_dec};
use crate::traf::{lemma_round_trip_traf, lemma_traf_ser_len, parse_traf, TrafBox, TrafView};
use crate::types::BoxType;

verus! {

/// An outer fragment container.
#[derive(Debug, Clone, PartialEq)]
pub struct MoofBox {
    pub mfhd: MfhdBox,
    pub trafs: Vec<TrafBox>,
}

/// The mathematical value of a [`MoofBox`].
pub ghost struct MoofView {
    pub mfhd: MfhdView,
    pub trafs: Seq<TrafView>,
}

/// The view of an optional movie-fragment-header slot.
pub open spec fn opt_mfhd_view(o: Option<MfhdBox>) -> Option<MfhdView> {
    match o {
        Some(b) => Some(b@),
        None => None,
    }
}

/// The views of a list of inner fragment containers, in order.
pub open spec fn trafs_view(v: Seq<TrafBox>) -> Seq<TrafView> {
    v.map_values(|t: TrafBox| t@)
}

impl View for MoofBox {
    type V = MoofView;

    open spec fn view(&self) -> MoofView {
        MoofView { mfhd: self.mfhd@, trafs: trafs_view(self.trafs@) }
    }
}

impl Default for MoofBox {
    /// A default movie-fragment-header child and no inner fragment children.
    fn default() -> (b: MoofBox)
        ensures
            b@.mfhd == (MfhdView { version: 0, flags: 0, sequence_number: 0 }),
            b@.trafs == Seq::<TrafView>::empty(),
    {
        let b = MoofBox { mfhd: Default::default(), trafs: Vec::new() };
        proof {
            assert(b@.trafs =~= Seq::<TrafView>::empty());
        }
        b
    }
}

/// The sum of the current sizes of a list of inner fragment containers.
pub open spec fn sum_traf_sizes(s: Seq<TrafView>) -> int
    decreases s.len(),
{
    if s.len() == 0 {
        0
    } else {
        s[0].spec_size() + sum_traf_sizes(s.subrange(1, s.len() as int))
    }
}

/// The encodings of a list of inner fragment containers, back to back.
pub open spec fn cat_trafs(s: Seq<TrafView>) -> Seq<u8>
    decreases s.len(),
{
    if s.len() == 0 {
        Seq::empty()
    } else {
        s[0].ser() + cat_trafs(s.subrange(1, s.len() as int))
    }
}

/// Appending one container adds its size to the sum.
pub proof fn lemma_sum_trafs_push(s: Seq<TrafView>, x: TrafView)
    ensures
        sum_traf_sizes(s.push(x)) == sum_traf_sizes(s) + x.spec_size(),
    decreases s.len(),
{
    if s.len() == 0 {
        let p = s.push(x);
        assert(p.len() == 1 && p[0] == x);
        assert(p.subrange(1, 1) =~= Seq::<TrafView>::empty());
        assert(sum_traf_sizes(p) == x.spec_size() + sum_traf_sizes(Seq::<TrafView>::empty()));
    } else {
        assert(s.push(x).subrange(1, s.len() as int + 1) =~= s.subrange(1, s.len() as int).push(
            x,
        ));
        lemma_sum_trafs_push(s.subrange(1, s.len() as int), x);
    }
}

/// Appending one container appends its encoding to the concatenation.
pub proof fn lemma_cat_trafs_push(s: Seq<TrafView>, x: TrafView)
    ensures
        cat_trafs(s.push(x)) == cat_trafs(s) + x.ser(),
    decreases s.len(),
{
    if s.len() == 0 {
        let p = s.push(x);
        assert(p.len() == 1 && p[0] == x);
        assert(p.subrange(1, 1) =~= Seq::<TrafView>::empty());
        assert(cat_trafs(p) == x.ser() + cat_trafs(Seq::<TrafView>::empty()));
        Seq::<u8>::add_empty_right(x.ser(), cat_trafs(Seq::<TrafView>::empty()));
        Seq::<u8>::add_empty_left(cat_trafs(s), x.ser());
    } else {
        let rest = s.subrange(1, s.len() as int);
        assert(s.push(x).subrange(1, s.len() as int + 1) =~= rest.push(x));
        assert(s.push(x)[0] == s[0]);
        lemma_cat_trafs_push(rest, x);
        vstd::seq_lib::lemma_concat_associative(s[0].ser(), cat_trafs(rest), x.ser());
    }
}

/// The sum of container sizes is never negative.
pub proof fn lemma_sum_trafs_nonneg(s: Seq<TrafView>)
    ensures
        sum_traf_sizes(s) >= 0,
    decreases s.len(),
{
    if s.len() > 0 {
        lemma_sum_trafs_nonneg(s.subrange(1, s.len() as int));
    }
}

/// A prefix of the list never sums to more than the whole list.
pub proof fn lemma_sum_trafs_prefix_le(s: Seq<TrafView>, i: int)
    requires
        0 <= i <= s.len(),
    ensures
        sum_traf_sizes(s.subrange(0, i)) <= sum_traf_sizes(s),
    decreases s.len() - i,
{
    if i == s.len() {
        assert(s.subrange(0, i) =~= s);
    } else {
        assert(s.subrange(0, i + 1) =~= s.subrange(0, i).push(s[i]));
        lemma_sum_trafs_push(s.subrange(0, i), s[i]);
        lemma_sum_trafs_prefix_le(s, i + 1);
    }
}

/// Well-formed containers encode to exactly the sum of their sizes.
pub proof fn lemma_cat_trafs_len(s: Seq<TrafView>)
    requires
        forall|i: int| 0 <= i < s.len() ==> (#[trigger] s[i]).wf(),
    ensures
        cat_trafs(s).len() == sum_traf_sizes(s),
    decreases s.len(),
{
    if s.len() > 0 {
        lemma_traf_ser_len(s[0]);
        lemma_cat_trafs_len(s.subrange(1, s.len() as int));
    }
}

impl MoofView {
    /// Header plus the sizes of the mandatory child and every inner
    /// fragment child, recomputed from the current children.
    pub open spec fn spec_size(self) -> int {
        8 + self.mfhd.spec_size() + sum_traf_sizes(self.trafs)
    }

    /// Every child is well formed and the total size fits 32 bits.
    pub open spec fn wf(self) -> bool {
        &&& self.mfhd.wf()
        &&& forall|i: int| 0 <= i < self.trafs.len() ==> (#[trigger] self.trafs[i]).wf()
        &&& self.spec_size() <= u32::MAX
    }

    /// The box's full encoding: header, the movie-fragment-header child,
    /// then each inner fragment child in original order.
    pub open spec fn ser(self) -> Seq<u8> {
        ser_header(BoxType::MoofBox, self.spec_size()) + self.mfhd.ser() + cat_trafs(self.trafs)
    }
}

/// One step of the container walk: what decoding children from `pos` to the
/// container's declared `end` yields, given the slots accumulated so far.
#[verifier::opaque]
pub open spec fn parse_moof_children(
    data: Seq<u8>,
    pos: int,
    end: int,
    mfhd: Option<MfhdView>,
    trafs: Seq<TrafView>,
) -> Result<MoofView, Error>
    decreases end - pos,
{
    if pos >= end {
        match mfhd {
            Some(h) => Ok(MoofView { mfhd: h, trafs }),
            None => Err(Error::BoxNotFound(BoxType::MfhdBox)),
        }
    } else {
        match parse_header(data, pos) {
            Err(e) => Err(e),
            Ok((name, size, hpos)) => {
                let child_end = hpos - 8 + size;
                let next = if child_end < end {
                    child_end
                } else {
                    end
                };
                match name {
                    BoxType::MfhdBox => match parse_mfhd(data, hpos, size as int) {
                        Err(e) => Err(e),
                        Ok(b) => parse_moof_children(data, next, end, Some(b), trafs),
                    },
                    BoxType::TrafBox => match parse_traf(data, hpos, size as int) {
                        Err(e) => Err(e),
                        Ok(b) => parse_moof_children(data, next, end, mfhd, trafs.push(b)),
                    },
                    _ => {
                        if child_end > data.len() {
                            Err(Error::Truncated)
                        } else {
                            parse_moof_children(data, next, end, mfhd, trafs)
                        }
                    },
                }
            },
        }
    }
}

/// What decoding an outer fragment container body yields: the walk over its
/// children up to the declared end, the cursor left exactly there.
pub open spec fn parse_moof(data: Seq<u8>, pos: int, size: int) -> Result<MoofView, Error> {
    let end = pos - 8 + size;
    if end > data.len() {
        Err(Error::Truncated)
    } else {
        parse_moof_children(data, pos, end, None, Seq::empty())
    }
}

impl MoofBox {
    /// This box's type tag.
    pub fn get_type(&self) -> (t: BoxType)
        ensures
            t == BoxType::MoofBox,
    {
        BoxType::MoofBox
    }

    /// This box's total encoded size: header plus the sum of the children's
    /// current sizes, recomputed on demand and never cached.
    pub fn get_size(&self) -> (s: u64)
        requires
            self@.wf(),
        ensures
            s == self@.spec_size(),
    {
        let mut size = HEADER_SIZE + self.mfhd.box_size();
        let mut i: usize = 0;
        let m = self.trafs.len();
        while i < m
            invariant
                i <= m,
                m == self.trafs@.len(),
                self@.wf(),
                size == 8 + self.mfhd@.spec_size() + sum_traf_sizes(
                    trafs_view(self.trafs@).subrange(0, i as int),
                ),
            decreases m - i,
        {
            proof {
                let tv = trafs_view(self.trafs@);
                assert(tv.subrange(0, i + 1) =~= tv.subrange(0, i as int).push(tv[i as int]));
                lemma_sum_trafs_push(tv.subrange(0, i as int), tv[i as int]);
                lemma_sum_trafs_prefix_le(tv, i + 1);
                lemma_sum_trafs_nonneg(tv.subrange(0, i as int));
            }
            size += self.trafs[i].box_size();
            i = i + 1;
        }
        proof {
            assert(trafs_view(self.trafs@).subrange(0, m as int) =~= trafs_view(self.trafs@));
        }
        size
    }

    /// This box's type tag.
    pub fn box_type(&self) -> (t: BoxType)
        ensures
            t == BoxType::MoofBox,
    {
        self.get_type()
    }

    /// This box's total encoded size.
    pub fn box_size(&self) -> (s: u64)
        requires
            self@.wf(),
        ensures
            s == self@.spec_size(),
    {
        self.get_size()
    }

    /// A short human-readable line about this box: the number of inner
    /// fragment children it holds.
    pub fn summary(&self) -> (r: Result<String, Error>)
        ensures
            r matches Ok(s) && s@ == "trafs="@ + dec_rep(self@.trafs.len() as int),
    {
        let mut s = String::new();
        s.append("trafs=");
        push_dec(&mut s, self.trafs.len() as u64);
        Ok(s)
    }

    /// Decodes an outer fragment container body: walks child boxes until the
    /// declared end, filling the movie-fragment-header slot, appending each
    /// inner fragment child in order, skipping unrecognized children, and
    /// failing if the mandatory movie-fragment-header child never appeared.
    /// The cursor stands just past the header and is left exactly at the
    /// declared end.
    #[verifier::rlimit(100)]
    pub fn read_box(data: &[u8], pos: usize, size: u64) -> (r: Result<(MoofBox, usize), Error>)
        requires
            8 <= pos <= data@.len(),
            8 <= size,
        ensures
            match r {
                Ok((b, p)) => {
                    &&& parse_moof(data@, pos as int, size as int) == Ok::<MoofView, Error>(b@)
                    &&& p == pos - 8 + size
                    &&& p <= data@.len()
                },
                Err(e) => parse_moof(data@, pos as int, size as int) == Err::<MoofView, Error>(e),
            },
    {
        let n = data.len();
        if size - 8 > (n - pos) as u64 {
            return Err(Error::Truncated);
        }
        let end = pos + (size - 8) as usize;
        let mut mfhd: Option<MfhdBox> = None;
        let mut trafs: Vec<TrafBox> = Vec::new();
        let mut cur: usize = pos;
        proof {
            assert(trafs_view(trafs@) =~= Seq::<TrafView>::empty());
        }
        while cur < end
            invariant
                8 <= pos <= cur,
                cur <= data@.len(),
                end == pos - 8 + size,
                end <= data@.len(),
                parse_moof_children(data@, pos as int, end as int, None, Seq::empty())
                    == parse_moof_children(
                    data@,
                    if cur < end {
                        cur as int
                    } else {
                        end as int
                    },
                    end as int,
                    opt_mfhd_view(mfhd),
                    trafs_view(trafs@),
                ),
            decreases
                    if cur < end {
                        end - cur
                    } else {
                        0int
                    },
        {
            let ghost c0 = cur as int;
            let ghost o_mfhd = opt_mfhd_view(mfhd);
            let ghost o_trafs = trafs_view(trafs@);
            let ghost walk0 = parse_moof_children(data@, c0, end as int, o_mfhd, o_trafs);
            let (header, hpos) = match BoxHeader::read(data, cur) {
                Ok(h) => h,
                Err(e) => {
                    proof {
                        reveal(parse_moof_children);
                        assert(walk0 == Err::<MoofView, Error>(e));
                    }
                    return Err(e);
                },
            };
            match header.name {
                BoxType::MfhdBox => {
                    let (b, p) = match MfhdBox::read_box(data, hpos, header.size) {
                        Ok(x) => x,
                        Err(e) => {
                            proof {
                                reveal(parse_moof_children);
                                assert(walk0 == Err::<MoofView, Error>(e));
                            }
                            return Err(e);
                        },
                    };
                    mfhd = Some(b);
                    cur = p;
                    proof {
                        reveal(parse_moof_children);
                        let next = if cur < end {
                            cur as int
                        } else {
                            end as int
                        };
                        assert(walk0 == parse_moof_children(
                            data@,
                            next,
                            end as int,
                            Some(b@),
                            o_trafs,
                        ));
                    }
                },
                BoxType::TrafBox => {
                    let (b, p) = match TrafBox::read_box(data, hpos, header.size) {
                        Ok(x) => x,
                        Err(e) => {
                            proof {
                                reveal(parse_moof_children);
                                assert(walk0 == Err::<MoofView, Error>(e));
                            }
                            return Err(e);
                        },
                    };
                    let ghost bv = b@;
                    trafs.push(b);
                    cur = p;
                    proof {
                        reveal(parse_moof_children);
                        assert(trafs_view(trafs@) =~= o_trafs.push(bv));
                        let next = if cur < end {
                            cur as int
                        } else {
                            end as int
                        };
                        assert(walk0 == parse_moof_children(
                            data@,
                            next,
                            end as int,
                            o_mfhd,
                            o_trafs.push(bv),
                        ));
                    }
                },
                _ => {
                    let p = match skip_box(data, hpos, header.size) {
                        Ok(x) => x,
                        Err(e) => {
                            proof {
                                reveal(parse_moof_children);
                                assert(walk0 == Err::<MoofView, Error>(e));
                            }
                            return Err(e);
                        },
                    };
                    cur = p;
                    proof {
                        reveal(parse_moof_children);
                        let next = if cur < end {
                            cur as int
                        } else {
                            end as int
                        };
                        assert(walk0 == parse_moof_children(
                            data@,
                            next,
                            end as int,
                            o_mfhd,
                            o_trafs,
                        ));
                    }
                },
            }
        }
        proof {
            reveal(parse_moof_children);
        }
        match mfhd {
            Some(h) => Ok((MoofBox { mfhd: h, trafs }, end)),
            None => Err(Error::BoxNotFound(BoxType::MfhdBox)),
        }
    }

    /// Encodes this container: header with the freshly computed total size,
    /// the movie-fragment-header child, then each inner fragment child in
    /// original order.  Returns the number of bytes written, which equals
    /// the box's computed size.
    #[verifier::rlimit(100)]
    pub fn write_box(&self, out: &mut Vec<u8>) -> (r: Result<u64, Error>)
        requires
            self@.wf(),
        ensures
            final(out)@ == old(out)@ + self@.ser(),
            final(out)@.len() == old(out)@.len() + self@.spec_size(),
            r == Ok::<u64, Error>(self@.spec_size() as u64),
    {
        let size = self.box_size();
        let header = BoxHeader::new(self.get_type(), size);
        let _ = header.write(out)?;
        let _ = self.mfhd.write_box(out)?;
        let ghost mid = out@;
        let mut i: usize = 0;
        let m = self.trafs.len();
        proof {
            assert(trafs_view(self.trafs@).subrange(0, 0) =~= Seq::<TrafView>::empty());
        }
        while i < m
            invariant
                i <= m,
                m == self.trafs@.len(),
                self@.wf(),
                out@ == mid + cat_trafs(trafs_view(self.trafs@).subrange(0, i as int)),
            decreases m - i,
        {
            proof {
                assert(trafs_view(self.trafs@)[i as int] == self.trafs@[i as int]@);
                assert(trafs_view(self.trafs@)[i as int].wf());
            }
            let _ = self.trafs[i].write_box(out)?;
            i = i + 1;
            proof {
                let tv = trafs_view(self.trafs@);
                assert(tv.subrange(0, i as int) =~= tv.subrange(0, i - 1).push(tv[i - 1]));
                lemma_cat_trafs_push(tv.subrange(0, i - 1), tv[i - 1]);
                assert(out@ =~= mid + cat_trafs(tv.subrange(0, i as int)));
            }
        }
        proof {
            let tv = trafs_view(self.trafs@);
            assert(tv.subrange(0, m as int) =~= tv);
            lemma_cat_trafs_len(tv);
            assert(final(out)@ =~= old(out)@ + self@.ser());
        }
        Ok(size)
    }
}

/// Walking a run of encoded inner fragment containers from `pos` appends
/// each of them, in order, to the accumulated list, and ends at the
/// container end with the mandatory-child slot unchanged.
proof fn lemma_moof_walk(
    data: Seq<u8>,
    pos: int,
    end: int,
    s: Seq<TrafView>,
    mfhd: Option<MfhdView>,
    acc: Seq<TrafView>,
)
    requires
        forall|i: int| 0 <= i < s.len() ==> (#[trigger] s[i]).wf(),
        8 <= pos,
        bytes_match(data, pos, cat_trafs(s)),
        pos + cat_trafs(s).len() == end,
        end <= data.len(),
    ensures
        parse_moof_children(data, pos, end, mfhd, acc) == (match mfhd {
            Some(h) => Ok::<MoofView, Error>(MoofView { mfhd: h, trafs: acc + s }),
            None => Err::<MoofView, Error>(Error::BoxNotFound(BoxType::MfhdBox)),
        }),
    decreases s.len(),
{
    lemma_cat_trafs_len(s);
    lemma_sum_trafs_nonneg(s);
    if s.len() == 0 {
        assert(pos == end);
        assert(acc + s =~= acc);
        assert(parse_moof_children(data, pos, end, mfhd, acc) == (match mfhd {
            Some(h) => Ok::<MoofView, Error>(MoofView { mfhd: h, trafs: acc + s }),
            None => Err::<MoofView, Error>(Error::BoxNotFound(BoxType::MfhdBox)),
        })) by {
            reveal(parse_moof_children);
        }
    } else {
        let t = s[0];
        let rest = s.subrange(1, s.len() as int);
        lemma_traf_ser_len(t);
        lemma_cat_trafs_len(rest);
        lemma_sum_trafs_nonneg(rest);
        lemma_bytes_match_concat(data, pos, t.ser(), cat_trafs(rest));
        lemma_round_trip_traf(data, pos, t);
        let p2 = pos + t.spec_size();
        lemma_moof_walk(data, p2, end, rest, mfhd, acc.push(t));
        assert(parse_moof_children(data, pos, end, mfhd, acc) == parse_moof_children(
            data,
            p2,
            end,
            mfhd,
            acc.push(t),
        )) by {
            reveal(parse_moof_children);
        }
        assert(acc.push(t) + rest =~= acc + s);
    }
}

/// Round trip for the outer fragment container: decoding its own encoding
/// yields the header it was written with and the same value, every inner
/// fragment child in its original position.
pub proof fn lemma_round_trip_moof(data: Seq<u8>, pos: int, v: MoofView)
    requires
        v.wf(),
        bytes_match(data, pos, v.ser()),
    ensures
        parse_header(data, pos) == Ok::<_, Error>((
            BoxType::MoofBox,
            v.spec_size() as u64,
            pos + 8,
        )),
        parse_moof(data, pos + 8, v.spec_size()) == Ok::<MoofView, Error>(v),
{
    let hdr = ser_header(BoxType::MoofBox, v.spec_size());
    let s1 = v.mfhd.ser();
    let s2 = cat_trafs(v.trafs);
    lemma_cat_trafs_len(v.trafs);
    lemma_sum_trafs_nonneg(v.trafs);
    lemma_bytes_match_concat(data, pos, hdr + s1, s2);
    lemma_bytes_match_concat(data, pos, hdr, s1);
    crate::header::lemma_parse_header_of_ser(data, pos, BoxType::MoofBox, v.spec_size());
    let end = pos + v.spec_size();
    let p1 = pos + 8;
    let p2 = p1 + v.mfhd.spec_size();
    lemma_round_trip_mfhd(data, p1, v.mfhd);
    assert(parse_moof_children(data, p1, end, None, Seq::empty()) == parse_moof_children(
        data,
        p2,
        end,
        Some(v.mfhd),
        Seq::empty(),
    )) by {
        reveal(parse_moof_children);
    }
    lemma_moof_walk(data, p2, end, v.trafs, Some(v.mfhd), Seq::empty());
    assert(Seq::<TrafView>::empty() + v.trafs =~= v.trafs);
}

} // verus!
