//! Container-level laws: what the child walk of the two composite boxes
//! yields for any body assembled from encoded children and skippable
//! strangers — in particular, that a missing mandatory child fails exactly
//! when no occurrence of it is present, and that inserting an unrecognized
//! box anywhere between children never changes the decoded value.

use vstd::prelude::*;

use crate::bytes::{be32_at, be64_at, bytes_match, lemma_bytes_match_concat};
use crate::error::Error;
use crate::header::parse_header;
use crate::mdat::{parse_mdat, MdatView};
use crate::mfhd::MfhdView;
use crate::moof::{parse_moof_children, MoofView};
use crate::tfdt::{lemma_round_trip_tfdt, parse_tfdt, TfdtView};
use crate::tfhd::{lemma_round_trip_tfhd, TfhdView};
use crate::traf::{lemma_round_trip_traf, lemma_traf_ser_len, parse_traf_children, TrafView};
use crate::trun::{lemma_round_trip_trun, lemma_trun_ser_len, TrunView};
use crate::types::BoxType;

verus! {

/// A standalone byte span that any container walk consumes without
/// interpreting: it starts with a well-formed header whose resolved tag is
/// recognized by neither container here, and spans exactly its declared
/// extent.
pub open spec fn skippable(chunk: Seq<u8>) -> bool {
    match parse_header(chunk, 0) {
        Ok((name, size, hpos)) => {
            &&& hpos - 8 + size == chunk.len()
            &&& name != BoxType::TfhdBox
            &&& name != BoxType::TfdtBox
            &&& name != BoxType::TrunBox
            &&& name != BoxType::MfhdBox
            &&& name != BoxType::TrafBox
        },
        Err(_) => false,
    }
}

/// A header parse looks only at the bytes of its own span, so a header that
/// parses at the start of a standalone chunk parses the same way wherever
/// that chunk occurs.
proof fn lemma_parse_header_local(data: Seq<u8>, pos: int, chunk: Seq<u8>)
    requires
        bytes_match(data, pos, chunk),
        parse_header(chunk, 0) is Ok,
        (parse_header(chunk, 0)->Ok_0).2 - 8 + (parse_header(chunk, 0)->Ok_0).1 >= chunk.len(),
    ensures
        ({
            let (name, size, hpos) = parse_header(chunk, 0)->Ok_0;
            parse_header(data, pos) == Ok::<_, Error>((name, size, pos + hpos))
        }),
{
    let (name, size, hpos) = parse_header(chunk, 0)->Ok_0;
    assert(8 <= chunk.len());
    assert forall|k: int| 0 <= k < chunk.len() implies data[pos + k] == chunk[k] by {}
    assert(be32_at(data, pos) == be32_at(chunk, 0));
    assert(be32_at(data, pos + 4) == be32_at(chunk, 4));
    if be32_at(chunk, 0) == 1 {
        assert(16 <= chunk.len());
        assert(be64_at(data, pos + 8) == be64_at(chunk, 8));
    }
}

/// One child of the inner fragment container's body: an encoded recognized
/// child, or a skippable stranger.
pub ghost enum TrafChild {
    Tfhd(TfhdView),
    Tfdt(TfdtView),
    Trun(TrunView),
    Skipped(Seq<u8>),
}

impl TrafChild {
    /// The bytes this child contributes to the container body.
    pub open spec fn bytes(self) -> Seq<u8> {
        match self {
            TrafChild::Tfhd(b) => b.ser(),
            TrafChild::Tfdt(b) => b.ser(),
            TrafChild::Trun(b) => b.ser(),
            TrafChild::Skipped(s) => s,
        }
    }

    /// A recognized child is well formed; a stranger is skippable.
    pub open spec fn wf(self) -> bool {
        match self {
            TrafChild::Tfhd(b) => b.wf(),
            TrafChild::Tfdt(b) => b.wf(),
            TrafChild::Trun(b) => b.wf(),
            TrafChild::Skipped(s) => skippable(s),
        }
    }

    /// How one child updates the three slots of the walk: a recognized child
    /// fills (or refills) its slot, a stranger changes nothing.
    pub open spec fn step(
        self,
        slots: (Option<TfhdView>, Option<TfdtView>, Option<TrunView>),
    ) -> (Option<TfhdView>, Option<TfdtView>, Option<TrunView>) {
        match self {
            TrafChild::Tfhd(b) => (Some(b), slots.1, slots.2),
            TrafChild::Tfdt(b) => (slots.0, Some(b), slots.2),
            TrafChild::Trun(b) => (slots.0, slots.1, Some(b)),
            TrafChild::Skipped(_) => slots,
        }
    }
}

/// The bytes of a child list, back to back.
pub open spec fn cat_traf_children(cs: Seq<TrafChild>) -> Seq<u8>
    decreases cs.len(),
{
    if cs.len() == 0 {
        Seq::empty()
    } else {
        cs[0].bytes() + cat_traf_children(cs.subrange(1, cs.len() as int))
    }
}

/// The slots after walking a child list, starting from the given slots.
pub open spec fn fold_traf_children(
    cs: Seq<TrafChild>,
    slots: (Option<TfhdView>, Option<TfdtView>, Option<TrunView>),
) -> (Option<TfhdView>, Option<TfdtView>, Option<TrunView>)
    decreases cs.len(),
{
    if cs.len() == 0 {
        slots
    } else {
        fold_traf_children(cs.subrange(1, cs.len() as int), cs[0].step(slots))
    }
}

/// What the walk's final slots decide: the decoded container if the
/// mandatory child was seen, the required-child-missing failure otherwise.
pub open spec fn traf_outcome(
    slots: (Option<TfhdView>, Option<TfdtView>, Option<TrunView>),
) -> Result<TrafView, Error> {
    match slots.0 {
        Some(h) => Ok(TrafView { tfhd: h, tfdt: slots.1, trun: slots.2 }),
        None => Err(Error::BoxNotFound(BoxType::TfhdBox)),
    }
}

/// Walking an inner-container body assembled from any list of well-formed
/// children and skippable strangers yields exactly the fold of that list:
/// every recognized child lands in its slot, every stranger is consumed and
/// ignored, and the walk fails with the required-child-missing error exactly
/// when the walk ends with no track-fragment-header seen.
#[verifier::rlimit(100)]
#[verifier::spinoff_prover]
pub proof fn lemma_traf_walk(
    data: Seq<u8>,
    pos: int,
    cs: Seq<TrafChild>,
    slots: (Option<TfhdView>, Option<TfdtView>, Option<TrunView>),
)
    requires
        forall|i: int| 0 <= i < cs.len() ==> (#[trigger] cs[i]).wf(),
        8 <= pos,
        bytes_match(data, pos, cat_traf_children(cs)),
        pos + cat_traf_children(cs).len() <= data.len(),
    ensures
        parse_traf_children(
            data,
            pos,
            pos + cat_traf_children(cs).len(),
            slots.0,
            slots.1,
            slots.2,
        ) == traf_outcome(fold_traf_children(cs, slots)),
    decreases cs.len(),
{
    let end = pos + cat_traf_children(cs).len();
    if cs.len() == 0 {
        assert(parse_traf_children(data, pos, end, slots.0, slots.1, slots.2) == traf_outcome(
            slots,
        )) by {
            reveal(parse_traf_children);
        }
    } else {
        let c = cs[0];
        let rest = cs.subrange(1, cs.len() as int);
        lemma_bytes_match_concat(data, pos, c.bytes(), cat_traf_children(rest));
        let p2 = pos + c.bytes().len();
        match c {
            TrafChild::Tfhd(b) => {
                lemma_round_trip_tfhd(data, pos, b);
                assert(parse_traf_children(data, pos, end, slots.0, slots.1, slots.2)
                    == parse_traf_children(data, p2, end, Some(b), slots.1, slots.2)) by {
                    reveal(parse_traf_children);
                }
            },
            TrafChild::Tfdt(b) => {
                lemma_round_trip_tfdt(data, pos, b);
                assert(parse_traf_children(data, pos, end, slots.0, slots.1, slots.2)
                    == parse_traf_children(data, p2, end, slots.0, Some(b), slots.2)) by {
                    reveal(parse_traf_children);
                }
            },
            TrafChild::Trun(b) => {
                lemma_round_trip_trun(data, pos, b);
                lemma_trun_ser_len(b);
                assert(parse_traf_children(data, pos, end, slots.0, slots.1, slots.2)
                    == parse_traf_children(data, p2, end, slots.0, slots.1, Some(b))) by {
                    reveal(parse_traf_children);
                }
            },
            TrafChild::Skipped(s) => {
                lemma_parse_header_local(data, pos, s);
                assert(parse_traf_children(data, pos, end, slots.0, slots.1, slots.2)
                    == parse_traf_children(data, p2, end, slots.0, slots.1, slots.2)) by {
                    reveal(parse_traf_children);
                }
            },
        }
        lemma_traf_walk(data, p2, rest, c.step(slots));
    }
}

/// The walk's mandatory slot ends filled exactly when it started filled or
/// some child of the list is a track-fragment-header.
pub proof fn lemma_fold_traf_mandatory(
    cs: Seq<TrafChild>,
    slots: (Option<TfhdView>, Option<TfdtView>, Option<TrunView>),
)
    ensures
        fold_traf_children(cs, slots).0 is Some <==> (slots.0 is Some || exists|i: int|
            0 <= i < cs.len() && cs[i] is Tfhd),
    decreases cs.len(),
{
    if cs.len() > 0 {
        let rest = cs.subrange(1, cs.len() as int);
        lemma_fold_traf_mandatory(rest, cs[0].step(slots));
        if fold_traf_children(cs, slots).0 is Some {
            if !(slots.0 is Some) && !(cs[0] is Tfhd) {
                let j = choose|j: int| 0 <= j < rest.len() && rest[j] is Tfhd;
                assert(cs[j + 1] is Tfhd);
            }
        }
        if exists|i: int| 0 <= i < cs.len() && cs[i] is Tfhd {
            let i = choose|i: int| 0 <= i < cs.len() && cs[i] is Tfhd;
            if i > 0 {
                assert(rest[i - 1] is Tfhd);
            }
        }
    }
}

/// Strangers never change what a walk decodes: the fold of a child list with
/// a skippable chunk inserted anywhere equals the fold of the list itself.
pub proof fn lemma_fold_traf_skip_inert(
    cs: Seq<TrafChild>,
    k: int,
    u: Seq<u8>,
    slots: (Option<TfhdView>, Option<TfdtView>, Option<TrunView>),
)
    requires
        0 <= k <= cs.len(),
    ensures
        fold_traf_children(cs.insert(k, TrafChild::Skipped(u)), slots) == fold_traf_children(
            cs,
            slots,
        ),
    decreases cs.len(),
{
    let ins = cs.insert(k, TrafChild::Skipped(u));
    if k == 0 {
        assert(ins.subrange(1, ins.len() as int) =~= cs);
    } else {
        let rest = cs.subrange(1, cs.len() as int);
        assert(ins[0] == cs[0]);
        assert(ins.subrange(1, ins.len() as int) =~= rest.insert(
            k - 1,
            TrafChild::Skipped(u),
        ));
        lemma_fold_traf_skip_inert(rest, k - 1, u, cs[0].step(slots));
    }
}

/// One child of the outer fragment container's body.
pub ghost enum MoofChild {
    Mfhd(MfhdView),
    Traf(TrafView),
    Skipped(Seq<u8>),
}

impl MoofChild {
    /// The bytes this child contributes to the container body.
    pub open spec fn bytes(self) -> Seq<u8> {
        match self {
            MoofChild::Mfhd(b) => b.ser(),
            MoofChild::Traf(b) => b.ser(),
            MoofChild::Skipped(s) => s,
        }
    }

    /// A recognized child is well formed; a stranger is skippable.
    pub open spec fn wf(self) -> bool {
        match self {
            MoofChild::Mfhd(b) => b.wf(),
            MoofChild::Traf(b) => b.wf(),
            MoofChild::Skipped(s) => skippable(s),
        }
    }

    /// How one child updates the walk's state.
    pub open spec fn step(
        self,
        slots: (Option<MfhdView>, Seq<TrafView>),
    ) -> (Option<MfhdView>, Seq<TrafView>) {
        match self {
            MoofChild::Mfhd(b) => (Some(b), slots.1),
            MoofChild::Traf(b) => (slots.0, slots.1.push(b)),
            MoofChild::Skipped(_) => slots,
        }
    }
}

/// The bytes of a child list, back to back.
pub open spec fn cat_moof_children(cs: Seq<MoofChild>) -> Seq<u8>
    decreases cs.len(),
{
    if cs.len() == 0 {
        Seq::empty()
    } else {
        cs[0].bytes() + cat_moof_children(cs.subrange(1, cs.len() as int))
    }
}

/// The state after walking a child list, starting from the given state.
pub open spec fn fold_moof_children(
    cs: Seq<MoofChild>,
    slots: (Option<MfhdView>, Seq<TrafView>),
) -> (Option<MfhdView>, Seq<TrafView>)
    decreases cs.len(),
{
    if cs.len() == 0 {
        slots
    } else {
        fold_moof_children(cs.subrange(1, cs.len() as int), cs[0].step(slots))
    }
}

/// What the walk's final state decides.
pub open spec fn moof_outcome(
    slots: (Option<MfhdView>, Seq<TrafView>),
) -> Result<MoofView, Error> {
    match slots.0 {
        Some(h) => Ok(MoofView { mfhd: h, trafs: slots.1 }),
        None => Err(Error::BoxNotFound(BoxType::MfhdBox)),
    }
}

/// Walking an outer-container body assembled from any list of well-formed
/// children and skippable strangers yields exactly the fold of that list:
/// the movie-fragment-header lands in its slot, inner fragment children are
/// appended in order, strangers are consumed and ignored, and the walk fails
/// with the required-child-missing error exactly when no
/// movie-fragment-header was seen.
#[verifier::rlimit(100)]
#[verifier::spinoff_prover]
pub proof fn lemma_moof_walk_mixed(
    data: Seq<u8>,
    pos: int,
    cs: Seq<MoofChild>,
    slots: (Option<MfhdView>, Seq<TrafView>),
)
    requires
        forall|i: int| 0 <= i < cs.len() ==> (#[trigger] cs[i]).wf(),
        8 <= pos,
        bytes_match(data, pos, cat_moof_children(cs)),
        pos + cat_moof_children(cs).len() <= data.len(),
    ensures
        parse_moof_children(data, pos, pos + cat_moof_children(cs).len(), slots.0, slots.1)
            == moof_outcome(fold_moof_children(cs, slots)),
    decreases cs.len(),
{
    let end = pos + cat_moof_children(cs).len();
    if cs.len() == 0 {
        assert(parse_moof_children(data, pos, end, slots.0, slots.1) == moof_outcome(slots)) by {
            reveal(parse_moof_children);
        }
    } else {
        let c = cs[0];
        let rest = cs.subrange(1, cs.len() as int);
        lemma_bytes_match_concat(data, pos, c.bytes(), cat_moof_children(rest));
        let p2 = pos + c.bytes().len();
        match c {
            MoofChild::Mfhd(b) => {
                crate::mfhd::lemma_round_trip_mfhd(data, pos, b);
                assert(parse_moof_children(data, pos, end, slots.0, slots.1)
                    == parse_moof_children(data, p2, end, Some(b), slots.1)) by {
                    reveal(parse_moof_children);
                }
            },
            MoofChild::Traf(b) => {
                lemma_round_trip_traf(data, pos, b);
                lemma_traf_ser_len(b);
                assert(parse_moof_children(data, pos, end, slots.0, slots.1)
                    == parse_moof_children(data, p2, end, slots.0, slots.1.push(b))) by {
                    reveal(parse_moof_children);
                }
            },
            MoofChild::Skipped(s) => {
                lemma_parse_header_local(data, pos, s);
                assert(parse_moof_children(data, pos, end, slots.0, slots.1)
                    == parse_moof_children(data, p2, end, slots.0, slots.1)) by {
                    reveal(parse_moof_children);
                }
            },
        }
        lemma_moof_walk_mixed(data, p2, rest, c.step(slots));
    }
}

/// The walk's mandatory slot ends filled exactly when it started filled or
/// some child of the list is a movie-fragment-header.
pub proof fn lemma_fold_moof_mandatory(cs: Seq<MoofChild>, slots: (Option<MfhdView>, Seq<TrafView>))
    ensures
        fold_moof_children(cs, slots).0 is Some <==> (slots.0 is Some || exists|i: int|
            0 <= i < cs.len() && cs[i] is Mfhd),
    decreases cs.len(),
{
    if cs.len() > 0 {
        let rest = cs.subrange(1, cs.len() as int);
        lemma_fold_moof_mandatory(rest, cs[0].step(slots));
        if fold_moof_children(cs, slots).0 is Some {
            if !(slots.0 is Some) && !(cs[0] is Mfhd) {
                let j = choose|j: int| 0 <= j < rest.len() && rest[j] is Mfhd;
                assert(cs[j + 1] is Mfhd);
            }
        }
        if exists|i: int| 0 <= i < cs.len() && cs[i] is Mfhd {
            let i = choose|i: int| 0 <= i < cs.len() && cs[i] is Mfhd;
            if i > 0 {
                assert(rest[i - 1] is Mfhd);
            }
        }
    }
}

/// Strangers never change what a walk decodes: the fold of a child list with
/// a skippable chunk inserted anywhere equals the fold of the list itself.
pub proof fn lemma_fold_moof_skip_inert(
    cs: Seq<MoofChild>,
    k: int,
    u: Seq<u8>,
    slots: (Option<MfhdView>, Seq<TrafView>),
)
    requires
        0 <= k <= cs.len(),
    ensures
        fold_moof_children(cs.insert(k, MoofChild::Skipped(u)), slots) == fold_moof_children(
            cs,
            slots,
        ),
    decreases cs.len(),
{
    let ins = cs.insert(k, MoofChild::Skipped(u));
    if k == 0 {
        assert(ins.subrange(1, ins.len() as int) =~= cs);
    } else {
        let rest = cs.subrange(1, cs.len() as int);
        assert(ins[0] == cs[0]);
        assert(ins.subrange(1, ins.len() as int) =~= rest.insert(
            k - 1,
            MoofChild::Skipped(u),
        ));
        lemma_fold_moof_skip_inert(rest, k - 1, u, cs[0].step(slots));
    }
}

/// Missing-mandatory-child failure for the inner fragment container: a body
/// holding no track-fragment-header child decodes to the
/// required-child-missing error naming that type, and a body holding at
/// least one decodes successfully — wherever in the body it stands, and
/// whatever strangers stand around it.
pub proof fn lemma_missing_mandatory_child_traf(data: Seq<u8>, pos: int, cs: Seq<TrafChild>)
    requires
        forall|i: int| 0 <= i < cs.len() ==> (#[trigger] cs[i]).wf(),
        8 <= pos,
        bytes_match(data, pos, cat_traf_children(cs)),
        pos + cat_traf_children(cs).len() <= data.len(),
    ensures
        (forall|i: int| 0 <= i < cs.len() ==> !((#[trigger] cs[i]) is Tfhd))
            ==> parse_traf_children(
            data,
            pos,
            pos + cat_traf_children(cs).len(),
            None,
            None,
            None,
        ) == Err::<TrafView, Error>(Error::BoxNotFound(BoxType::TfhdBox)),
        (exists|i: int| 0 <= i < cs.len() && (#[trigger] cs[i]) is Tfhd) ==> parse_traf_children(
            data,
            pos,
            pos + cat_traf_children(cs).len(),
            None,
            None,
            None,
        ) is Ok,
{
    let slots = (None::<TfhdView>, None::<TfdtView>, None::<TrunView>);
    lemma_traf_walk(data, pos, cs, slots);
    lemma_fold_traf_mandatory(cs, slots);
}

/// Missing-mandatory-child failure for the outer fragment container, in the
/// same form.
pub proof fn lemma_missing_mandatory_child_moof(data: Seq<u8>, pos: int, cs: Seq<MoofChild>)
    requires
        forall|i: int| 0 <= i < cs.len() ==> (#[trigger] cs[i]).wf(),
        8 <= pos,
        bytes_match(data, pos, cat_moof_children(cs)),
        pos + cat_moof_children(cs).len() <= data.len(),
    ensures
        (forall|i: int| 0 <= i < cs.len() ==> !((#[trigger] cs[i]) is Mfhd))
            ==> parse_moof_children(
            data,
            pos,
            pos + cat_moof_children(cs).len(),
            None,
            Seq::empty(),
        ) == Err::<MoofView, Error>(Error::BoxNotFound(BoxType::MfhdBox)),
        (exists|i: int| 0 <= i < cs.len() && (#[trigger] cs[i]) is Mfhd) ==> parse_moof_children(
            data,
            pos,
            pos + cat_moof_children(cs).len(),
            None,
            Seq::empty(),
        ) is Ok,
{
    let slots = (None::<MfhdView>, Seq::<TrafView>::empty());
    lemma_moof_walk_mixed(data, pos, cs, slots);
    lemma_fold_moof_mandatory(cs, slots);
}

/// Unknown-box tolerance for the inner fragment container: a body with a
/// skippable stranger inserted at any child boundary decodes to exactly
/// the same value as the body without it.
pub proof fn lemma_unknown_child_tolerated_traf(
    data1: Seq<u8>,
    pos1: int,
    data2: Seq<u8>,
    pos2: int,
    cs: Seq<TrafChild>,
    k: int,
    u: Seq<u8>,
)
    requires
        forall|i: int| 0 <= i < cs.len() ==> (#[trigger] cs[i]).wf(),
        skippable(u),
        0 <= k <= cs.len(),
        8 <= pos1,
        8 <= pos2,
        bytes_match(data1, pos1, cat_traf_children(cs)),
        pos1 + cat_traf_children(cs).len() <= data1.len(),
        bytes_match(data2, pos2, cat_traf_children(cs.insert(k, TrafChild::Skipped(u)))),
        pos2 + cat_traf_children(cs.insert(k, TrafChild::Skipped(u))).len() <= data2.len(),
    ensures
        parse_traf_children(
            data2,
            pos2,
            pos2 + cat_traf_children(cs.insert(k, TrafChild::Skipped(u))).len(),
            None,
            None,
            None,
        ) == parse_traf_children(
            data1,
            pos1,
            pos1 + cat_traf_children(cs).len(),
            None,
            None,
            None,
        ),
{
    let slots = (None::<TfhdView>, None::<TfdtView>, None::<TrunView>);
    let ins = cs.insert(k, TrafChild::Skipped(u));
    assert forall|i: int| 0 <= i < ins.len() implies (#[trigger] ins[i]).wf() by {
        if i < k {
            assert(ins[i] == cs[i]);
        } else if i == k {
            assert(ins[i] == TrafChild::Skipped(u));
        } else {
            assert(ins[i] == cs[i - 1]);
        }
    }
    lemma_traf_walk(data1, pos1, cs, slots);
    lemma_traf_walk(data2, pos2, ins, slots);
    lemma_fold_traf_skip_inert(cs, k, u, slots);
}

/// Unknown-box tolerance for the outer fragment container, in the same
/// form: in particular, an extra child of an unregistered type between two
/// known children changes nothing about the decoded result.
pub proof fn lemma_unknown_child_tolerated_moof(
    data1: Seq<u8>,
    pos1: int,
    data2: Seq<u8>,
    pos2: int,
    cs: Seq<MoofChild>,
    k: int,
    u: Seq<u8>,
)
    requires
        forall|i: int| 0 <= i < cs.len() ==> (#[trigger] cs[i]).wf(),
        skippable(u),
        0 <= k <= cs.len(),
        8 <= pos1,
        8 <= pos2,
        bytes_match(data1, pos1, cat_moof_children(cs)),
        pos1 + cat_moof_children(cs).len() <= data1.len(),
        bytes_match(data2, pos2, cat_moof_children(cs.insert(k, MoofChild::Skipped(u)))),
        pos2 + cat_moof_children(cs.insert(k, MoofChild::Skipped(u))).len() <= data2.len(),
    ensures
        parse_moof_children(
            data2,
            pos2,
            pos2 + cat_moof_children(cs.insert(k, MoofChild::Skipped(u))).len(),
            None,
            Seq::empty(),
        ) == parse_moof_children(
            data1,
            pos1,
            pos1 + cat_moof_children(cs).len(),
            None,
            Seq::empty(),
        ),
{
    let slots = (None::<MfhdView>, Seq::<TrafView>::empty());
    let ins = cs.insert(k, MoofChild::Skipped(u));
    assert forall|i: int| 0 <= i < ins.len() implies (#[trigger] ins[i]).wf() by {
        if i < k {
            assert(ins[i] == cs[i]);
        } else if i == k {
            assert(ins[i] == MoofChild::Skipped(u));
        } else {
            assert(ins[i] == cs[i - 1]);
        }
    }
    lemma_moof_walk_mixed(data1, pos1, cs, slots);
    lemma_moof_walk_mixed(data2, pos2, ins, slots);
    lemma_fold_moof_skip_inert(cs, k, u, slots);
}

/// Size/header consistency for the media-data box, for every successful
/// decode: the declared size read from the stream equals the decoded value's
/// computed size.
pub proof fn lemma_size_header_consistency_mdat(data: Seq<u8>, pos: int, size: int, v: MdatView)
    requires
        0 <= pos,
        8 <= size,
        parse_mdat(data, pos, size) == Ok::<MdatView, Error>(v),
    ensures
        v.spec_size() == size,
{
}

/// Size/header consistency for the decode-time-offset box on streams without
/// trailing padding (a padded body decodes to a value smaller than its
/// declared size, by design): the declared size read from the stream equals
/// the computed size of the freshly decoded value.
pub proof fn lemma_size_header_consistency_tfdt(data: Seq<u8>, pos: int, v: TfdtView)
    requires
        v.wf(),
        bytes_match(data, pos, v.ser()),
    ensures
        parse_header(data, pos) == Ok::<_, Error>((BoxType::TfdtBox, v.spec_size() as u64, pos + 8)),
        parse_tfdt(data, pos + 8, v.spec_size()) == Ok::<TfdtView, Error>(v),
{
    lemma_round_trip_tfdt(data, pos, v);
}

/// Size/header consistency for the inner fragment container on bodies made
/// only of its own children (a body with skipped strangers decodes to a
/// value smaller than its declared size, by design): the declared size read
/// from the stream equals the computed size of the freshly decoded value.
pub proof fn lemma_size_header_consistency_traf(data: Seq<u8>, pos: int, v: TrafView)
    requires
        v.wf(),
        bytes_match(data, pos, v.ser()),
    ensures
        parse_header(data, pos) == Ok::<_, Error>((BoxType::TrafBox, v.spec_size() as u64, pos + 8)),
        crate::traf::parse_traf(data, pos + 8, v.spec_size()) == Ok::<TrafView, Error>(v),
{
    lemma_round_trip_traf(data, pos, v);
}

/// Size/header consistency for the outer fragment container, as for the
/// inner one.
pub proof fn lemma_size_header_consistency_moof(data: Seq<u8>, pos: int, v: MoofView)
    requires
        v.wf(),
        bytes_match(data, pos, v.ser()),
    ensures
        parse_header(data, pos) == Ok::<_, Error>((BoxType::MoofBox, v.spec_size() as u64, pos + 8)),
        crate::moof::parse_moof(data, pos + 8, v.spec_size()) == Ok::<MoofView, Error>(v),
{
    crate::moof::lemma_round_trip_moof(data, pos, v);
}

/// The version-width switch of the decode-time-offset box: the field is 8
/// bytes wide exactly when the version is 1 and 4 bytes wide otherwise, so
/// two values differing only in that version discriminant encode to sizes
/// exactly 4 bytes apart.
pub proof fn lemma_tfdt_version_width(v0: TfdtView, v1: TfdtView)
    requires
        v0.version != 1,
        v1.version == 1,
    ensures
        v0.ser().len() == v0.spec_size() && v0.spec_size() == 16,
        v1.ser().len() == v1.spec_size() && v1.spec_size() == 20,
        v1.spec_size() - v0.spec_size() == 4,
{
}

} // verus!

