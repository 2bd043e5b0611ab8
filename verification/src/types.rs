//! The box type registry: a closed tag set over 4-character codes with an
//! explicit escape for unknown codes.
//!
//! Every registered kind maps to a distinct tag; a code outside the registered
//! set maps to [`BoxType::UnknownBox`] carrying the raw code, so an
//! unrecognized box can still be skipped and identified.

use vstd::prelude::*;

verus! {

/// 4-character code `mdat`.
pub const FOURCC_MDAT: u32 = 0x6d646174;
/// 4-character code `moof`.
pub const FOURCC_MOOF: u32 = 0x6d6f6f66;
/// 4-character code `mfhd`.
pub const FOURCC_MFHD: u32 = 0x6d666864;
/// 4-character code `traf`.
pub const FOURCC_TRAF: u32 = 0x74726166;
/// 4-character code `tfhd`.
pub const FOURCC_TFHD: u32 = 0x74666864;
/// 4-character code `tfdt`.
pub const FOURCC_TFDT: u32 = 0x74666474;
/// 4-character code `trun`.
pub const FOURCC_TRUN: u32 = 0x7472756e;
/// 4-character code `uuid`, the reserved extended-type sentinel.
pub const FOURCC_UUID: u32 = 0x75756964;

/// The logical kind of a box, resolved from its 4-character type code.
#[derive(Debug, Clone, Copy, PartialEq, Eq, Structural)]
pub enum BoxType {
    MdatBox,
    MoofBox,
    MfhdBox,
    TrafBox,
    TfhdBox,
    TfdtBox,
    TrunBox,
    /// A code outside the registered set, preserved verbatim.
    UnknownBox(u32),
}

/// The 4-character code a tag is written as on the wire.
pub open spec fn spec_fourcc_of(t: BoxType) -> u32 {
    match t {
        BoxType::MdatBox => FOURCC_MDAT,
        BoxType::MoofBox => FOURCC_MOOF,
        BoxType::MfhdBox => FOURCC_MFHD,
        BoxType::TrafBox => FOURCC_TRAF,
        BoxType::TfhdBox => FOURCC_TFHD,
        BoxType::TfdtBox => FOURCC_TFDT,
        BoxType::TrunBox => FOURCC_TRUN,
        BoxType::UnknownBox(code) => code,
    }
}

/// The tag a raw 4-character code resolves to; total and pure.
pub open spec fn spec_type_of(code: u32) -> BoxType {
    if code == FOURCC_MDAT {
        BoxType::MdatBox
    } else if code == FOURCC_MOOF {
        BoxType::MoofBox
    } else if code == FOURCC_MFHD {
        BoxType::MfhdBox
    } else if code == FOURCC_TRAF {
        BoxType::TrafBox
    } else if code == FOURCC_TFHD {
        BoxType::TfhdBox
    } else if code == FOURCC_TFDT {
        BoxType::TfdtBox
    } else if code == FOURCC_TRUN {
        BoxType::TrunBox
    } else {
        BoxType::UnknownBox(code)
    }
}

/// Resolves a raw 4-character code to its tag.
pub fn type_tag_of(code: u32) -> (t: BoxType)
    ensures
        t == spec_type_of(code),
{
    if code == FOURCC_MDAT {
        BoxType::MdatBox
    } else if code == FOURCC_MOOF {
        BoxType::MoofBox
    } else if code == FOURCC_MFHD {
        BoxType::MfhdBox
    } else if code == FOURCC_TRAF {
        BoxType::TrafBox
    } else if code == FOURCC_TFHD {
        BoxType::TfhdBox
    } else if code == FOURCC_TFDT {
        BoxType::TfdtBox
    } else if code == FOURCC_TRUN {
        BoxType::TrunBox
    } else {
        BoxType::UnknownBox(code)
    }
}

/// The 4-character code a tag is written as on the wire.
pub fn fourcc_of(t: BoxType) -> (code: u32)
    ensures
        code == spec_fourcc_of(t),
{
    match t {
        BoxType::MdatBox => FOURCC_MDAT,
        BoxType::MoofBox => FOURCC_MOOF,
        BoxType::MfhdBox => FOURCC_MFHD,
        BoxType::TrafBox => FOURCC_TRAF,
        BoxType::TfhdBox => FOURCC_TFHD,
        BoxType::TfdtBox => FOURCC_TFDT,
        BoxType::TrunBox => FOURCC_TRUN,
        BoxType::UnknownBox(code) => code,
    }
}

/// The registry is a faithful pairing of codes and tags: resolving a code and
/// writing the resolved tag back gives the original code, and a code that
/// resolves to the unknown escape carries that code verbatim.
pub proof fn lemma_registry_round_trip(code: u32)
    ensures
        spec_fourcc_of(spec_type_of(code)) == code,
        spec_type_of(code) matches BoxType::UnknownBox(c) ==> c == code,
{
}

} // verus!
