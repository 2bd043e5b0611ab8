//! Error kinds surfaced by the box codec.
//!
//! Every failure aborts the decode or encode of the box that raised it and
//! propagates unchanged to the caller; nothing is recovered or retried
//! internally.

use vstd::prelude::*;

use crate::types::BoxType;

verus! {

/// A terminal failure of one decode or encode operation.
#[derive(Debug, Clone, Copy, PartialEq, Eq)]
pub enum Error {
    /// The stream ended before the declared length was satisfied.
    Truncated,
    /// A container was decoded to its declared end without finding its
    /// mandatory child; carries the missing child's type tag.
    BoxNotFound(BoxType),
    /// A field or size value outside the domain the format allows, such as a
    /// declared box size smaller than the box's own header.
    Malformed,
}

} // verus!
