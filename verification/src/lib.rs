//! Codec for the hierarchical binary "box" structure of ISO-base-media-family
//! container formats: length-prefixed, typed, nested records decoded from byte
//! streams into typed values and re-encoded byte-identically.

pub mod error;
pub mod types;
pub mod bytes;
pub mod header;
pub mod mdat;
pub mod mfhd;
pub mod tfdt;
pub mod tfhd;
pub mod trun;
pub mod traf;
pub mod moof;
pub mod text;
pub mod laws;
