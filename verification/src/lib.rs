//! Integer intervals written in bracket notation, e.g. `"[2,6)"`.
//!
//! A [`Range`](interval::Range) is parsed from a notation string and offers
//! membership, enumeration, containment, overlap and equality tests over the
//! integers it covers.

pub mod errors;
pub mod interval;
pub mod notation;

pub use crate::errors::RangeError;
pub use crate::interval::Range;
