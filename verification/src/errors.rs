use vstd::prelude::*;

verus! {

/// The ways in which parsing a notation string, or querying an interval,
/// can fail.
#[derive(Clone, Copy, Debug, PartialEq, Eq, Structural)]
pub enum RangeError {
    /// The text does not match the notation grammar.
    InvalidFormat,
    /// The grammar matched but a bound number does not fit in `i32`.
    InvalidNumber,
    /// The grammar matched but the first bound is not below the second.
    InvalidRange,
    /// A query that needs at least one point was given none.
    EmptyInput,
    /// The interval covers no integer at all.
    EmptyRange,
}

} // verus!
