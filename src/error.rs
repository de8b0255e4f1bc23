//! Why a request is refused. Every variant is a client error.
use vstd::prelude::*;

verus! {

#[derive(Debug, Clone, Copy, PartialEq, Eq, Structural)]
pub enum RequestError {
    /// A path segment is not the decimal text of a signed 64-bit integer.
    InvalidSegment,
    /// The result does not fit in a signed 64-bit integer.
    Overflow,
    /// The contest has no contestants.
    EmptyContest,
    /// A contestant's speed is not a number.
    SpeedIsNan,
    /// The requested window reaches past the end of the payload.
    OutOfBounds,
    /// Chunks of size zero were asked for.
    ZeroSplit,
}

} // verus!
