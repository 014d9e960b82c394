//! The ways a dump can fail.
use vstd::prelude::*;

verus! {

/// Why a dump did not complete.
#[derive(Clone, Copy, Debug, PartialEq, Eq, Structural)]
pub enum HdError {
    /// The input path does not exist.
    NotFound,
    /// The requested offset lies beyond the end of the input.
    RangeError,
    /// A read did not deliver the bytes that were asked for.
    IoError,
    /// A line longer than sixteen bytes reached the renderer.
    FormatError,
}

} // verus!
