//! What can go wrong while a layout is built or re-wrapped.

use vstd::prelude::*;

verus! {

/// Failures of the layout engine.
#[derive(Clone, Copy, Debug, PartialEq, Eq, Structural)]
pub enum Error {
    /// The wrap width is negative or not a number.
    InvalidWidth,
    /// The shaper reported line starts that do not fall on character
    /// boundaries of the text, in ascending order from its beginning.
    InternalOffsetMismatch,
}

impl Error {
    /// A short description of the failure.
    pub fn message(&self) -> (s: &'static str)
        ensures
            s@ == (match *self {
                Error::InvalidWidth => "wrap width is negative or not a number"@,
                Error::InternalOffsetMismatch => "error calculating utf8 offsets"@,
            }),
    {
        match self {
            Error::InvalidWidth => "wrap width is negative or not a number",
            Error::InternalOffsetMismatch => "error calculating utf8 offsets",
        }
    }
}

} // verus!
