use vstd::prelude::*;

verus! {

/// A read went past the end of the buffer.
#[derive(Debug, Copy, Clone, PartialEq, Eq, Structural)]
pub struct OutOfBounds;

/// The ways in which decoding a record can fail.
#[derive(Debug, Copy, Clone, PartialEq, Eq, Structural)]
pub enum Error {
    /// A read exceeds the remaining buffer.
    OutOfBounds,
    /// A malformed length or count, a duplicate header field or a field
    /// value of the wrong size.
    InvalidRecord,
    /// A mandatory header field was never supplied.
    InvalidHeader,
    /// The declared format version is not implemented by this decoder.
    UnsupportedVersion,
}

impl From<OutOfBounds> for Error {
    fn from(e: OutOfBounds) -> (r: Error)
        ensures
            r == Error::OutOfBounds,
    {
        Error::OutOfBounds
    }
}

impl vstd::std_specs::convert::FromSpecImpl<OutOfBounds> for Error {
    open spec fn obeys_from_spec() -> bool {
        true
    }

    open spec fn from_spec(e: OutOfBounds) -> Error {
        Error::OutOfBounds
    }
}

} // verus!
