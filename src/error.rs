//! Errors of the photo pipeline.

use vstd::prelude::*;

verus! {

/// Why an image container could not be parsed or rewritten.
#[derive(Clone, Copy, Debug, PartialEq, Eq, Structural)]
pub enum ParseError {
    /// The stream does not start with the start-of-image marker.
    WrongSignature,
    /// A segment was cut short.
    Truncated,
    /// A checksum did not match.
    BadCrc,
    /// The container has too few segments to receive a metadata segment.
    TooFewSegments,
    /// A segment's marker carries no length, so it could not be written back
    /// unchanged.
    UnsupportedMarker,
}

/// Failures of the photo pipeline.
#[derive(Clone, Copy, Debug, PartialEq, Eq, Structural)]
pub enum MetaError {
    /// The image bytes are not a well-formed container.
    Parse(ParseError),
    /// The metadata block would not fit the container's length fields.
    Encode,
    /// The timestamp lies outside the years 0 to 9999.
    TimestampOutOfRange,
}

} // verus!
