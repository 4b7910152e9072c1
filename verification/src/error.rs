//! Error type shared by all tag parsers and serializers.

use vstd::prelude::*;

verus! {

/// All errors that the tag codecs can report.
#[derive(Debug, Clone, PartialEq)]
pub enum Error {
    /// The byte layout of a tag did not match its format.
    ParseError,
    /// The requested tag type has no adapter for the requested tag format.
    UnsupportedTagFormat,
    /// The forgiving base64 decoder still rejected the input.
    Base64DecodeError,
    /// The decoded envelope did not start with the expected header.
    EnvelopeParseError,
    /// The decoded envelope carried a different tag name than expected.
    EnvelopeNameMismatch { expected: String, actual: String },
    /// A write was requested for a container slot that holds no tag.
    NoTagDataAvailable,
}

} // verus!
