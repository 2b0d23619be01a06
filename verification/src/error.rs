use vstd::prelude::*;

verus! {

/// The closed set of failure kinds shared by the decoding and encoding
/// drivers. Errors from the underlying pull parser or pull emitter are
/// wrapped once, as text, and flow out unchanged.
#[derive(Debug)]
pub enum Error {
    /// A required element was absent, or the stream ended early.
    ExpectedElement,
    /// Character data was required and something else was found.
    ExpectedString,
    /// The text of a boolean was none of the accepted tokens.
    ExpectedBool,
    /// The text of an integer did not parse in the target width.
    ExpectedInt,
    /// The text of a character was not exactly one character.
    ExpectedChar,
    /// The requested shape cannot be expressed in XML.
    Unsupported,
    /// An error reported by the underlying pull parser.
    ParserError(String),
    /// An error reported by the underlying pull emitter.
    EmitterError(String),
    /// Any other failure, described in text.
    Custom(String),
}

} // verus!
