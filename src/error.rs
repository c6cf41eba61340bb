use vstd::prelude::*;

verus! {

/// Why a byte stream or a resource chunk could not be decoded.
#[derive(Clone, Copy, Debug, PartialEq, Eq, Structural)]
pub enum ParseError {
    /// The whole input is shorter than one chunk header.
    InputTooSmall,
    /// The four identifier bytes are not valid UTF-8.
    InvalidEncoding,
    /// The identifier is not four word characters.
    InvalidId,
    /// The size field is negative read either way round.
    NegativeSize,
    /// A chunk runs past the end of the input: its header is cut short,
    /// or its declared payload is longer than what remains.
    TruncatedPayload,
    /// A resource payload is not a whole number of records.
    MalformedResource,
    /// The chunk that a resource lives in is absent.
    MissingChunk,
}

} // verus!
