use vstd::prelude::*;

verus! {

/// Failures of the textual grammar and of validated construction.
///
/// Every variant is deterministic in the input: parsing and construction
/// never fail for transient reasons.
#[derive(Debug, Clone, PartialEq, Eq)]
pub enum ProgramError {
    /// No production of the grammar matches the input.
    NoMatch,
    /// A prefix of the input was parsed, but the given remainder is not empty.
    Remainder(String),
    /// A numeric literal does not fit in 32 unsigned bits.
    Overflow,
    /// An identifier is longer than one field element can carry.
    IdentifierTooLong,
    /// An array type must have at least one element.
    EmptyArray,
    /// An array type must have at most `MAX_ARRAY_ENTRIES` elements.
    TooManyElements,
}

/// Failures of the binary contract: decoding, or an integrity check on a
/// decoded value.
#[derive(Debug, Clone, Copy, PartialEq, Eq, Structural)]
pub enum SerializationError {
    /// The byte source ended before the value was complete.
    NotEnoughBytes,
    /// The bytes do not encode a well-formed value.
    InvalidData,
    /// The flag bits stored alongside a value match no known bitmask.
    UnexpectedFlags,
}

} // verus!
