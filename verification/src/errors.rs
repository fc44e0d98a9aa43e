use vstd::prelude::*;

verus! {

/// Failure of cipher construction: the raw key may not be empty.
#[derive(Debug, Clone, Copy, PartialEq, Eq, Structural)]
pub enum QmcCryptoError {
    KeyEmpty,
}

/// A trailer recognizer matched its magic but found the structure invalid,
/// or the supplied window is too short to decide.
#[derive(Debug, Clone, PartialEq, Eq)]
pub enum FooterParseError {
    /// The window must hold at least this many bytes for the recognizer to decide.
    BufferTooSmall(u64),
    /// A version field held an unsupported value; carries the field as it
    /// stood in the trailer.
    UnsupportedVersion(Vec<u8>),
    /// The numeric identifier field held a non-digit or overflowed.
    InvalidIdentifier(Vec<u8>),
    /// The comma-separated payload did not have exactly three fields.
    MalformedPayload(Vec<u8>),
    /// The declared key token length exceeds the allowed maximum.
    TokenTooLarge(usize),
    /// The key token held a byte outside the base64 alphabet.
    InvalidTokenEncoding,
}

/// Failure of base64 decoding: invalid character or invalid length.
#[derive(Debug, Clone, Copy, PartialEq, Eq, Structural)]
pub struct Base64DecodeError;

} // verus!
