//! Error values of the message layer.

use vstd::prelude::*;

verus! {

/// Why a byte string was not accepted as the encoding of a value.
#[derive(Clone, Copy, Debug, PartialEq, Eq, Structural)]
pub enum DecodeError {
    /// The input ended before the value was complete.
    UnexpectedEnd,
    /// A variant tag that names no variant this library models.
    UnknownTag,
    /// A compact integer that was not written in its shortest form.
    NonCanonical,
    /// A compact integer that does not fit the field it was read for.
    OutOfRange,
    /// More junctions than a location may hold.
    TooManyJunctions,
    /// The version tag differs from the one the caller asked for.
    VersionMismatch,
    /// Bytes were left over after the value.
    TrailingBytes,
}

impl DecodeError {
    /// The words for this error.
    pub open spec fn spec_message(self) -> &'static str {
        match self {
            DecodeError::UnexpectedEnd => "unexpected end of input",
            DecodeError::UnknownTag => "unknown variant tag",
            DecodeError::NonCanonical => "compact integer not in its shortest form",
            DecodeError::OutOfRange => "integer out of range",
            DecodeError::TooManyJunctions => "more than eight junctions",
            DecodeError::VersionMismatch => "version tag differs from the expected one",
            DecodeError::TrailingBytes => "bytes left over after the value",
        }
    }

    /// The words for this error.
    pub fn message(&self) -> (m: &'static str)
        ensures
            m@ == self.spec_message()@,
    {
        match self {
            DecodeError::UnexpectedEnd => "unexpected end of input",
            DecodeError::UnknownTag => "unknown variant tag",
            DecodeError::NonCanonical => "compact integer not in its shortest form",
            DecodeError::OutOfRange => "integer out of range",
            DecodeError::TooManyJunctions => "more than eight junctions",
            DecodeError::VersionMismatch => "version tag differs from the expected one",
            DecodeError::TrailingBytes => "bytes left over after the value",
        }
    }
}

/// Why the arguments of a teleport call were refused.
#[derive(Clone, Copy, Debug, PartialEq, Eq, Structural)]
pub enum CallError {
    /// The fee asset index names no entry of the asset bundle.
    FeeItemOutOfRange,
}

impl CallError {
    /// The words for this error.
    pub open spec fn spec_message(self) -> &'static str {
        "fee asset index names no entry of the asset bundle"
    }

    /// The words for this error.
    pub fn message(&self) -> (m: &'static str)
        ensures
            m@ == self.spec_message()@,
    {
        "fee asset index names no entry of the asset bundle"
    }
}

/// Why no key pair could be had for signing.
#[derive(Clone, Copy, Debug, PartialEq, Eq, Structural)]
pub enum SignerError {
    /// The secret URI or its password was not accepted.
    SecretString,
}

impl SignerError {
    /// The words for this error.
    pub open spec fn spec_message(self) -> &'static str {
        "Secret string error"
    }

    /// The words for this error.
    pub fn message(&self) -> (m: &'static str)
        ensures
            m@ == self.spec_message()@,
    {
        "Secret string error"
    }
}

} // verus!
