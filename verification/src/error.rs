//! The ways in which decoding a response fails.

use vstd::prelude::*;

verus! {

/// Why a response could not be decoded.
#[derive(Debug, Clone, Copy, PartialEq, Eq, Structural)]
pub enum DecodeError {
    /// The stream failed or closed before the expected bytes arrived.
    IoError,
    /// The bytes of a text response are not valid UTF-8.
    InvalidText,
    /// The byte after `#` is not a decimal digit.
    InvalidLengthDigitCount,
    /// The length field does not give a payload length.
    InvalidLengthField,
    /// Bytes other than a line terminator follow the payload.
    TrailingGarbage,
}

impl DecodeError {
    /// The text of [`DecodeError::message`].
    pub open spec fn message_text(self) -> Seq<char> {
        match self {
            DecodeError::IoError => "stream closed before the expected bytes arrived"@,
            DecodeError::InvalidText => "non-UTF-8 sequence in text response"@,
            DecodeError::InvalidLengthDigitCount => "second byte is not a digit"@,
            DecodeError::InvalidLengthField => "cannot parse declared payload length"@,
            DecodeError::TrailingGarbage =>
                "unexpected bytes between payload end and line terminator"@,
        }
    }

    /// A short description of the error, for a caller that reports it as text.
    pub fn message(&self) -> (text: &'static str)
        ensures
            text@ == self.message_text(),
    {
        match self {
            DecodeError::IoError => "stream closed before the expected bytes arrived",
            DecodeError::InvalidText => "non-UTF-8 sequence in text response",
            DecodeError::InvalidLengthDigitCount => "second byte is not a digit",
            DecodeError::InvalidLengthField => "cannot parse declared payload length",
            DecodeError::TrailingGarbage =>
                "unexpected bytes between payload end and line terminator",
        }
    }
}

} // verus!
