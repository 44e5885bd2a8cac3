//! The error taxonomy of the decoder: every way a record's byte buffer can
//! fail to decode, plus the envelope error raised when a hex string cannot
//! be turned into bytes at all.

use vstd::prelude::*;

verus! {

/// Why a decode failed. Every error is local to the record being decoded,
/// immediate, and non-recoverable for that record.
#[derive(Clone, Copy, PartialEq, Eq, Debug, Structural)]
pub enum DecodeError {
    /// Fewer bytes remain than a fixed-width read requires.
    UnexpectedEof,
    /// A boolean byte is neither 0 nor 1.
    InvalidBooleanEncoding,
    /// An optional discriminant byte is neither 0 nor 1.
    InvalidOptionTag,
    /// Too few bytes remain for the mode a compact length prefix selected.
    InvalidCompactLength,
    /// A compact length prefix denotes a value too large for 64 bits.
    CompactLengthOverflow,
    /// The buffer holds unconsumed bytes after a full record decode.
    TrailingBytes,
    /// The outer envelope handed a string that is not plain hex.
    MalformedInputEnvelope,
}

/// The truncation class of errors: the ones a well-formed buffer cut short
/// can produce.
pub open spec fn is_truncation_error(e: DecodeError) -> bool {
    e == DecodeError::UnexpectedEof || e == DecodeError::InvalidCompactLength
}

impl DecodeError {
    /// A short, stable name for the error, for reporting.
    pub fn name(&self) -> (r: &'static str)
        ensures
            r@.len() > 0,
    {
        proof {
            reveal_strlit("UnexpectedEof");
            reveal_strlit("InvalidBooleanEncoding");
            reveal_strlit("InvalidOptionTag");
            reveal_strlit("InvalidCompactLength");
            reveal_strlit("CompactLengthOverflow");
            reveal_strlit("TrailingBytes");
            reveal_strlit("MalformedInputEnvelope");
        }
        match self {
            DecodeError::UnexpectedEof => "UnexpectedEof",
            DecodeError::InvalidBooleanEncoding => "InvalidBooleanEncoding",
            DecodeError::InvalidOptionTag => "InvalidOptionTag",
            DecodeError::InvalidCompactLength => "InvalidCompactLength",
            DecodeError::CompactLengthOverflow => "CompactLengthOverflow",
            DecodeError::TrailingBytes => "TrailingBytes",
            DecodeError::MalformedInputEnvelope => "MalformedInputEnvelope",
        }
    }
}

} // verus!
