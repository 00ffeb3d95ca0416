//! Error values reported by the section codec.

use vstd::prelude::*;

verus! {

/// An error arising while reading or writing the binary container format.
///
/// `Eof` is a control signal, not a failure: it reports that the input
/// ended cleanly at a section boundary and is absorbed by callers that
/// iterate over sections. Every other variant is a genuine failure and is
/// propagated unchanged to the caller.
#[derive(Debug, Clone, Copy, PartialEq, Eq, Structural)]
pub enum WSError {
    /// The input ended exactly at a section boundary.
    Eof,
    /// The input ended in the middle of a field or payload.
    TruncatedInput,
    /// A LEB128 value had too many continuation bytes or exceeded 32 bits.
    VarintOverflow,
    /// A custom section's name is not valid UTF-8.
    InvalidUtf8,
    /// The 8-byte header matches neither recognized constant.
    UnsupportedModuleType,
}

impl WSError {
    /// A short human-readable description of the error.
    pub fn message(&self) -> (r: &'static str)
        ensures
            r@ == self.spec_message(),
    {
        match self {
            WSError::Eof => "end of stream",
            WSError::TruncatedInput => "truncated input",
            WSError::VarintOverflow => "varint value too large",
            WSError::InvalidUtf8 => "invalid utf-8 in custom section name",
            WSError::UnsupportedModuleType => "unsupported module type",
        }
    }

    /// The description returned by [`WSError::message`].
    pub open spec fn spec_message(&self) -> Seq<char> {
        match self {
            WSError::Eof => "end of stream"@,
            WSError::TruncatedInput => "truncated input"@,
            WSError::VarintOverflow => "varint value too large"@,
            WSError::InvalidUtf8 => "invalid utf-8 in custom section name"@,
            WSError::UnsupportedModuleType => "unsupported module type"@,
        }
    }
}

} // verus!
