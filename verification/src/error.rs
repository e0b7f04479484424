//! The ways in which decoding a font can fail.

use vstd::prelude::*;

verus! {

/// Why a header or a character record was rejected.
#[derive(Debug, Clone, Copy, PartialEq, Eq, Structural, Hash)]
pub enum ParseError {
    /// The header line or the comment block is malformed, or a character row
    /// cannot be cut into cells under the header's hard blank.
    InvalidHeader,
    /// A character record or a code tag is malformed.
    InvalidCharacter,
    /// The bytes end before a line that has to be there is complete.
    NotEnoughData,
}

impl ParseError {
    /// A short description of the error.
    pub fn message(&self) -> (text: &'static str)
        ensures
            text@ == match *self {
                ParseError::InvalidHeader => "invalid header"@,
                ParseError::InvalidCharacter => "invalid character"@,
                ParseError::NotEnoughData => "not enough data"@,
            },
    {
        match self {
            ParseError::InvalidHeader => "invalid header",
            ParseError::InvalidCharacter => "invalid character",
            ParseError::NotEnoughData => "not enough data",
        }
    }
}

} // verus!
