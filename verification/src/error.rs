//! The two ways in which reading text can fail.

use vstd::prelude::*;

verus! {

/// Why a text was rejected. The kind says which of the two syntaxes was being
/// read; no position is reported.
#[derive(Debug, Clone, Copy, PartialEq, Eq, Structural)]
pub enum ParseError {
    /// The text is not a version.
    Version,
    /// The text is not a range expression.
    Range,
}

impl ParseError {
    /// A fixed description of the failure.
    pub fn message(&self) -> (text: &'static str)
        ensures
            text@ == (match *self {
                ParseError::Version => "error in parsing version"@,
                ParseError::Range => "error in parsing range"@,
            }),
    {
        match self {
            ParseError::Version => "error in parsing version",
            ParseError::Range => "error in parsing range",
        }
    }
}

} // verus!
