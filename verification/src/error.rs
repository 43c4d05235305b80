//! Why a command was not understood.

use vstd::prelude::*;

verus! {

/// The two ways in which a command can be malformed.
#[derive(Debug, PartialEq, Eq)]
pub enum ParseError {
    /// A required token is missing.
    InvalidCommand,
    /// The team-size token is none of the keywords; it is carried as it was given.
    InvalidTeamSetup(String),
}

/// A [`ParseError`] with its detail as a sequence of characters.
pub enum ParseFault {
    InvalidCommand,
    InvalidTeamSetup(Seq<char>),
}

impl View for ParseError {
    type V = ParseFault;

    open spec fn view(&self) -> ParseFault {
        match self {
            ParseError::InvalidCommand => ParseFault::InvalidCommand,
            ParseError::InvalidTeamSetup(detail) => ParseFault::InvalidTeamSetup(detail@),
        }
    }
}

} // verus!
