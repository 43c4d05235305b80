//! The three team sizes and their keywords.

use crate::error::{ParseError, ParseFault};
use vstd::prelude::*;

verus! {

/// How many members a full team has.
#[derive(Debug, Clone, Copy, PartialEq, Eq, Structural)]
pub enum TeamSetup {
    Duo,
    Trio,
    Squad,
}

/// The lowercase form of a text, as `str::to_lowercase` gives it.
pub uninterp spec fn lowercase(s: Seq<char>) -> Seq<char>;

/// Calls `str::to_lowercase`. The contract only names the result: it is the
/// lowercase form of the argument's characters, and depends on nothing else.
#[verifier::external_body]
fn to_lowercase(s: &str) -> (out: String)
    ensures
        out@ == lowercase(s@),
{
    s.to_lowercase()
}

impl TeamSetup {
    /// The number of members of a full team, as a mathematical integer.
    pub open spec fn spec_size(self) -> nat {
        match self {
            TeamSetup::Duo => 2,
            TeamSetup::Trio => 3,
            TeamSetup::Squad => 4,
        }
    }

    /// The number of members of a full team.
    pub fn size(self) -> (k: usize)
        ensures
            k == self.spec_size(),
    {
        match self {
            TeamSetup::Duo => 2,
            TeamSetup::Trio => 3,
            TeamSetup::Squad => 4,
        }
    }

    /// The name of the setup, as `Debug` prints it.
    pub open spec fn spec_name(self) -> Seq<char> {
        match self {
            TeamSetup::Duo => "Duo"@,
            TeamSetup::Trio => "Trio"@,
            TeamSetup::Squad => "Squad"@,
        }
    }

    /// The name of the setup, as `Debug` prints it.
    pub fn name(self) -> (out: &'static str)
        ensures
            out@ == self.spec_name(),
    {
        match self {
            TeamSetup::Duo => "Duo",
            TeamSetup::Trio => "Trio",
            TeamSetup::Squad => "Squad",
        }
    }

    /// The setup that a keyword in lowercase stands for.
    pub open spec fn of_keyword(lowered: Seq<char>) -> Option<TeamSetup> {
        if lowered == "duo"@ {
            Some(TeamSetup::Duo)
        } else if lowered == "trio"@ {
            Some(TeamSetup::Trio)
        } else if lowered == "squad"@ {
            Some(TeamSetup::Squad)
        } else {
            None
        }
    }

    /// What a team-size token stands for: its lowercase form decides, and a
    /// token that is no keyword is handed back as the error's detail.
    pub open spec fn parse(token: Seq<char>) -> Result<TeamSetup, ParseFault> {
        match Self::of_keyword(lowercase(token)) {
            Some(setup) => Ok(setup),
            None => Err(ParseFault::InvalidTeamSetup(token)),
        }
    }

    /// Reads a keyword that is already in lowercase.
    pub fn from_lowered(lowered: &String) -> (found: Option<TeamSetup>)
        ensures
            found == Self::of_keyword(lowered@),
    {
        if lowered.eq(&"duo".to_owned()) {
            Some(TeamSetup::Duo)
        } else if lowered.eq(&"trio".to_owned()) {
            Some(TeamSetup::Trio)
        } else if lowered.eq(&"squad".to_owned()) {
            Some(TeamSetup::Squad)
        } else {
            None
        }
    }

    /// Reads a team-size token, whatever the case of its letters.
    pub fn from_str(s: &str) -> (found: Result<TeamSetup, ParseError>)
        ensures
            match found {
                Ok(setup) => Self::parse(s@) == Ok::<TeamSetup, ParseFault>(setup),
                Err(e) => Self::parse(s@) == Err::<TeamSetup, ParseFault>(e@),
            },
    {
        let lowered = to_lowercase(s);
        match Self::from_lowered(&lowered) {
            Some(setup) => Ok(setup),
            None => Err(ParseError::InvalidTeamSetup(s.to_owned())),
        }
    }
}

} // verus!
