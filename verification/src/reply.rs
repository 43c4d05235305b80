//! The text that answers a command.

use crate::command::{command_of, parse_command, Commands, Outcome};
use crate::error::{ParseError, ParseFault};
use crate::squad::is_roster_of;
use crate::text::texts;
use vstd::prelude::*;

verus! {

/// The text sent when a command was not understood, whatever was wrong with it.
pub const FALLBACK_TEXT: &'static str =
    "Jag fattar inte vad du skriver eller så är jag dum i huvudet. Försök igen.";

/// The view of what the parser found.
pub open spec fn found_view(found: Result<Commands, ParseError>) -> Result<Outcome, ParseFault> {
    match found {
        Ok(command) => Ok(command@),
        Err(error) => Err(error@),
    }
}

/// `text` answers `outcome`: the help text as it is carried, a roster of the
/// request's participants, or the fallback text after any error.
pub open spec fn is_reply(text: Seq<char>, outcome: Result<Outcome, ParseFault>) -> bool {
    match outcome {
        Ok(Outcome::Help(help)) => text == help,
        Ok(Outcome::Squad(request)) => is_roster_of(text, request),
        Err(_) => text == FALLBACK_TEXT@,
    }
}

/// Writes the reply to what the parser found.
pub fn reply_for(found: &Result<Commands, ParseError>) -> (text: String)
    ensures
        is_reply(text@, found_view(*found)),
{
    match found {
        Ok(Commands::HelpCommand(help)) => help.clone(),
        Ok(Commands::SquadCommand(cmd)) => cmd.create_teams(),
        Err(_) => FALLBACK_TEXT.to_owned(),
    }
}

/// Reads a command and writes the reply to it.
pub fn respond(raw: &str, present: &[String]) -> (text: String)
    ensures
        is_reply(text@, command_of(raw@, texts(present@))),
{
    let found = parse_command(raw, present);
    reply_for(&found)
}

} // verus!
