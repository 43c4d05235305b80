//! The command grammar: from the text of a message to a request for teams.

use crate::error::{ParseError, ParseFault};
use crate::setup::{lowercase, TeamSetup};
use crate::squad::{Request, SquadCmd};
use crate::seqs::lemma_filter_next;
use crate::text::{split_on_spaces, split_spaces, texts};
use vstd::prelude::*;

verus! {

/// The text sent when the command comes without arguments.
pub const HELP_TEXT: &'static str = "I will fetch all users in voice chat and randomize teams.\n \
!sq <duo|trio|squad> !<username to exclude>\nExclude nicks are lowercase.";

/// What a well-formed command asks for.
#[derive(Debug, PartialEq, Eq)]
pub enum Commands {
    /// Draw teams.
    SquadCommand(SquadCmd),
    /// Explain the usage; the text is carried along.
    HelpCommand(String),
}

/// A [`Commands`] value with its texts as sequences of characters.
pub enum Outcome {
    Squad(Request),
    Help(Seq<char>),
}

impl View for Commands {
    type V = Outcome;

    open spec fn view(&self) -> Outcome {
        match self {
            Commands::SquadCommand(cmd) => Outcome::Squad(cmd@),
            Commands::HelpCommand(text) => Outcome::Help(text@),
        }
    }
}

/// A token that begins with `!` names somebody to leave out.
pub open spec fn is_exclusion(token: Seq<char>) -> bool {
    token.len() > 0 && token[0] == '!'
}

/// [`is_exclusion`] as a predicate for filters.
pub open spec fn exclusion() -> spec_fn(Seq<char>) -> bool {
    |token: Seq<char>| is_exclusion(token)
}

/// The negation of [`exclusion`].
pub open spec fn inclusion() -> spec_fn(Seq<char>) -> bool {
    |token: Seq<char>| !is_exclusion(token)
}

/// What is left of a token without its first character.
pub open spec fn stripped() -> spec_fn(Seq<char>) -> Seq<char> {
    |token: Seq<char>| token.skip(1)
}

/// The names to leave out: every token after the keyword that begins with
/// `!`, without that mark, in the order of the tokens.
pub open spec fn excluded_names(tokens: Seq<Seq<char>>) -> Seq<Seq<char>> {
    tokens.skip(1).filter(exclusion()).map_values(stripped())
}

/// The names to add: every token after the team size that does not begin
/// with `!`, in the order of the tokens.
pub open spec fn extra_names(tokens: Seq<Seq<char>>) -> Seq<Seq<char>> {
    tokens.skip(2).filter(inclusion())
}

/// Whether a name is not among `excluded`, as a predicate for filters. Names
/// are compared exactly: a name in another letter case is another name.
pub open spec fn kept(excluded: Seq<Seq<char>>) -> spec_fn(Seq<char>) -> bool {
    |name: Seq<char>| !excluded.contains(name)
}

/// Who takes part: those present that are not excluded, in their order,
/// followed by the extra names.
pub open spec fn participants(tokens: Seq<Seq<char>>, present: Seq<Seq<char>>) -> Seq<Seq<char>> {
    present.filter(kept(excluded_names(tokens))) + extra_names(tokens)
}

/// The meaning of a command that is already cut into tokens.
pub open spec fn command_of_tokens(tokens: Seq<Seq<char>>, present: Seq<Seq<char>>) -> Result<
    Outcome,
    ParseFault,
> {
    if tokens.len() == 1 {
        Ok(Outcome::Help(HELP_TEXT@))
    } else if tokens.len() == 0 {
        Err(ParseFault::InvalidCommand)
    } else {
        match TeamSetup::parse(tokens[1]) {
            Ok(setup) => Ok(
                Outcome::Squad(
                    Request { team_setup: setup, users: participants(tokens, present) },
                ),
            ),
            Err(fault) => Err(fault),
        }
    }
}

/// The meaning of a command: of its tokens, which are the pieces between its
/// spaces.
pub open spec fn command_of(raw: Seq<char>, present: Seq<Seq<char>>) -> Result<
    Outcome,
    ParseFault,
> {
    command_of_tokens(split_spaces(raw), present)
}

/// `found` is `expected`, text for text.
pub open spec fn agrees(
    found: Result<Commands, ParseError>,
    expected: Result<Outcome, ParseFault>,
) -> bool {
    match found {
        Ok(command) => expected == Ok::<Outcome, ParseFault>(command@),
        Err(error) => expected == Err::<Outcome, ParseFault>(error@),
    }
}

fn starts_with_mark(token: &String) -> (marked: bool)
    ensures
        marked == is_exclusion(token@),
{
    let text = token.as_str();
    !text.is_empty() && text.get_char(0) == '!'
}

fn without_mark(token: &String) -> (name: String)
    requires
        token@.len() > 0,
    ensures
        name@ == token@.skip(1),
{
    let text = token.as_str();
    text.substring_char(1, text.unicode_len()).to_owned()
}

fn collect_excluded(tokens: &[String]) -> (names: Vec<String>)
    requires
        tokens@.len() >= 1,
    ensures
        texts(names@) == excluded_names(texts(tokens@)),
{
    let ghost rest = texts(tokens@).skip(1);
    let mut names: Vec<String> = Vec::new();
    let mut i: usize = 1;
    while i < tokens.len()
        invariant
            1 <= i <= tokens@.len(),
            rest == texts(tokens@).skip(1),
            texts(names@) == rest.take(i - 1).filter(exclusion()).map_values(stripped()),
        decreases tokens@.len() - i,
    {
        proof {
            lemma_filter_next(rest, exclusion(), i - 1);
        }
        if starts_with_mark(&tokens[i]) {
            let name = without_mark(&tokens[i]);
            proof {
                let before = rest.take(i - 1).filter(exclusion());
                assert(before.push(rest[i - 1]).map_values(stripped()) == before.map_values(
                    stripped(),
                ).push(name@));
                assert(texts(names@.push(name)) == texts(names@).push(name@));
            }
            names.push(name);
        }
        i = i + 1;
    }
    proof {
        assert(rest.take(i - 1) == rest);
    }
    names
}

fn collect_extras(tokens: &[String]) -> (names: Vec<String>)
    requires
        tokens@.len() >= 2,
    ensures
        texts(names@) == extra_names(texts(tokens@)),
{
    let ghost rest = texts(tokens@).skip(2);
    let mut names: Vec<String> = Vec::new();
    let mut i: usize = 2;
    while i < tokens.len()
        invariant
            2 <= i <= tokens@.len(),
            rest == texts(tokens@).skip(2),
            texts(names@) == rest.take(i - 2).filter(inclusion()),
        decreases tokens@.len() - i,
    {
        proof {
            lemma_filter_next(rest, inclusion(), i - 2);
        }
        if !starts_with_mark(&tokens[i]) {
            let name = tokens[i].clone();
            proof {
                assert(texts(names@.push(name)) == texts(names@).push(name@));
            }
            names.push(name);
        }
        i = i + 1;
    }
    proof {
        assert(rest.take(i - 2) == rest);
    }
    names
}

fn contains_name(list: &[String], name: &String) -> (found: bool)
    ensures
        found == texts(list@).contains(name@),
{
    let mut i: usize = 0;
    while i < list.len()
        invariant
            i <= list@.len(),
            forall|j: int| 0 <= j < i ==> texts(list@)[j] != name@,
        decreases list@.len() - i,
    {
        if list[i].eq(name) {
            assert(texts(list@)[i as int] == name@);
            return true;
        }
        i = i + 1;
    }
    false
}

fn keep_present(present: &[String], excluded: &[String]) -> (names: Vec<String>)
    ensures
        texts(names@) == texts(present@).filter(kept(texts(excluded@))),
{
    let ghost all = texts(present@);
    let ghost keep = kept(texts(excluded@));
    let mut names: Vec<String> = Vec::new();
    let mut i: usize = 0;
    while i < present.len()
        invariant
            i <= present@.len(),
            all == texts(present@),
            keep == kept(texts(excluded@)),
            texts(names@) == all.take(i as int).filter(keep),
        decreases present@.len() - i,
    {
        proof {
            lemma_filter_next(all, keep, i as int);
        }
        if !contains_name(excluded, &present[i]) {
            let name = present[i].clone();
            proof {
                assert(texts(names@.push(name)) == texts(names@).push(name@));
            }
            names.push(name);
        }
        i = i + 1;
    }
    proof {
        assert(all.take(i as int) == all);
    }
    names
}

/// Reads a command that is already cut into tokens. One token alone asks for
/// help; otherwise the second token must be a team size, tokens that begin
/// with `!` leave somebody out and the others after the team size add
/// somebody.
pub fn parse_tokens(tokens: &[String], present: &[String]) -> (found: Result<Commands, ParseError>)
    ensures
        agrees(found, command_of_tokens(texts(tokens@), texts(present@))),
{
    if tokens.len() == 1 {
        return Ok(Commands::HelpCommand(HELP_TEXT.to_owned()));
    }
    if tokens.len() < 2 {
        return Err(ParseError::InvalidCommand);
    }
    let team_setup = match TeamSetup::from_str(tokens[1].as_str()) {
        Ok(setup) => setup,
        Err(error) => {
            return Err(error);
        },
    };
    let excluded = collect_excluded(tokens);
    let mut users = keep_present(present, excluded.as_slice());
    let mut extras = collect_extras(tokens);
    proof {
        assert(texts(users@ + extras@) == texts(users@) + texts(extras@));
    }
    users.append(&mut extras);
    Ok(Commands::SquadCommand(SquadCmd { team_setup, users }))
}

/// Reads a command from the text of a message and the names of those present.
pub fn parse_command(raw: &str, present: &[String]) -> (found: Result<Commands, ParseError>)
    ensures
        agrees(found, command_of(raw@, texts(present@))),
{
    let tokens = split_on_spaces(raw);
    parse_tokens(tokens.as_slice(), present)
}

/// A command of one token asks for help, whatever the token is and whoever
/// is present.
pub proof fn lemma_lone_token_asks_for_help(raw: Seq<char>, present: Seq<Seq<char>>)
    requires
        split_spaces(raw).len() == 1,
    ensures
        command_of(raw, present) == Ok::<Outcome, ParseFault>(Outcome::Help(HELP_TEXT@)),
{
}

/// With two tokens or more the second decides. Where its lowercase form is a
/// keyword, the command is a request with that keyword's team size; any other
/// second token is handed back in the error.
pub proof fn lemma_second_token_decides(tokens: Seq<Seq<char>>, present: Seq<Seq<char>>)
    requires
        tokens.len() >= 2,
    ensures
        match TeamSetup::of_keyword(lowercase(tokens[1])) {
            Some(setup) => command_of_tokens(tokens, present) == Ok::<Outcome, ParseFault>(
                Outcome::Squad(
                    Request { team_setup: setup, users: participants(tokens, present) },
                ),
            ),
            None => command_of_tokens(tokens, present) == Err::<Outcome, ParseFault>(
                ParseFault::InvalidTeamSetup(tokens[1]),
            ),
        },
{
}

} // verus!
