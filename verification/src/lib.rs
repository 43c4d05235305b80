//! Random teams for the people in a voice channel.
//!
//! A command such as `!sq duo !bob alice` is read by [`command::parse_command`]:
//! the text is cut at every single space, the token after the keyword is the
//! team size, tokens that begin with `!` leave somebody out and the remaining
//! ones add somebody. Names are compared exactly, letter case included.
//! [`squad::SquadCmd::create_teams`] then draws the participants in a random
//! order, cuts them into teams and writes the roster; [`reply::respond`] does
//! both and answers anything it cannot read with one fixed text.
//!
//! Every function states what it returns over sequences of characters, and the
//! facts that hold of every roster are proved beside the functions they are
//! about.

pub mod command;
pub mod error;
pub mod presence;
pub mod reply;
pub mod roster;
pub mod seqs;
pub mod setup;
pub mod squad;
pub mod text;
