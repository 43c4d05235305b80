//! A validated request for teams, and the drawing of a roster from it.

use crate::roster::{
    chunks, lemma_roster_holds_participants, lemma_team_sizes, render_roster, roster_text, rosters,
    split_teams, team_count,
};
use crate::setup::TeamSetup;
use crate::text::texts;
use rand::seq::SliceRandom;
use vstd::prelude::*;

verus! {

/// A validated request: the team size and who takes part.
#[derive(Debug, PartialEq, Eq)]
pub struct SquadCmd {
    pub team_setup: TeamSetup,
    pub users: Vec<String>,
}

/// A [`SquadCmd`] with its names as sequences of characters.
pub struct Request {
    pub team_setup: TeamSetup,
    pub users: Seq<Seq<char>>,
}

impl View for SquadCmd {
    type V = Request;

    open spec fn view(&self) -> Request {
        Request { team_setup: self.team_setup, users: texts(self.users@) }
    }
}

/// `order` holds the names of `names`, each as often as `names` does.
pub open spec fn is_shuffle(order: Seq<Seq<char>>, names: Seq<Seq<char>>) -> bool {
    order.to_multiset() == names.to_multiset()
}

/// `teams` is a roster for `request`: its participants in some order, cut
/// into teams of the size it asks for.
pub open spec fn is_draw_of(teams: Seq<Seq<Seq<char>>>, request: Request) -> bool {
    exists|order: Seq<Seq<char>>|
        #[trigger] is_shuffle(order, request.users) && teams == chunks(
            order,
            request.team_setup.spec_size(),
        )
}

/// `text` is a reply to `request`: one of its rosters, written out.
pub open spec fn is_roster_of(text: Seq<char>, request: Request) -> bool {
    exists|teams: Seq<Seq<Seq<char>>>|
        #[trigger] is_draw_of(teams, request) && text == roster_text(request.team_setup, teams)
}

/// What `Debug` prints for a list of names.
pub uninterp spec fn debug_form(names: Seq<Seq<char>>) -> Seq<char>;

/// Calls `format!` with `{:?}`, which prints the list through `Debug` of
/// `Vec<String>`. The contract only names the result: it is what `Debug`
/// prints for these names, and depends on nothing else.
#[verifier::external_body]
fn debug_text(names: &Vec<String>) -> (out: String)
    ensures
        out@ == debug_form(texts(names@)),
{
    format!("{:?}", names)
}

/// Calls `SliceRandom::shuffle` of rand with the thread's generator. It swaps
/// elements of the list and does nothing else to it, so afterwards the list
/// holds the same names, each as often as before. Which order comes out is
/// left open. The generator is seeded by the system on its first use in a
/// thread, and only a system without a source of random numbers makes that fail.
#[verifier::external_body]
fn shuffle(names: &mut Vec<String>)
    ensures
        is_shuffle(texts(final(names)@), texts(old(names)@)),
{
    names.shuffle(&mut rand::thread_rng());
}

impl SquadCmd {
    /// The request in one line, for a log.
    pub open spec fn spec_describe(self) -> Seq<char> {
        "Team Setup: "@ + self.team_setup.spec_name() + " Users: "@ + debug_form(texts(self.users@))
    }

    /// Writes the request in one line, for a log.
    pub fn describe(&self) -> (out: String)
        ensures
            out@ == self.spec_describe(),
    {
        let mut out = "Team Setup: ".to_owned();
        out.append(self.team_setup.name());
        out.append(" Users: ");
        out.append(debug_text(&self.users).as_str());
        out
    }

    /// Cuts the participants, taken in the order given, into teams.
    pub fn teams_in_order(&self, order: &[String]) -> (teams: Vec<Vec<String>>)
        ensures
            rosters(teams@) == chunks(texts(order@), self.team_setup.spec_size()),
            is_shuffle(texts(order@), self@.users) ==> is_draw_of(rosters(teams@), self@),
    {
        split_teams(order, self.team_setup)
    }

    /// Draws the participants in a random order and cuts them into teams.
    pub fn draw_teams(&self) -> (teams: Vec<Vec<String>>)
        ensures
            is_draw_of(rosters(teams@), self@),
    {
        let mut order = self.users.clone();
        shuffle(&mut order);
        self.teams_in_order(order.as_slice())
    }

    /// Draws the participants in a random order and writes the roster.
    pub fn create_teams(&self) -> (out: String)
        ensures
            is_roster_of(out@, self@),
    {
        let teams = self.draw_teams();
        render_roster(self.team_setup, teams.as_slice())
    }
}

/// Every participant is in exactly one team of a roster: the teams together
/// hold the names of the request, each as often as the request does.
pub proof fn lemma_draw_holds_participants(teams: Seq<Seq<Seq<char>>>, request: Request)
    requires
        is_draw_of(teams, request),
    ensures
        teams.flatten().to_multiset() == request.users.to_multiset(),
{
    let k = request.team_setup.spec_size();
    let order = choose|order: Seq<Seq<char>>|
        #[trigger] is_shuffle(order, request.users) && teams == chunks(order, k);
    lemma_roster_holds_participants(order, request.users, k);
}

/// A roster for `n` participants and teams of `k` has `n / k` teams, rounded
/// up. Every team but the last has `k` members; the last has the `n % k` that
/// are left, or `k` where nothing is left over.
pub proof fn lemma_draw_sizes(teams: Seq<Seq<Seq<char>>>, request: Request)
    requires
        is_draw_of(teams, request),
    ensures
        teams.len() == team_count(request.users.len(), request.team_setup.spec_size()),
        forall|i: int|
            0 <= i < teams.len() - 1 ==> (#[trigger] teams[i]).len()
                == request.team_setup.spec_size(),
        request.users.len() > 0 ==> teams.last().len() == if request.users.len()
            % request.team_setup.spec_size() == 0 {
            request.team_setup.spec_size()
        } else {
            request.users.len() % request.team_setup.spec_size()
        },
{
    let k = request.team_setup.spec_size();
    let order = choose|order: Seq<Seq<char>>|
        #[trigger] is_shuffle(order, request.users) && teams == chunks(order, k);
    order.to_multiset_ensures();
    request.users.to_multiset_ensures();
    lemma_team_sizes(order, k);
}

} // verus!
