//! Cutting an ordered list of names into teams.

use crate::setup::TeamSetup;
use crate::text::{decimal, decimal_text, join, join_with, texts};
use vstd::prelude::*;

verus! {

/// How many teams `n` members make when a full team has `k`: `n / k`, rounded up.
pub open spec fn team_count(n: nat, k: nat) -> nat {
    if k == 0 {
        0
    } else {
        ((n + k - 1) / (k as int)) as nat
    }
}

/// Where team `i` ends in a list of `n` members cut into teams of `k`.
pub open spec fn team_end(i: int, n: nat, k: nat) -> int {
    if (i + 1) * k <= n {
        (i + 1) * k
    } else {
        n as int
    }
}

/// The teams of `k` that `order` is cut into: team `i` holds the members from
/// position `i * k` on, in their order; only the last team may hold fewer than `k`.
pub open spec fn chunks<A>(order: Seq<A>, k: nat) -> Seq<Seq<A>> {
    Seq::new(
        team_count(order.len(), k),
        |i: int| order.subrange(i * k, team_end(i, order.len(), k)),
    )
}

/// The names of each team of a roster.
pub open spec fn rosters(teams: Seq<Vec<String>>) -> Seq<Seq<Seq<char>>> {
    Seq::new(teams.len(), |i: int| texts(teams[i]@))
}

/// Team `i` of `chunks` lies inside the list and is not empty.
pub proof fn lemma_team_bounds(i: int, n: nat, k: nat)
    requires
        k > 0,
        0 <= i < team_count(n, k),
    ensures
        0 <= i * k < team_end(i, n, k) <= n,
        team_end(i, n, k) - i * k <= k,
        i + 1 < team_count(n, k) ==> team_end(i, n, k) == (i + 1) * k,
        i + 1 == team_count(n, k) ==> team_end(i, n, k) == n,
{
    let c = team_count(n, k) as int;
    assert(c * k >= n && (c - 1) * k < n) by (nonlinear_arith)
        requires
            k > 0,
            c == (n + k - 1) / (k as int),
    ;
    assert(i * k <= (c - 1) * k) by (nonlinear_arith)
        requires
            i <= c - 1,
            k > 0,
    ;
    assert((i + 1) * k == i * k + k) by (nonlinear_arith);
    if i + 1 < c {
        assert((i + 1) * k <= (c - 1) * k) by (nonlinear_arith)
            requires
                i + 1 <= c - 1,
                k > 0,
        ;
    }
}

/// The number of teams is the one `t` with `(t - 1) * k < n <= t * k`.
pub proof fn lemma_team_count(t: int, n: nat, k: nat)
    requires
        k > 0,
        0 <= t,
        (t - 1) * k < n <= t * k,
    ensures
        t == team_count(n, k),
{
    let c = (n + k - 1) / (k as int);
    assert(c == t) by (nonlinear_arith)
        requires
            k > 0,
            (t - 1) * k < n <= t * k,
            c == (n + k - 1) / (k as int),
    ;
}

/// Copies the names at the positions from `from` up to `to`.
fn copy_names(list: &[String], from: usize, to: usize) -> (out: Vec<String>)
    requires
        from <= to <= list@.len(),
    ensures
        out@ == list@.subrange(from as int, to as int),
{
    let mut out: Vec<String> = Vec::new();
    let mut i: usize = from;
    while i < to
        invariant
            from <= i <= to <= list@.len(),
            out@ == list@.subrange(from as int, i as int),
        decreases to - i,
    {
        out.push(list[i].clone());
        proof {
            assert(list@.subrange(from as int, i + 1) == list@.subrange(
                from as int,
                i as int,
            ).push(list@[i as int]));
        }
        i = i + 1;
    }
    out
}

/// Cuts `order` into teams of the size that `setup` asks for, keeping the order.
pub fn split_teams(order: &[String], setup: TeamSetup) -> (teams: Vec<Vec<String>>)
    ensures
        rosters(teams@) == chunks(texts(order@), setup.spec_size()),
{
    let k = setup.size();
    let n = order.len();
    let mut teams: Vec<Vec<String>> = Vec::new();
    let mut start: usize = 0;
    while start < n
        invariant
            k == setup.spec_size(),
            n == order@.len(),
            start <= n,
            start < n ==> start == teams.len() * k,
            teams.len() > 0 ==> (teams.len() - 1) * k < n,
            start == n ==> n <= teams.len() * k,
            forall|j: int|
                0 <= j < teams.len() ==> texts(#[trigger] teams@[j]@) == texts(order@).subrange(
                    j * k,
                    team_end(j, n as nat, k as nat),
                ),
        decreases n - start,
    {
        let end = if n - start > k {
            start + k
        } else {
            n
        };
        let team = copy_names(order, start, end);
        proof {
            let t = teams.len() as int;
            assert((t + 1) * k == t * k + k) by (nonlinear_arith);
            assert(end == team_end(t, n as nat, k as nat));
            assert(texts(team@) == texts(order@).subrange(t * k, end as int));
        }
        teams.push(team);
        start = end;
    }
    proof {
        let t = teams.len() as int;
        if t == 0 {
            assert((t - 1) * k < n) by (nonlinear_arith)
                requires
                    t == 0,
                    k > 0,
            ;
        }
        lemma_team_count(t, n as nat, k as nat);
        assert(rosters(teams@) =~= chunks(texts(order@), k as nat));
    }
    teams
}

/// The first line of a roster: it names the mode.
pub open spec fn header(setup: TeamSetup) -> Seq<char> {
    match setup {
        TeamSetup::Duo => "-- **Duos** --\n"@,
        TeamSetup::Trio => "-- **Trios** --\n"@,
        TeamSetup::Squad => "-- **Squads** --\n"@,
    }
}

/// The line of the team at position `index`: its number, counted from one,
/// then its names in order with ", " between them.
pub open spec fn team_line(index: nat, team: Seq<Seq<char>>) -> Seq<char> {
    "**"@ + decimal(index + 1) + "**. "@ + join(team, ", "@) + "\n"@
}

/// The lines of all teams, in order.
pub open spec fn team_lines(teams: Seq<Seq<Seq<char>>>) -> Seq<char>
    decreases teams.len(),
{
    if teams.len() == 0 {
        Seq::empty()
    } else {
        team_lines(teams.drop_last()) + team_line((teams.len() - 1) as nat, teams.last())
    }
}

/// The whole reply for a roster: the header, then one line for each team.
pub open spec fn roster_text(setup: TeamSetup, teams: Seq<Seq<Seq<char>>>) -> Seq<char> {
    header(setup) + team_lines(teams)
}

/// Writes a roster as the text of a reply.
pub fn render_roster(setup: TeamSetup, teams: &[Vec<String>]) -> (out: String)
    ensures
        out@ == roster_text(setup, rosters(teams@)),
{
    let mut out = match setup {
        TeamSetup::Duo => "-- **Duos** --\n".to_owned(),
        TeamSetup::Trio => "-- **Trios** --\n".to_owned(),
        TeamSetup::Squad => "-- **Squads** --\n".to_owned(),
    };
    let mut i: usize = 0;
    while i < teams.len()
        invariant
            i <= teams.len(),
            out@ == header(setup) + team_lines(rosters(teams@).take(i as int)),
        decreases teams.len() - i,
    {
        let number = decimal_text(i + 1);
        let names = join_with(teams[i].as_slice(), ", ");
        out.append("**");
        out.append(number.as_str());
        out.append("**. ");
        out.append(names.as_str());
        out.append("\n");
        proof {
            let all = rosters(teams@);
            assert(all.take(i + 1).drop_last() == all.take(i as int));
            assert(all.take(i + 1).last() == texts(teams@[i as int]@));
        }
        i = i + 1;
    }
    proof {
        assert(rosters(teams@).take(i as int) == rosters(teams@));
    }
    out
}

/// The first `t` teams, read one after the other, are the list up to the end
/// of team `t - 1`.
proof fn lemma_teams_prefix<A>(order: Seq<A>, k: nat, t: int)
    requires
        k > 0,
        0 <= t <= team_count(order.len(), k),
    ensures
        chunks(order, k).take(t).flatten() == order.take(
            if t == 0 {
                0
            } else {
                team_end(t - 1, order.len(), k)
            },
        ),
    decreases t,
{
    let teams = chunks(order, k);
    if t == 0 {
        assert(teams.take(0).flatten() == order.take(0));
    } else {
        lemma_teams_prefix(order, k, t - 1);
        lemma_team_bounds(t - 1, order.len(), k);
        if t > 1 {
            lemma_team_bounds(t - 2, order.len(), k);
        }
        let before = teams.take(t - 1);
        assert(teams.take(t) == before.push(teams[t - 1]));
        before.lemma_flatten_push(teams[t - 1]);
        assert(before.flatten() + teams[t - 1] == order.take(team_end(t - 1, order.len(), k)));
    }
}

/// Nobody is lost and nobody is doubled: the teams, read one after the
/// other, are the list that was cut, member for member.
pub proof fn lemma_teams_cover<A>(order: Seq<A>, k: nat)
    requires
        k > 0,
    ensures
        chunks(order, k).flatten() == order,
{
    let teams = chunks(order, k);
    let t = teams.len() as int;
    lemma_teams_prefix(order, k, t);
    assert(teams.take(t) == teams);
    if t > 0 {
        lemma_team_bounds(t - 1, order.len(), k);
    } else {
        assert(order.len() == 0) by (nonlinear_arith)
            requires
                k > 0,
                (order.len() + k - 1) / (k as int) == 0,
        ;
    }
    assert(order.take(order.len() as int) == order);
}

/// The teams of a roster hold the participants, each as often as the request
/// names them, whatever the order in which they were drawn.
pub proof fn lemma_roster_holds_participants<A>(order: Seq<A>, participants: Seq<A>, k: nat)
    requires
        k > 0,
        order.to_multiset() == participants.to_multiset(),
    ensures
        chunks(order, k).flatten().to_multiset() == participants.to_multiset(),
{
    lemma_teams_cover(order, k);
}

/// A list of `n` members gives `n / k` teams, rounded up. Every team but the
/// last has `k` members; the last has the `n % k` that are left, or `k` where
/// nothing is left over.
pub proof fn lemma_team_sizes<A>(order: Seq<A>, k: nat)
    requires
        k > 0,
    ensures
        chunks(order, k).len() == team_count(order.len(), k),
        (team_count(order.len(), k) - 1) * k < order.len() <= team_count(order.len(), k) * k,
        forall|i: int|
            0 <= i < chunks(order, k).len() - 1 ==> (#[trigger] chunks(order, k)[i]).len() == k,
        order.len() > 0 ==> chunks(order, k).last().len() == if order.len() % k == 0 {
            k
        } else {
            order.len() % k
        },
{
    let n = order.len();
    let c = team_count(n, k) as int;
    assert(c * k >= n && (c - 1) * k < n) by (nonlinear_arith)
        requires
            k > 0,
            c == (n + k - 1) / (k as int),
    ;
    assert forall|i: int| 0 <= i < chunks(order, k).len() - 1 implies (#[trigger] chunks(
        order,
        k,
    )[i]).len() == k by {
        lemma_team_bounds(i, n, k);
        assert((i + 1) * k == i * k + k) by (nonlinear_arith);
    }
    if n > 0 {
        lemma_team_bounds(c - 1, n, k);
        assert(n - (c - 1) * k == if n % k == 0 {
            k as int
        } else {
            (n % k) as int
        }) by (nonlinear_arith)
            requires
                k > 0,
                (c - 1) * k < n <= c * k,
        ;
    }
}

} // verus!
