//! Who shares a voice channel with the author of a command.

use crate::seqs::lemma_filter_next;
use vstd::prelude::*;

verus! {

/// One entry of a guild's voice states: a user and the channel they are
/// connected to, if any.
#[derive(Debug, Clone, Copy, PartialEq, Eq, Structural)]
pub struct VoiceState {
    pub user_id: u64,
    pub channel_id: Option<u64>,
}

/// The position of the first entry for `user`, or the number of entries if
/// there is none.
pub open spec fn position_of(states: Seq<VoiceState>, user: u64) -> int
    decreases states.len(),
{
    if states.len() == 0 || states[0].user_id == user {
        0
    } else {
        1 + position_of(states.skip(1), user)
    }
}

/// The channel of the first entry for `user`; `None` if `user` has no entry.
pub open spec fn channel_of(states: Seq<VoiceState>, user: u64) -> Option<Option<u64>> {
    let at = position_of(states, user);
    if 0 <= at < states.len() {
        Some(states[at].channel_id)
    } else {
        None
    }
}

/// Whether an entry is in `channel`, as a predicate for filters.
pub open spec fn in_channel(channel: Option<u64>) -> spec_fn(VoiceState) -> bool {
    |state: VoiceState| state.channel_id == channel
}

/// The user of an entry.
pub open spec fn user_of() -> spec_fn(VoiceState) -> u64 {
    |state: VoiceState| state.user_id
}

/// The users whose entry is in `channel`, in the order of the entries.
pub open spec fn members_of(states: Seq<VoiceState>, channel: Option<u64>) -> Seq<u64> {
    states.filter(in_channel(channel)).map_values(user_of())
}

/// The users in the channel of `author`; `None` if `author` has no entry.
pub open spec fn companions_of(states: Seq<VoiceState>, author: u64) -> Option<Seq<u64>> {
    match channel_of(states, author) {
        Some(channel) => Some(members_of(states, channel)),
        None => None,
    }
}

/// `position_of` is the one position before which no entry is for `user` and
/// at which one is, or the entries end.
pub proof fn lemma_position_of(states: Seq<VoiceState>, user: u64, at: int)
    requires
        0 <= at <= states.len(),
        forall|j: int| 0 <= j < at ==> states[j].user_id != user,
        at == states.len() || states[at].user_id == user,
    ensures
        position_of(states, user) == at,
    decreases states.len(),
{
    if at > 0 {
        lemma_position_of(states.skip(1), user, at - 1);
    }
}

/// Looks up the channel that `user` is connected to.
pub fn voice_channel(states: &[VoiceState], user: u64) -> (found: Option<Option<u64>>)
    ensures
        found == channel_of(states@, user),
{
    let mut i: usize = 0;
    while i < states.len()
        invariant
            i <= states@.len(),
            forall|j: int| 0 <= j < i ==> states@[j].user_id != user,
        decreases states@.len() - i,
    {
        if states[i].user_id == user {
            proof {
                lemma_position_of(states@, user, i as int);
            }
            return Some(states[i].channel_id);
        }
        i = i + 1;
    }
    proof {
        lemma_position_of(states@, user, i as int);
    }
    None
}

/// Lists the users whose entry is in `channel`.
pub fn channel_members(states: &[VoiceState], channel: Option<u64>) -> (users: Vec<u64>)
    ensures
        users@ == members_of(states@, channel),
{
    let mut users: Vec<u64> = Vec::new();
    let mut i: usize = 0;
    while i < states.len()
        invariant
            i <= states@.len(),
            users@ == states@.take(i as int).filter(in_channel(channel)).map_values(user_of()),
        decreases states@.len() - i,
    {
        proof {
            lemma_filter_next(states@, in_channel(channel), i as int);
        }
        if same_channel(states[i].channel_id, channel) {
            proof {
                let before = states@.take(i as int).filter(in_channel(channel));
                assert(before.push(states@[i as int]).map_values(user_of()) == before.map_values(
                    user_of(),
                ).push(states@[i as int].user_id));
            }
            users.push(states[i].user_id);
        }
        i = i + 1;
    }
    proof {
        assert(states@.take(i as int) == states@);
    }
    users
}

fn same_channel(a: Option<u64>, b: Option<u64>) -> (same: bool)
    ensures
        same == (a == b),
{
    match (a, b) {
        (Some(x), Some(y)) => x == y,
        (None, None) => true,
        _ => false,
    }
}

/// Lists the users who share a voice channel with `author`, `author`
/// included. Without an entry for `author` there is nobody to list.
pub fn companions(states: &[VoiceState], author: u64) -> (users: Option<Vec<u64>>)
    ensures
        match users {
            Some(list) => companions_of(states@, author) == Some(list@),
            None => companions_of(states@, author).is_none(),
        },
{
    match voice_channel(states, author) {
        Some(channel) => Some(channel_members(states, channel)),
        None => None,
    }
}

} // verus!
