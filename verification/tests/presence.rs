use squad_teams::presence::{channel_members, companions, voice_channel, VoiceState};

fn state(user_id: u64, channel_id: Option<u64>) -> VoiceState {
    VoiceState { user_id, channel_id }
}

fn guild() -> Vec<VoiceState> {
    vec![
        state(1, Some(10)),
        state(2, Some(20)),
        state(3, Some(10)),
        state(4, None),
        state(5, Some(10)),
        state(6, None),
    ]
}

#[test]
fn the_channel_of_a_user_is_looked_up() {
    assert_eq!(voice_channel(&guild(), 1), Some(Some(10)));
    assert_eq!(voice_channel(&guild(), 2), Some(Some(20)));
    assert_eq!(voice_channel(&guild(), 4), Some(None));
    assert_eq!(voice_channel(&guild(), 7), None);
    assert_eq!(voice_channel(&[], 1), None);
}

#[test]
fn the_first_entry_of_a_user_counts() {
    let states = vec![state(1, Some(10)), state(1, Some(20))];
    assert_eq!(voice_channel(&states, 1), Some(Some(10)));
}

#[test]
fn members_of_a_channel_are_listed_in_order() {
    assert_eq!(channel_members(&guild(), Some(10)), vec![1, 3, 5]);
    assert_eq!(channel_members(&guild(), Some(20)), vec![2]);
    assert_eq!(channel_members(&guild(), None), vec![4, 6]);
    assert_eq!(channel_members(&guild(), Some(30)), Vec::<u64>::new());
    assert_eq!(channel_members(&[], Some(10)), Vec::<u64>::new());
}

#[test]
fn companions_share_the_channel_of_the_author() {
    assert_eq!(companions(&guild(), 3), Some(vec![1, 3, 5]));
    assert_eq!(companions(&guild(), 2), Some(vec![2]));
    assert_eq!(companions(&guild(), 6), Some(vec![4, 6]));
}

#[test]
fn an_author_without_an_entry_has_no_companions() {
    assert_eq!(companions(&guild(), 9), None);
    assert_eq!(companions(&[], 1), None);
}
