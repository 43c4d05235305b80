use squad_teams::command::{parse_command, parse_tokens, Commands, HELP_TEXT};
use squad_teams::error::ParseError;
use squad_teams::setup::TeamSetup;
use squad_teams::squad::SquadCmd;

fn names(list: &[&str]) -> Vec<String> {
    list.iter().map(|name| name.to_string()).collect()
}

fn request(raw: &str, present: &[&str]) -> SquadCmd {
    match parse_command(raw, &names(present)) {
        Ok(Commands::SquadCommand(cmd)) => cmd,
        other => panic!("expected a request, found {:?}", other),
    }
}

#[test]
fn keyword_alone_asks_for_help() {
    let found = parse_command("!sq", &names(&["Ann", "Bo"]));
    assert_eq!(found, Ok(Commands::HelpCommand(HELP_TEXT.to_string())));
}

#[test]
fn help_does_not_depend_on_the_keyword_or_on_who_is_present() {
    for raw in ["!sq", "sq", "duo", "!B", "", "anything-without-a-space"] {
        for present in [names(&[]), names(&["A"]), names(&["A", "B", "C"])] {
            let found = parse_command(raw, &present);
            assert_eq!(found, Ok(Commands::HelpCommand(HELP_TEXT.to_string())));
        }
    }
}

#[test]
fn help_text_names_the_sizes_and_the_exclusion_mark() {
    let lines: Vec<&str> = HELP_TEXT.split('\n').collect();
    assert_eq!(
        lines,
        [
            "I will fetch all users in voice chat and randomize teams.",
            " !sq <duo|trio|squad> !<username to exclude>",
            "Exclude nicks are lowercase.",
        ]
    );
}

#[test]
fn each_keyword_gives_its_team_size() {
    assert_eq!(request("!sq duo", &[]).team_setup, TeamSetup::Duo);
    assert_eq!(request("!sq trio", &[]).team_setup, TeamSetup::Trio);
    assert_eq!(request("!sq squad", &[]).team_setup, TeamSetup::Squad);
}

#[test]
fn keywords_are_read_in_any_case() {
    for raw in ["!sq DUO", "!sq Duo", "!sq dUo"] {
        assert_eq!(request(raw, &[]).team_setup, TeamSetup::Duo);
    }
    for raw in ["!sq TRIO", "!sq Trio", "!sq tRiO"] {
        assert_eq!(request(raw, &[]).team_setup, TeamSetup::Trio);
    }
    for raw in ["!sq SQUAD", "!sq Squad", "!sq sQuAd"] {
        assert_eq!(request(raw, &[]).team_setup, TeamSetup::Squad);
    }
}

#[test]
fn from_str_reads_keywords_and_hands_back_other_tokens() {
    assert_eq!(TeamSetup::from_str("duo"), Ok(TeamSetup::Duo));
    assert_eq!(TeamSetup::from_str("TRIO"), Ok(TeamSetup::Trio));
    assert_eq!(TeamSetup::from_str("Squad"), Ok(TeamSetup::Squad));
    assert_eq!(
        TeamSetup::from_str("Quartet"),
        Err(ParseError::InvalidTeamSetup("Quartet".to_string()))
    );
    assert_eq!(TeamSetup::from_str(""), Err(ParseError::InvalidTeamSetup(String::new())));
    assert_eq!(
        TeamSetup::from_str("duos"),
        Err(ParseError::InvalidTeamSetup("duos".to_string()))
    );
}

#[test]
fn from_lowered_reads_lowercase_only() {
    assert_eq!(TeamSetup::from_lowered(&"duo".to_string()), Some(TeamSetup::Duo));
    assert_eq!(TeamSetup::from_lowered(&"trio".to_string()), Some(TeamSetup::Trio));
    assert_eq!(TeamSetup::from_lowered(&"squad".to_string()), Some(TeamSetup::Squad));
    assert_eq!(TeamSetup::from_lowered(&"DUO".to_string()), None);
    assert_eq!(TeamSetup::from_lowered(&"du".to_string()), None);
    assert_eq!(TeamSetup::from_lowered(&String::new()), None);
}

#[test]
fn sizes_are_two_three_and_four() {
    assert_eq!(TeamSetup::Duo.size(), 2);
    assert_eq!(TeamSetup::Trio.size(), 3);
    assert_eq!(TeamSetup::Squad.size(), 4);
}

#[test]
fn names_are_those_that_debug_prints() {
    for setup in [TeamSetup::Duo, TeamSetup::Trio, TeamSetup::Squad] {
        assert_eq!(setup.name(), format!("{:?}", setup));
    }
}

#[test]
fn excluded_name_is_removed_in_order() {
    let cmd = request("!sq duo !B", &["A", "B", "C"]);
    assert_eq!(cmd.team_setup, TeamSetup::Duo);
    assert_eq!(cmd.users, names(&["A", "C"]));
}

#[test]
fn extra_name_is_appended() {
    let cmd = request("!sq duo Z", &["A"]);
    assert_eq!(cmd.users, names(&["A", "Z"]));
}

#[test]
fn extras_follow_those_present_in_token_order() {
    let cmd = request("!sq trio Zed !B Yan !D Xi", &["A", "B", "C", "D", "E"]);
    assert_eq!(cmd.team_setup, TeamSetup::Trio);
    assert_eq!(cmd.users, names(&["A", "C", "E", "Zed", "Yan", "Xi"]));
}

#[test]
fn exclusion_matches_the_exact_name_only() {
    let cmd = request("!sq duo !ann !Bo", &["Ann", "Bo", "Bob"]);
    assert_eq!(cmd.users, names(&["Ann", "Bob"]));
}

#[test]
fn exclusion_removes_every_occurrence() {
    let cmd = request("!sq duo !A", &["A", "B", "A"]);
    assert_eq!(cmd.users, names(&["B"]));
}

#[test]
fn exclusion_of_somebody_absent_changes_nothing() {
    let cmd = request("!sq squad !Nobody", &["A", "B"]);
    assert_eq!(cmd.users, names(&["A", "B"]));
}

#[test]
fn duplicates_are_kept_as_given() {
    let cmd = request("!sq duo B B", &["A", "A", "B"]);
    assert_eq!(cmd.users, names(&["A", "A", "B", "B", "B"]));
}

#[test]
fn an_excluded_name_can_still_be_added_as_an_extra() {
    let cmd = request("!sq duo !A A", &["A", "B"]);
    assert_eq!(cmd.users, names(&["B", "A"]));
}

#[test]
fn a_bare_mark_excludes_the_empty_name() {
    let cmd = request("!sq duo !", &["", "A"]);
    assert_eq!(cmd.users, names(&["A"]));
}

#[test]
fn two_spaces_in_a_row_add_an_empty_name() {
    let cmd = request("!sq duo  Z", &["A"]);
    assert_eq!(cmd.users, names(&["A", "", "Z"]));
}

#[test]
fn a_space_at_the_end_adds_an_empty_name() {
    let cmd = request("!sq duo ", &["A"]);
    assert_eq!(cmd.users, names(&["A", ""]));
}

#[test]
fn nobody_present_and_no_extras_gives_an_empty_request() {
    let cmd = request("!sq squad", &[]);
    assert_eq!(cmd.team_setup, TeamSetup::Squad);
    assert_eq!(cmd.users, names(&[]));
}

#[test]
fn unknown_team_size_is_reported_with_its_token() {
    let found = parse_command("!sq pentad", &names(&[]));
    assert_eq!(found, Err(ParseError::InvalidTeamSetup("pentad".to_string())));
}

#[test]
fn the_offending_token_is_carried_as_it_was_written() {
    let found = parse_command("!sq PenTad A !B", &names(&["A", "B"]));
    assert_eq!(found, Err(ParseError::InvalidTeamSetup("PenTad".to_string())));
}

#[test]
fn an_exclusion_in_place_of_the_team_size_is_no_team_size() {
    let found = parse_command("!sq !B duo", &names(&["A", "B"]));
    assert_eq!(found, Err(ParseError::InvalidTeamSetup("!B".to_string())));
}

#[test]
fn a_space_after_the_keyword_gives_an_empty_team_size() {
    let found = parse_command("!sq ", &names(&["A"]));
    assert_eq!(found, Err(ParseError::InvalidTeamSetup(String::new())));
    let found = parse_command("!sq  duo", &names(&["A"]));
    assert_eq!(found, Err(ParseError::InvalidTeamSetup(String::new())));
}

#[test]
fn no_token_at_all_is_an_invalid_command() {
    let found = parse_tokens(&[], &names(&["A"]));
    assert_eq!(found, Err(ParseError::InvalidCommand));
}

#[test]
fn parse_tokens_agrees_with_parse_command() {
    let present = names(&["A", "B", "C"]);
    let tokens = names(&["!sq", "Trio", "!C", "D"]);
    assert_eq!(parse_tokens(&tokens, &present), parse_command("!sq Trio !C D", &present));
    let tokens = names(&["!sq"]);
    assert_eq!(parse_tokens(&tokens, &present), parse_command("!sq", &present));
    let tokens = names(&["!sq", "five"]);
    assert_eq!(parse_tokens(&tokens, &present), parse_command("!sq five", &present));
}

#[test]
fn a_request_is_described_in_one_line() {
    let cmd = request("!sq duo !B", &["A", "B", "C"]);
    assert_eq!(cmd.describe(), "Team Setup: Duo Users: [\"A\", \"C\"]");
    let cmd = SquadCmd { team_setup: TeamSetup::Squad, users: names(&[]) };
    assert_eq!(cmd.describe(), "Team Setup: Squad Users: []");
    let cmd = SquadCmd { team_setup: TeamSetup::Trio, users: names(&["a\"b"]) };
    assert_eq!(cmd.describe(), "Team Setup: Trio Users: [\"a\\\"b\"]");
}
