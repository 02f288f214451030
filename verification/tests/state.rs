use mecha_parser::parser::{self, PlayerUpdate};
use mecha_parser::state::{PlayersState, MAX_PLAYERS};

fn upd(id: &str) -> PlayerUpdate {
    PlayerUpdate { player_id: id.to_string(), ..Default::default() }
}

#[test]
fn replay_fixture_lines_produces_expected_state() {
    let text = "\
UIWarPreparePlayer.cs playerId : 111, displayName : Alice, mechaId : 100020, pilotId : 1, ready : true
UIWarPreparePlayer.cs playerId : 222, displayName : Bob, mechaId : 100021, pilotId : 2, ready : false
OnEmBattleReadyStateNotice playerId: 222 ready: true
EnterWarVoiceRoom msg=[{\"campId\": 1, \"campPlayers\": [{\"playerId\": \"111\"}]}, {\"campId\": 2, \"campPlayers\": [{\"playerId\": \"222\"}]}]
GAME_S2C_QUERY_COMBAT_RECORD_RESULT
";
    let mut state = PlayersState::default();

    for line in text.lines() {
        for up in parser::parse_line(line) {
            match up {
                parser::Update::ResetPlayers => state.clear(),
                parser::Update::PlayerUpdate(pu) => {
                    state.apply_update(pu);
                }
            }
        }
    }

    // After the reset line at the end of the fixture, state should be empty.
    let teams = state.snapshot_teams();
    assert_eq!(teams.team1.len(), 0);
    assert_eq!(teams.team2.len(), 0);
    assert_eq!(teams.unassigned.len(), 0);
}

#[test]
fn replay_without_reset_keeps_teams() {
    let text = "\
UIWarPreparePlayer.cs playerId : 111, displayName : Alice, mechaId : 100020, pilotId : 1, ready : true
UIWarPreparePlayer.cs playerId : 222, displayName : Bob, mechaId : 100021, pilotId : 2, ready : false
EnterWarVoiceRoom msg=[{\"campId\": 1, \"campPlayers\": [{\"playerId\": \"111\"}]}, {\"campId\": 2, \"campPlayers\": [{\"playerId\": \"222\"}, {\"playerId\": \"333\"}]}]
";
    let mut state = PlayersState::default();
    for line in text.lines() {
        for up in parser::parse_line(line) {
            match up {
                parser::Update::ResetPlayers => state.clear(),
                parser::Update::PlayerUpdate(pu) => {
                    state.apply_update(pu);
                }
            }
        }
    }
    let teams = state.snapshot_teams();
    assert_eq!(teams.team1.len(), 1);
    assert_eq!(teams.team1[0].display_name.as_deref(), Some("Alice"));
    assert_eq!(teams.team1[0].mecha_id, Some(100020));
    assert_eq!(teams.team2.len(), 2);
    // "333" has no name: the empty name sorts first
    assert_eq!(teams.team2[0].player_id, "333");
    assert_eq!(teams.team2[1].player_id, "222");
    assert_eq!(teams.unassigned.len(), 0);
}

#[test]
fn apply_update_reports_changes() {
    let mut s = PlayersState::default();
    assert!(s.apply_update(PlayerUpdate { ready: Some(true), ..upd(" 7 ") }));
    // same facts again: no change
    assert!(!s.apply_update(PlayerUpdate { ready: Some(true), ..upd("7") }));
    // an update without fields: no change
    assert!(!s.apply_update(upd("7")));
    assert!(s.apply_update(PlayerUpdate { ready: Some(false), ..upd("7") }));
    assert!(s.apply_update(PlayerUpdate { display_name: Some("N".to_string()), ..upd("7") }));
    assert!(!s.apply_update(PlayerUpdate { display_name: Some("N".to_string()), ..upd("7") }));
    let t = s.snapshot_teams();
    assert_eq!(t.unassigned.len(), 1);
    assert_eq!(t.unassigned[0].player_id, "7");
    assert_eq!(t.unassigned[0].ready, Some(false));
    assert_eq!(t.unassigned[0].display_name.as_deref(), Some("N"));
}

#[test]
fn empty_id_is_ignored() {
    let mut s = PlayersState::default();
    assert!(!s.apply_update(upd("   ")));
    assert!(!s.apply_update(upd("")));
    assert_eq!(s.snapshot_teams().unassigned.len(), 0);
}

#[test]
fn update_keeps_unmentioned_fields() {
    let mut s = PlayersState::default();
    s.apply_update(PlayerUpdate { mecha_id: Some(5), camp_id: Some(1), is_ai: Some(false), ..upd("a") });
    s.apply_update(PlayerUpdate { ready: Some(true), ..upd("a") });
    let t = s.snapshot_teams();
    assert_eq!(t.team1.len(), 1);
    let p = &t.team1[0];
    assert_eq!(p.mecha_id, Some(5));
    assert_eq!(p.is_ai, Some(false));
    assert_eq!(p.ready, Some(true));
}

#[test]
fn oldest_player_is_evicted_when_full() {
    let mut s = PlayersState::default();
    for i in 0..MAX_PLAYERS {
        assert!(s.apply_update(upd(&format!("p{i:02}"))));
    }
    assert_eq!(s.snapshot_teams().unassigned.len(), MAX_PLAYERS);
    // updating the oldest does not move it
    s.apply_update(PlayerUpdate { ready: Some(true), ..upd("p00") });
    assert!(s.apply_update(upd("new")));
    let t = s.snapshot_teams();
    assert_eq!(t.unassigned.len(), MAX_PLAYERS);
    assert!(t.unassigned.iter().all(|p| p.player_id != "p00"));
    assert!(t.unassigned.iter().any(|p| p.player_id == "new"));
    assert!(t.unassigned.iter().any(|p| p.player_id == "p01"));
}

#[test]
fn teams_are_sorted_humans_unknown_ai_then_name_then_id() {
    let mut s = PlayersState::default();
    s.apply_update(PlayerUpdate { is_ai: Some(true), display_name: Some("Alpha".into()), camp_id: Some(1), ..upd("1") });
    s.apply_update(PlayerUpdate { display_name: Some("Zed".into()), camp_id: Some(1), ..upd("2") });
    s.apply_update(PlayerUpdate { is_ai: Some(false), display_name: Some("Yan".into()), camp_id: Some(1), ..upd("3") });
    s.apply_update(PlayerUpdate { is_ai: Some(false), display_name: Some("Bea".into()), camp_id: Some(1), ..upd("5") });
    s.apply_update(PlayerUpdate { is_ai: Some(false), display_name: Some("Bea".into()), camp_id: Some(1), ..upd("4") });
    s.apply_update(PlayerUpdate { camp_id: Some(3), ..upd("9") });
    let t = s.snapshot_teams();
    let ids: Vec<&str> = t.team1.iter().map(|p| p.player_id.as_str()).collect();
    assert_eq!(ids, vec!["4", "5", "3", "2", "1"]);
    assert_eq!(t.team2.len(), 0);
    assert_eq!(t.unassigned.len(), 1);
}

#[test]
fn clear_empties_roster() {
    let mut s = PlayersState::default();
    s.apply_update(upd("x"));
    s.clear();
    let t = s.snapshot_teams();
    assert!(t.team1.is_empty() && t.team2.is_empty() && t.unassigned.is_empty());
    assert!(s.apply_update(upd("x")));
}

fn team_ids(t: &[mecha_parser::types::Player]) -> Vec<String> {
    t.iter().map(|p| p.player_id.clone()).collect()
}

#[test]
fn snapshot_is_determined_by_the_roster() {
    let ups = vec![
        PlayerUpdate { display_name: Some("Kai".into()), camp_id: Some(2), ..upd("7") },
        PlayerUpdate { is_ai: Some(false), display_name: Some("Ann".into()), camp_id: Some(1), ..upd("3") },
        PlayerUpdate { is_ai: Some(true), display_name: Some("Bot".into()), camp_id: Some(1), ..upd("8") },
        PlayerUpdate { camp_id: Some(5), ..upd("2") },
    ];
    let mut a = PlayersState::default();
    for u in ups.iter() {
        a.apply_update(u.clone());
    }
    let first = a.snapshot_teams();
    let second = a.snapshot_teams();
    let mut b = PlayersState::default();
    for u in ups.iter() {
        b.apply_update(u.clone());
    }
    let fresh = b.snapshot_teams();
    for t in [&second, &fresh] {
        assert_eq!(team_ids(&first.team1), team_ids(&t.team1));
        assert_eq!(team_ids(&first.team2), team_ids(&t.team2));
        assert_eq!(team_ids(&first.unassigned), team_ids(&t.unassigned));
    }
    assert_eq!(team_ids(&first.team1), vec!["3", "8"]);
    assert_eq!(team_ids(&first.team2), vec!["7"]);
    assert_eq!(team_ids(&first.unassigned), vec!["2"]);
}
