use mecha_parser::extract::extract_json_object_from_line;
use mecha_parser::parser::{parse_boolish_str, parse_line, parse_line_with_words, Update};

fn single_player(line: &str) -> mecha_parser::parser::PlayerUpdate {
    let ups = parse_line(line);
    assert_eq!(ups.len(), 1);
    match ups.into_iter().next().unwrap() {
        Update::PlayerUpdate(p) => p,
        _ => panic!("expected player update"),
    }
}

#[test]
fn json_extractor_skips_frame_brackets() {
    let line = r#"foo [frame=123] msg=[{"a":1,"b":[2,3]}] trailing"#;
    let json = extract_json_object_from_line(line).expect("should extract json");
    assert_eq!(json, r#"[{"a":1,"b":[2,3]}]"#);
}

#[test]
fn parses_player_line_and_ready() {
    let line = "UIWarPreparePlayer.cs playerId : 111, displayName : Alice, mechaId : 100020, pilotId : 1, ready : true";
    let ups = parse_line(line);
    assert_eq!(ups.len(), 1);
    match &ups[0] {
        Update::PlayerUpdate(p) => {
            assert_eq!(p.player_id, "111");
            assert_eq!(p.display_name.as_deref(), Some("Alice"));
            assert_eq!(p.mecha_id, Some(100020));
            assert_eq!(p.ready, Some(true));
        }
        _ => panic!("expected player update"),
    }
}

#[test]
fn parses_ready_notice() {
    let line = "OnEmBattleReadyStateNotice playerId: 111 ready: false";
    let ups = parse_line(line);
    assert_eq!(ups.len(), 1);
    match &ups[0] {
        Update::PlayerUpdate(p) => {
            assert_eq!(p.player_id, "111");
            assert_eq!(p.ready, Some(false));
        }
        _ => panic!("expected player update"),
    }
}

#[test]
fn extractor_without_msg_scans_whole_line() {
    let line = r#"prefix {"x": "a}b", "y": [1, {"z": 2}]} tail"#;
    assert_eq!(
        extract_json_object_from_line(line).as_deref(),
        Some(r#"{"x": "a}b", "y": [1, {"z": 2}]}"#)
    );
}

#[test]
fn extractor_falls_back_before_msg() {
    let line = r#"{"k": 1} msg=nothing here"#;
    assert_eq!(extract_json_object_from_line(line).as_deref(), Some(r#"{"k": 1}"#));
}

#[test]
fn extractor_handles_escaped_quotes() {
    let line = r#"msg={"s": "he said \"}\""} end"#;
    assert_eq!(extract_json_object_from_line(line).as_deref(), Some(r#"{"s": "he said \"}\""}"#));
}

#[test]
fn extractor_rejects_mismatched_brackets() {
    assert_eq!(extract_json_object_from_line(r#"msg={"a": [1, 2}"#), None);
    assert_eq!(extract_json_object_from_line("no json at all"), None);
    assert_eq!(extract_json_object_from_line(r#"msg={"open": 1"#), None);
}

#[test]
fn extractor_skips_frame_without_msg() {
    let line = "[frame=7] [ 1, 2 ]";
    assert_eq!(extract_json_object_from_line(line).as_deref(), Some("[ 1, 2 ]"));
}

#[test]
fn reset_line_gives_reset() {
    let ups = parse_line("xx GAME_S2C_QUERY_COMBAT_RECORD_RESULT yy playerId : 1");
    assert_eq!(ups.len(), 1);
    assert!(matches!(ups[0], Update::ResetPlayers));
}

#[test]
fn unrelated_line_gives_nothing() {
    assert!(parse_line("just some text").is_empty());
    assert!(parse_line("").is_empty());
}

#[test]
fn player_line_trims_name_and_reads_case_insensitive_ready() {
    let p = single_player(
        "[UIWarPreparePlayer.cs] playerId:42,displayName:  Bob Smith  ,mechaId: 7,pilotId:3, ready:FALSE trailing",
    );
    assert_eq!(p.player_id, "42");
    assert_eq!(p.display_name.as_deref(), Some("Bob Smith"));
    assert_eq!(p.mecha_id, Some(7));
    assert_eq!(p.ready, Some(false));
    assert_eq!(p.is_ai, None);
    assert_eq!(p.camp_id, None);
}

#[test]
fn player_line_with_unknown_ready_word() {
    let p = single_player(
        "UIWarPreparePlayer.cs playerId : 5, displayName : X, mechaId : 99999999999, pilotId : 1, ready : maybe",
    );
    assert_eq!(p.ready, None);
    // too large for a u32
    assert_eq!(p.mecha_id, None);
}

#[test]
fn player_line_blank_name_keeps_empty_name() {
    // `\s*` gives one space back so that the name group is not empty.
    let p = single_player(
        "UIWarPreparePlayer.cs playerId : 5, displayName :  , mechaId : 3, pilotId : 1, ready : true",
    );
    assert_eq!(p.display_name.as_deref(), Some(""));
    assert_eq!(p.mecha_id, Some(3));
}

#[test]
fn mecha_choice_line() {
    let p = single_player(
        "UIWarPreparePlayer.cs playerId : 777, displayName : Eve Online 选择机甲[100031]",
    );
    assert_eq!(p.player_id, "777");
    assert_eq!(p.display_name.as_deref(), Some("Eve Online"));
    assert_eq!(p.mecha_id, Some(100031));
    assert_eq!(p.ready, None);
}

#[test]
fn mecha_choice_name_is_lazy() {
    let p = single_player(
        "UIWarPreparePlayer.cs playerId : 8, displayName : A B 选择机甲[1] C 选择机甲[2]",
    );
    assert_eq!(p.display_name.as_deref(), Some("A B"));
    assert_eq!(p.mecha_id, Some(1));
}

#[test]
fn ready_notice_is_case_insensitive() {
    let p = single_player("OnEmBattleReadyStateNotice playerId: 12 READY: True");
    assert_eq!(p.player_id, "12");
    assert_eq!(p.ready, Some(true));
    assert_eq!(p.display_name, None);
    assert_eq!(p.mecha_id, None);
}

#[test]
fn ready_notice_needs_case_sensitive_markers() {
    assert!(parse_line("onembattlereadystatenotice playerId: 12 ready: true").is_empty());
    assert!(parse_line("OnEmBattleReadyStateNotice PLAYERID: 12 ready: true").is_empty());
}

#[test]
fn voice_room_snapshot_gives_one_update_per_player() {
    let line = r#"VoiceModule EnterWarVoiceRoom msg=[{"campId": 1, "campPlayers": [{"playerId": " 10 ", "playerName": "Ann", "isAi": "TRUE", "mechaIdSelected": 0, "mechaId": "200"}, {"playerId": 11, "campId": 2, "mechaIdSelected": 300}]}, {"campId": 2, "campPlayers": [{"playerId": "", "playerName": "ghost"}, {"playerName": "noid"}, {"playerId": 12, "isAi": false}]}]"#;
    let ups = parse_line(line);
    assert_eq!(ups.len(), 3);
    let ps: Vec<_> = ups
        .into_iter()
        .map(|u| match u {
            Update::PlayerUpdate(p) => p,
            _ => panic!("expected player update"),
        })
        .collect();
    assert_eq!(ps[0].player_id, "10");
    assert_eq!(ps[0].display_name.as_deref(), Some("Ann"));
    assert_eq!(ps[0].is_ai, Some(true));
    assert_eq!(ps[0].mecha_id, Some(200));
    assert_eq!(ps[0].camp_id, Some(1));
    assert_eq!(ps[0].ready, None);
    assert_eq!(ps[1].player_id, "11");
    assert_eq!(ps[1].mecha_id, Some(300));
    assert_eq!(ps[1].camp_id, Some(2));
    assert_eq!(ps[2].player_id, "12");
    assert_eq!(ps[2].is_ai, Some(false));
    assert_eq!(ps[2].camp_id, Some(2));
}

#[test]
fn voice_room_single_camp_object() {
    let line = r#"EnterWarVoiceRoom msg={"campId": 300, "campPlayers": [{"playerId": 5}]}"#;
    let p = single_player(line);
    assert_eq!(p.player_id, "5");
    // 300 does not fit a camp id
    assert_eq!(p.camp_id, None);
}

#[test]
fn mecha_selection_json_line() {
    let line = r#"UIWarPrepareModule: 收到玩家选择机甲协议, {"playerId": 4242, "mechaId": "100021"}"#;
    let p = single_player(line);
    assert_eq!(p.player_id, "4242");
    assert_eq!(p.mecha_id, Some(100021));
    assert_eq!(p.ready, None);
}

#[test]
fn ready_json_line_reads_ai_mecha() {
    let line = r#"x msg={"playerId": "p1", "ready": "false", "aiMechaDiy": {"mechaId": 55}}"#;
    let p = single_player(line);
    assert_eq!(p.player_id, "p1");
    assert_eq!(p.ready, Some(false));
    assert_eq!(p.mecha_id, Some(55));
}

#[test]
fn ready_json_line_with_bad_player_id_gives_nothing() {
    assert!(parse_line(r#"msg={"playerId": true, "ready": true}"#).is_empty());
    assert!(parse_line(r#"msg={"playerId": -3, "ready": true}"#).is_empty());
    assert!(parse_line(r#"msg={"playerId": "a", "ready": 1, "x": }"#).is_empty());
}

#[test]
fn zero_mecha_id_is_no_mecha() {
    let line = r#"UIWarPrepareModule 收到玩家选择机甲协议 {"playerId": "9", "mechaId": 0}"#;
    let p = single_player(line);
    assert_eq!(p.mecha_id, None);
}

#[test]
fn boolish_strings() {
    assert_eq!(parse_boolish_str(" TRUE \n"), Some(true));
    assert_eq!(parse_boolish_str("False"), Some(false));
    assert_eq!(parse_boolish_str("\u{3000}true"), Some(true));
    assert_eq!(parse_boolish_str("yes"), None);
    assert_eq!(parse_boolish_str(""), None);
}

#[test]
fn word_flags_decide_the_ready_word() {
    let line = "OnEmBattleReadyStateNotice playerId: 12 ready: truex";
    let n = line.chars().count();
    // with every character a word character, the ready word is `truex`
    let all = vec![true; n];
    match &parse_line_with_words(line, &all)[0] {
        Update::PlayerUpdate(p) => assert_eq!(p.ready, None),
        _ => panic!("expected player update"),
    }
    // with the final `x` not a word character, it is `true`
    let mut cut = vec![true; n];
    cut[n - 1] = false;
    match &parse_line_with_words(line, &cut)[0] {
        Update::PlayerUpdate(p) => assert_eq!(p.ready, Some(true)),
        _ => panic!("expected player update"),
    }
    // with no word characters the notice does not match
    assert!(parse_line_with_words(line, &[]).is_empty());
}
