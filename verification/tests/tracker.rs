use mecha_parser::commands::{choose_log_path, RosterFeed, TrackerController, EMIT_INTERVAL_MS};
use mecha_parser::types::{AppConfig, LogMode, TrackerStatus};

#[test]
fn feed_versions_count_up_by_one() {
    let mut feed = RosterFeed::new();
    let first = feed.initial_snapshot();
    assert_eq!(first.version, 1);
    assert!(first.teams.team1.is_empty());
    // the initial snapshot leaves the change pending
    let second = feed.poll_snapshot(EMIT_INTERVAL_MS).expect("pending change");
    assert_eq!(second.version, 2);
    // nothing changed since
    assert!(feed.poll_snapshot(10_000).is_none());
    feed.ingest_line("UIWarPreparePlayer.cs playerId : 1, displayName : A, mechaId : 2, pilotId : 3, ready : true");
    // too soon
    assert!(feed.poll_snapshot(EMIT_INTERVAL_MS - 1).is_none());
    let third = feed.poll_snapshot(EMIT_INTERVAL_MS).expect("change");
    assert_eq!(third.version, 3);
    assert_eq!(third.teams.unassigned.len(), 1);
}

#[test]
fn feed_repeated_line_is_not_a_change() {
    let mut feed = RosterFeed::new();
    let line = "OnEmBattleReadyStateNotice playerId: 5 ready: true";
    feed.ingest_line(line);
    assert!(feed.poll_snapshot(500).is_some());
    feed.ingest_line(line);
    assert!(feed.poll_snapshot(500).is_none());
    feed.ingest_line("GAME_S2C_QUERY_COMBAT_RECORD_RESULT");
    let snap = feed.poll_snapshot(500).expect("reset is a change");
    assert!(snap.teams.unassigned.is_empty());
}

#[test]
fn log_path_choice() {
    let auto = AppConfig::default();
    assert_eq!(choose_log_path(&auto, Some("C:/x_up.log".to_string())), Ok("C:/x_up.log".to_string()));
    assert_eq!(
        choose_log_path(&auto, None),
        Err("Could not locate MechaBREAK log file".to_string())
    );
    let manual = AppConfig { mode: LogMode::Manual, manual_log_path: Some("/tmp/a.log".into()), asset_pack_dir: None };
    assert_eq!(choose_log_path(&manual, Some("ignored".into())), Ok("/tmp/a.log".to_string()));
    let manual_none = AppConfig { mode: LogMode::Manual, manual_log_path: None, asset_pack_dir: None };
    assert_eq!(
        choose_log_path(&manual_none, None),
        Err("Manual mode selected but no manualLogPath configured".to_string())
    );
}

#[test]
fn controller_lifecycle() {
    let mut c = TrackerController::default();
    let st = c.status();
    assert!(!st.tracking && st.log_path.is_none() && st.last_error.is_none());
    assert!(c.cached_config().is_none());
    assert!(c.begin_tracking());
    assert!(!c.begin_tracking());
    assert!(!c.should_stop());
    c.request_stop();
    assert!(c.should_stop());
    c.set_status(TrackerStatus { tracking: true, log_path: Some("p".into()), last_error: None });
    assert!(c.status().tracking);
    c.finish_tracking("p".to_string());
    let st = c.status();
    assert!(!st.tracking);
    assert_eq!(st.log_path.as_deref(), Some("p"));
    assert!(c.begin_tracking());
    assert!(!c.should_stop());
    c.cache_config(AppConfig { mode: LogMode::Manual, manual_log_path: Some("m".into()), asset_pack_dir: Some("d".into()) });
    let cfg = c.cached_config().unwrap();
    assert_eq!(cfg.mode, LogMode::Manual);
    assert_eq!(cfg.manual_log_path.as_deref(), Some("m"));
    assert_eq!(cfg.asset_pack_dir.as_deref(), Some("d"));
}

#[test]
fn default_config_is_auto() {
    let c = AppConfig::default();
    assert_eq!(c.mode, LogMode::Auto);
    assert!(c.manual_log_path.is_none());
    assert!(c.asset_pack_dir.is_none());
}

#[test]
fn session_versions_and_first_snapshot() {
    let mut feed = RosterFeed::new();
    let first = feed.initial_snapshot();
    assert_eq!(first.version, 1);
    assert!(first.teams.team1.is_empty() && first.teams.team2.is_empty() && first.teams.unassigned.is_empty());
    let mut expected = 2;
    for line in [
        "OnEmBattleReadyStateNotice playerId: 1 ready: true",
        "OnEmBattleReadyStateNotice playerId: 2 ready: true",
        "OnEmBattleReadyStateNotice playerId: 2 ready: true",
    ] {
        feed.ingest_line(line);
        if let Some(s) = feed.poll_snapshot(1000) {
            assert_eq!(s.version, expected);
            expected += 1;
        }
    }
    assert_eq!(expected, 4);
}
