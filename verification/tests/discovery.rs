use mecha_parser::log_discovery::{
    is_game_process, is_roster_log_name, iter_log_base_candidates, latest_index, SplitPath,
};
use mecha_parser::tailer::{tail_step, trimmed_line, TailAction, TailEvent, INITIAL_BACKOFF_MS};

fn path(anchor: &str, parts: &[&str]) -> SplitPath {
    SplitPath { anchor: anchor.to_string(), parts: parts.iter().map(|s| s.to_string()).collect() }
}

fn parts(p: &SplitPath) -> Vec<&str> {
    p.parts.iter().map(|s| s.as_str()).collect()
}

#[test]
fn candidates_are_sorted_and_deduplicated() {
    let exe = path("/", &["games", "MechaBreak", "bin", "game.exe"]);
    let c = iter_log_base_candidates(&exe);
    let got: Vec<Vec<&str>> = c.iter().map(parts).collect();
    assert!(c.iter().all(|p| p.anchor == "/"));
    assert_eq!(
        got,
        vec![
            vec!["games", "Game", "MechaBreak", "logs", "MechaBREAK"],
            vec!["games", "MechaBreak", "Game", "MechaBreak", "logs", "MechaBREAK"],
            vec!["games", "MechaBreak", "MechaBreak", "logs", "MechaBREAK"],
            vec!["games", "MechaBreak", "bin", "Game", "MechaBreak", "logs", "MechaBREAK"],
            vec!["games", "MechaBreak", "bin", "MechaBreak", "logs", "MechaBREAK"],
            vec!["games", "MechaBreak", "bin", "logs", "MechaBREAK"],
            vec!["games", "MechaBreak", "logs", "MechaBREAK"],
            vec!["games", "logs", "MechaBREAK"],
        ]
    );
}

#[test]
fn candidates_for_short_paths() {
    assert!(iter_log_base_candidates(&path("/", &[])).is_empty());
    let c = iter_log_base_candidates(&path("", &["game.exe"]));
    let got: Vec<Vec<&str>> = c.iter().map(parts).collect();
    assert_eq!(
        got,
        vec![
            vec!["Game", "MechaBreak", "logs", "MechaBREAK"],
            vec!["MechaBreak", "logs", "MechaBREAK"],
            vec!["logs", "MechaBREAK"],
        ]
    );
}

#[test]
fn game_process_names() {
    assert!(is_game_process("MechaBREAK.exe", "/x/y"));
    assert!(is_game_process("SeasunGame", ""));
    assert!(is_game_process("launcher", "C:\\Games\\MECHABREAK\\l.exe"));
    // the Kelvin sign lowercases to `k`
    assert!(is_game_process("MECHABREA\u{212a}", ""));
    assert!(!is_game_process("other", "C:\\Games\\MECHABREA\u{212a}\\l.exe"));
    assert!(!is_game_process("mecha break", "/usr/bin/x"));
}

#[test]
fn roster_log_names() {
    assert!(is_roster_log_name("2024_01_01_UP.LOG"));
    assert!(is_roster_log_name("_up.log"));
    assert!(!is_roster_log_name("SkillLog.log"));
    assert!(!is_roster_log_name("up.log"));
    assert!(!is_roster_log_name("x_up.log.bak"));
}

#[test]
fn latest_is_last_of_the_greatest() {
    assert_eq!(latest_index(&[]), None);
    assert_eq!(latest_index(&[5]), Some(0));
    assert_eq!(latest_index(&[1, 9, 3, 9, 2]), Some(3));
    assert_eq!(latest_index(&[-4, -2, -3]), Some(1));
}

#[test]
fn line_endings_are_trimmed() {
    assert_eq!(trimmed_line("abc\r\n").as_deref(), Some("abc"));
    assert_eq!(trimmed_line("abc\n\n\r").as_deref(), Some("abc"));
    assert_eq!(trimmed_line(" a b ").as_deref(), Some(" a b "));
    assert_eq!(trimmed_line("\r\n"), None);
    assert_eq!(trimmed_line(""), None);
}

#[test]
fn tail_waits_longer_when_idle_and_reopens_after_shrink() {
    let (next, act) = tail_step(INITIAL_BACKOFF_MS, TailEvent::Eof { pos: 100, len: Some(100) });
    assert_eq!(next, 400);
    assert!(matches!(act, TailAction::Wait { ms: 200, reopen_from_start: false }));
    let (next, act) = tail_step(next, TailEvent::Eof { pos: 100, len: Some(40) });
    assert_eq!(next, 800);
    assert!(matches!(act, TailAction::Wait { ms: 400, reopen_from_start: true }));
    let (next, _) = tail_step(next, TailEvent::Eof { pos: 5, len: None });
    assert_eq!(next, 1000);
    let (next, act) = tail_step(next, TailEvent::Eof { pos: 5, len: None });
    assert_eq!(next, 1000);
    assert!(matches!(act, TailAction::Wait { ms: 1000, reopen_from_start: false }));
}

#[test]
fn tail_sends_lines_and_resets_wait() {
    let (next, act) = tail_step(1000, TailEvent::Line("hello\r\n".to_string()));
    assert_eq!(next, 200);
    match act {
        TailAction::Send(t) => assert_eq!(t, "hello"),
        _ => panic!("expected send"),
    }
    let (next, act) = tail_step(800, TailEvent::Line("\n".to_string()));
    assert_eq!(next, 200);
    assert!(matches!(act, TailAction::Skip));
}

#[test]
fn tail_failures_wait_half_a_second() {
    let (next, act) = tail_step(800, TailEvent::ReadFailed);
    assert_eq!(next, 800);
    assert!(matches!(act, TailAction::Wait { ms: 500, reopen_from_start: false }));
    let (next, act) = tail_step(200, TailEvent::OpenFailed);
    assert_eq!(next, 200);
    assert!(matches!(act, TailAction::Wait { ms: 500, reopen_from_start: false }));
}
