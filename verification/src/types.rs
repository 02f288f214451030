//! The values that the tracker shows and keeps: players, the team split,
//! roster snapshots, the tracker's status and its configuration.

use vstd::prelude::*;
use crate::parser::opt_chars;

verus! {

/// One player of the roster.
#[derive(Debug, Clone)]
pub struct Player {
    pub player_id: String,
    pub display_name: Option<String>,
    pub ready: Option<bool>,
    pub mecha_id: Option<u32>,
    pub is_ai: Option<bool>,
    pub camp_id: Option<u8>,
}

/// The mathematical value of a `Player`.
pub struct PlayerView {
    pub player_id: Seq<char>,
    pub display_name: Option<Seq<char>>,
    pub ready: Option<bool>,
    pub mecha_id: Option<u32>,
    pub is_ai: Option<bool>,
    pub camp_id: Option<u8>,
}

impl View for Player {
    type V = PlayerView;

    open spec fn view(&self) -> PlayerView {
        PlayerView {
            player_id: self.player_id@,
            display_name: opt_chars(self.display_name),
            ready: self.ready,
            mecha_id: self.mecha_id,
            is_ai: self.is_ai,
            camp_id: self.camp_id,
        }
    }
}

/// The views of a sequence of players.
pub open spec fn players_view(v: Seq<Player>) -> Seq<PlayerView> {
    v.map_values(|p: Player| p@)
}

/// The roster split by camp: camp 1, camp 2, and everyone else.
#[derive(Debug, Clone)]
pub struct TeamSplit {
    pub team1: Vec<Player>,
    pub team2: Vec<Player>,
    pub unassigned: Vec<Player>,
}

/// A roster as shown to the user.
#[derive(Debug, Clone)]
pub struct RosterSnapshot {
    /// Monotonic version counter incremented on each emitted snapshot.
    pub version: u64,
    pub teams: TeamSplit,
}

/// Whether the tracker runs, on which file, and its last error.
#[derive(Debug, Clone)]
pub struct TrackerStatus {
    pub tracking: bool,
    pub log_path: Option<String>,
    pub last_error: Option<String>,
}

/// The user's settings.
#[derive(Debug, Clone)]
pub struct AppConfig {
    pub mode: LogMode,
    pub manual_log_path: Option<String>,
    pub asset_pack_dir: Option<String>,
}

/// How the log file is found: by looking at the running game, or as configured.
#[derive(Debug, Clone, Copy, PartialEq, Eq)]
pub enum LogMode {
    Auto,
    Manual,
}

impl Default for AppConfig {
    /// Automatic log discovery and no paths.
    fn default() -> (r: Self)
        ensures
            r.mode == LogMode::Auto,
            r.manual_log_path is None,
            r.asset_pack_dir is None,
    {
        AppConfig { mode: LogMode::Auto, manual_log_path: None, asset_pack_dir: None }
    }
}

} // verus!
