//! Roster tracking for MechaBREAK game logs: the log-line grammar, the
//! player roster that the lines update, and the decisions of the tracker.

pub mod classes;
pub mod commands;
pub mod extract;
pub mod json;
pub mod log_discovery;
pub mod parser;
pub mod patterns;
pub mod state;
pub mod tailer;
pub mod text;
pub mod types;
