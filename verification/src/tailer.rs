//! Following a growing log file: the stop signal shared with the reading
//! thread, and what becomes of each line read.

use vstd::prelude::*;
use std::sync::atomic::{AtomicBool, Ordering};
use std::sync::Arc;
use crate::text::{chars_of, string_from_chars};

verus! {

broadcast use vstd::string::group_string_axioms;

/// A handle on a running tail: stopping it tells the reading thread to end.
#[derive(Clone)]
pub struct TailerHandle {
    stop: Arc<AtomicBool>,
}

impl TailerHandle {
    /// The flag that the reading thread watches.
    pub closed spec fn flag(&self) -> Arc<AtomicBool> {
        self.stop
    }

    /// A handle on the tail that watches `stop`.
    pub fn new(stop: Arc<AtomicBool>) -> (r: Self)
        ensures
            r.flag() == stop,
    {
        TailerHandle { stop }
    }

    /// Tells the reading thread to end.
    pub fn stop(&self) {
        self.stop.store(true, Ordering::Relaxed);
    }
}

/// `s` without the line feeds and carriage returns at its end.
pub open spec fn strip_line_ending(s: Seq<char>) -> Seq<char>
    decreases s.len(),
{
    if s.len() > 0 && (s.last() == '\n' || s.last() == '\r') {
        strip_line_ending(s.drop_last())
    } else {
        s
    }
}

/// The text of a line as read (with its line ending): the line without its
/// ending, or nothing for a line that holds nothing else.
pub fn trimmed_line(line: &str) -> (r: Option<String>)
    ensures
        match r {
            Some(t) => t@ == strip_line_ending(line@) && t@.len() > 0,
            None => strip_line_ending(line@).len() == 0,
        },
{
    let c = chars_of(line);
    let mut n = c.len();
    assert(c@.take(n as int) == c@);
    while n > 0 && (c[n - 1] == '\n' || c[n - 1] == '\r')
        invariant
            n <= c@.len(),
            strip_line_ending(c@.take(n as int)) == strip_line_ending(c@),
        decreases n,
    {
        assert(c@.take(n as int).drop_last() == c@.take(n as int - 1));
        n = n - 1;
    }
    proof {
        assert(c@.take(c@.len() as int) == c@);
    }
    if n == 0 {
        return None;
    }
    let t = crate::text::sub_chars(c.as_slice(), 0, n);
    assert(t@ == c@.take(n as int));
    Some(string_from_chars(t.as_slice()))
}

/// The wait before the first retry when nothing new was read.
pub const INITIAL_BACKOFF_MS: u64 = 200;

/// The longest wait when nothing new is read.
pub const MAX_BACKOFF_MS: u64 = 1000;

/// The wait after the file could not be opened or read.
pub const RETRY_MS: u64 = 500;

/// What the reading thread observed.
pub enum TailEvent {
    /// Nothing more to read: the read position, and the file's length where
    /// it could be had.
    Eof { pos: u64, len: Option<u64> },
    /// A line was read, with its line ending.
    Line(String),
    /// The read failed.
    ReadFailed,
    /// The file could not be opened.
    OpenFailed,
}

/// What the reading thread does next.
pub enum TailAction {
    /// Sleep `ms` milliseconds, after reopening the file from its start when
    /// `reopen_from_start` is set (it shrank: truncated or rotated).
    Wait { ms: u64, reopen_from_start: bool },
    /// Hand this line on.
    Send(String),
    /// Nothing to hand on.
    Skip,
}

/// The next idle wait: twice the last, at most `MAX_BACKOFF_MS`.
pub open spec fn next_backoff(ms: u64) -> u64 {
    if 2 * ms < MAX_BACKOFF_MS {
        (2 * ms) as u64
    } else {
        MAX_BACKOFF_MS
    }
}

/// One step of the tail: from the current idle wait and what was observed,
/// the next idle wait and what to do. At the end of the file it waits (the
/// wait doubling up to a second, to save work while the game is quiet) and
/// reopens from the start when the file is now shorter than the read
/// position; a line resets the wait and is handed on without its ending,
/// unless nothing else is left; a failure waits half a second.
pub fn tail_step(idle_backoff_ms: u64, ev: TailEvent) -> (r: (u64, TailAction))
    ensures
        match ev {
            TailEvent::Eof { pos, len } => r.0 == next_backoff(idle_backoff_ms) && match r.1 {
                TailAction::Wait { ms, reopen_from_start } => ms == idle_backoff_ms
                    && reopen_from_start == (len matches Some(l) && l < pos),
                _ => false,
            },
            TailEvent::Line(s) => r.0 == INITIAL_BACKOFF_MS && match r.1 {
                TailAction::Send(t) => t@ == strip_line_ending(s@) && t@.len() > 0,
                TailAction::Skip => strip_line_ending(s@).len() == 0,
                _ => false,
            },
            TailEvent::ReadFailed | TailEvent::OpenFailed => r.0 == idle_backoff_ms && match r.1 {
                TailAction::Wait { ms, reopen_from_start } => ms == RETRY_MS && !reopen_from_start,
                _ => false,
            },
        },
{
    match ev {
        TailEvent::Eof { pos, len } => {
            let reopen = match len {
                Some(l) => l < pos,
                None => false,
            };
            let next = if idle_backoff_ms < MAX_BACKOFF_MS / 2 {
                2 * idle_backoff_ms
            } else {
                MAX_BACKOFF_MS
            };
            (next, TailAction::Wait { ms: idle_backoff_ms, reopen_from_start: reopen })
        },
        TailEvent::Line(s) => match trimmed_line(s.as_str()) {
            Some(t) => (INITIAL_BACKOFF_MS, TailAction::Send(t)),
            None => (INITIAL_BACKOFF_MS, TailAction::Skip),
        },
        TailEvent::ReadFailed | TailEvent::OpenFailed => (
            idle_backoff_ms,
            TailAction::Wait { ms: RETRY_MS, reopen_from_start: false },
        ),
    }
}

} // verus!
