//! The tracker's decisions: which log file to follow, its status, and the
//! loop that turns log lines into roster snapshots. The waiting, reading and
//! sending happen around these functions.

use vstd::prelude::*;
use crate::parser::{opt_chars, parse_line, updates_view, PlayerUpdate, Update, UpdateView};
use crate::state::{apply_spec, is_team, PlayersState};
use crate::types::{players_view, AppConfig, LogMode, PlayerView, RosterSnapshot, TrackerStatus};

verus! {

broadcast use vstd::string::group_string_axioms;

/// The least time between two snapshots of a changing roster.
pub const EMIT_INTERVAL_MS: u64 = 120;

/// The roster after the updates `ups` in order, and whether anything changed
/// since `dirty` was last cleared: a reset empties the roster and counts as a
/// change; a player update counts when `apply_update` reports one.
pub open spec fn apply_updates(roster: Seq<PlayerView>, dirty: bool, ups: Seq<UpdateView>) -> (
    Seq<PlayerView>,
    bool,
)
    decreases ups.len(),
{
    if ups.len() == 0 {
        (roster, dirty)
    } else {
        let (r1, d1) = apply_updates(roster, dirty, ups.drop_last());
        match ups.last() {
            UpdateView::ResetPlayers => (Seq::empty(), true),
            UpdateView::PlayerUpdate(u) => {
                let (r2, changed) = apply_spec(r1, u);
                (r2, d1 || changed)
            },
        }
    }
}

/// `snap` shows `roster` as the team split, under version `version`.
pub open spec fn shows(snap: RosterSnapshot, roster: Seq<PlayerView>, version: u64) -> bool {
    &&& snap.version == version
    &&& is_team(players_view(snap.teams.team1@), roster, 1)
    &&& is_team(players_view(snap.teams.team2@), roster, 2)
    &&& is_team(players_view(snap.teams.unassigned@), roster, 0)
}

/// What the loop that follows a log file does to its feed.
pub enum FeedEvent {
    /// Tracking starts: the first snapshot is sent.
    Start,
    /// A line was read.
    Ingest(Seq<char>),
    /// A check, `ms` milliseconds after the last snapshot, whether a snapshot is due.
    Poll(u64),
}

/// `after` and `out` are what `before` becomes and gives on the event `ev`:
/// the contracts of `initial_snapshot`, `ingest_line` and `poll_snapshot`.
pub open spec fn feed_step(
    before: RosterFeed,
    after: RosterFeed,
    ev: FeedEvent,
    out: Option<RosterSnapshot>,
) -> bool {
    &&& after.wf()
    &&& match ev {
        FeedEvent::Start => {
            &&& after.roster() == before.roster()
            &&& after.dirty() == before.dirty()
            &&& after.version() == before.version().wrapping_add(1)
            &&& out matches Some(snap) && shows(snap, after.roster(), after.version())
        },
        FeedEvent::Ingest(line) => {
            &&& out is None
            &&& after.version() == before.version()
            &&& (after.roster(), after.dirty()) == apply_updates(
                before.roster(),
                before.dirty(),
                crate::parser::line_updates(line),
            )
        },
        FeedEvent::Poll(ms) => {
            &&& after.roster() == before.roster()
            &&& match out {
                Some(snap) => {
                    &&& before.dirty() && ms >= EMIT_INTERVAL_MS
                    &&& after.version() == before.version().wrapping_add(1)
                    &&& !after.dirty()
                    &&& shows(snap, after.roster(), after.version())
                },
                None => {
                    &&& !(before.dirty() && ms >= EMIT_INTERVAL_MS)
                    &&& after.version() == before.version()
                    &&& after.dirty() == before.dirty()
                },
            }
        },
    }
}

/// The state of the loop that follows one log file: the roster, the version
/// of the last snapshot sent, and whether the roster changed since then.
pub struct RosterFeed {
    state: PlayersState,
    version: u64,
    dirty: bool,
}

impl RosterFeed {
    pub closed spec fn wf(&self) -> bool {
        self.state.wf()
    }

    pub closed spec fn roster(&self) -> Seq<PlayerView> {
        self.state.roster()
    }

    pub closed spec fn version(&self) -> u64 {
        self.version
    }

    pub closed spec fn dirty(&self) -> bool {
        self.dirty
    }

    /// An empty roster, no snapshot sent yet, and a pending change so that the
    /// first poll sends one.
    pub fn new() -> (r: Self)
        ensures
            r.wf(),
            r.roster() == Seq::<PlayerView>::empty(),
            r.version() == 0,
            r.dirty(),
    {
        RosterFeed { state: PlayersState::default(), version: 0, dirty: true }
    }

    fn snapshot(&self) -> (r: RosterSnapshot)
        requires
            self.wf(),
        ensures
            shows(r, self.roster(), self.version),
    {
        RosterSnapshot { version: self.version, teams: self.state.snapshot_teams() }
    }

    /// The snapshot sent when tracking starts: the next version, whatever the
    /// roster holds. The pending change stays pending.
    pub fn initial_snapshot(&mut self) -> (r: RosterSnapshot)
        requires
            old(self).wf(),
        ensures
            final(self).wf(),
            final(self).roster() == old(self).roster(),
            final(self).dirty() == old(self).dirty(),
            final(self).version() == old(self).version().wrapping_add(1),
            shows(r, final(self).roster(), final(self).version()),
            feed_step(*old(self), *final(self), FeedEvent::Start, Some(r)),
    {
        self.version = self.version.wrapping_add(1);
        self.snapshot()
    }

    /// Applies what one log line says to the roster.
    pub fn ingest_line(&mut self, line: &str)
        requires
            old(self).wf(),
        ensures
            final(self).wf(),
            final(self).version() == old(self).version(),
            (final(self).roster(), final(self).dirty()) == apply_updates(
                old(self).roster(),
                old(self).dirty(),
                crate::parser::line_updates(line@),
            ),
            feed_step(*old(self), *final(self), FeedEvent::Ingest(line@), None),
            old(self).dirty() ==> final(self).dirty(),
    {
        let ups = parse_line(line);
        let ghost uv = updates_view(ups@);
        let ghost r0 = self.roster();
        let ghost d0 = self.dirty;
        let mut i: usize = 0;
        while i < ups.len()
            invariant
                i <= ups@.len(),
                uv == updates_view(ups@),
                self.wf(),
                self.version == old(self).version,
                (self.roster(), self.dirty) == apply_updates(r0, d0, uv.take(i as int)),
            decreases ups@.len() - i,
        {
            assert(uv.take(i as int + 1).drop_last() == uv.take(i as int));
            assert(uv.take(i as int + 1).last() == ups@[i as int]@);
            match &ups[i] {
                Update::ResetPlayers => {
                    self.state.clear();
                    self.dirty = true;
                },
                Update::PlayerUpdate(pu) => {
                    let changed = self.state.apply_update(copy_update(pu));
                    self.dirty = self.dirty || changed;
                },
            }
            i = i + 1;
        }
        assert(uv.take(ups@.len() as int) == uv);
        proof {
            law_updates_keep_pending(r0, d0, uv);
        }
    }

    /// When the roster changed and at least `EMIT_INTERVAL_MS` passed since
    /// the last snapshot, the next snapshot (the change is then no longer
    /// pending); nothing otherwise.
    pub fn poll_snapshot(&mut self, ms_since_last: u64) -> (r: Option<RosterSnapshot>)
        requires
            old(self).wf(),
        ensures
            final(self).wf(),
            final(self).roster() == old(self).roster(),
            match r {
                Some(snap) => {
                    &&& old(self).dirty() && ms_since_last >= EMIT_INTERVAL_MS
                    &&& final(self).version() == old(self).version().wrapping_add(1)
                    &&& !final(self).dirty()
                    &&& shows(snap, final(self).roster(), final(self).version())
                },
                None => {
                    &&& !(old(self).dirty() && ms_since_last >= EMIT_INTERVAL_MS)
                    &&& final(self).version() == old(self).version()
                    &&& final(self).dirty() == old(self).dirty()
                },
            },
            feed_step(*old(self), *final(self), FeedEvent::Poll(ms_since_last), r),
    {
        if self.dirty && ms_since_last >= EMIT_INTERVAL_MS {
            self.version = self.version.wrapping_add(1);
            self.dirty = false;
            Some(self.snapshot())
        } else {
            None
        }
    }
}

/// A copy of a player update.
fn copy_update(u: &PlayerUpdate) -> (r: PlayerUpdate)
    ensures
        r@ == u@,
{
    PlayerUpdate {
        player_id: u.player_id.clone(),
        display_name: copy_opt(&u.display_name),
        ready: u.ready,
        mecha_id: u.mecha_id,
        is_ai: u.is_ai,
        camp_id: u.camp_id,
    }
}

fn copy_opt(o: &Option<String>) -> (r: Option<String>)
    ensures
        opt_chars(r) == opt_chars(*o),
{
    match o {
        Some(s) => Some(s.clone()),
        None => None,
    }
}

/// A copy of a configuration.
pub fn copy_config(c: &AppConfig) -> (r: AppConfig)
    ensures
        r.mode == c.mode,
        opt_chars(r.manual_log_path) == opt_chars(c.manual_log_path),
        opt_chars(r.asset_pack_dir) == opt_chars(c.asset_pack_dir),
{
    AppConfig {
        mode: c.mode,
        manual_log_path: copy_opt(&c.manual_log_path),
        asset_pack_dir: copy_opt(&c.asset_pack_dir),
    }
}

/// A copy of a status.
pub fn copy_status(s: &TrackerStatus) -> (r: TrackerStatus)
    ensures
        r.tracking == s.tracking,
        opt_chars(r.log_path) == opt_chars(s.log_path),
        opt_chars(r.last_error) == opt_chars(s.last_error),
{
    TrackerStatus {
        tracking: s.tracking,
        log_path: copy_opt(&s.log_path),
        last_error: copy_opt(&s.last_error),
    }
}

/// The log file to follow: in automatic mode the one found on the machine
/// (`discovered`), in manual mode the configured path; otherwise the error
/// that the tracker reports.
pub fn choose_log_path(cfg: &AppConfig, discovered: Option<String>) -> (r: Result<String, String>)
    ensures
        cfg.mode == LogMode::Auto ==> match r {
            Ok(p) => discovered == Some(p),
            Err(e) => discovered is None && e@ == "Could not locate MechaBREAK log file"@,
        },
        cfg.mode == LogMode::Manual ==> match r {
            Ok(p) => opt_chars(cfg.manual_log_path) == Some(p@),
            Err(e) => cfg.manual_log_path is None && e@
                == "Manual mode selected but no manualLogPath configured"@,
        },
{
    match cfg.mode {
        LogMode::Auto => match discovered {
            Some(p) => Ok(p),
            None => Err("Could not locate MechaBREAK log file".to_string()),
        },
        LogMode::Manual => match &cfg.manual_log_path {
            Some(p) => Ok(p.clone()),
            None => Err("Manual mode selected but no manualLogPath configured".to_string()),
        },
    }
}

/// The tracker's shared state: whether it tracks, whether it was asked to
/// stop, the configuration once loaded, and the last status it reported.
pub struct TrackerController {
    stop: bool,
    tracking: bool,
    config: Option<AppConfig>,
    status: TrackerStatus,
}

impl TrackerController {
    pub closed spec fn is_tracking(&self) -> bool {
        self.tracking
    }

    pub closed spec fn stop_requested(&self) -> bool {
        self.stop
    }

    pub closed spec fn config(&self) -> Option<AppConfig> {
        self.config
    }

    pub closed spec fn reported(&self) -> TrackerStatus {
        self.status
    }

    /// Marks the tracker as tracking. Gives `false` when it already was (the
    /// caller then does nothing); otherwise clears a pending stop request and
    /// gives `true`.
    pub fn begin_tracking(&mut self) -> (start: bool)
        ensures
            start == !old(self).is_tracking(),
            final(self).is_tracking(),
            final(self).stop_requested() == (old(self).stop_requested() && !start),
            final(self).config() == old(self).config(),
            final(self).reported() == old(self).reported(),
    {
        if self.tracking {
            return false;
        }
        self.tracking = true;
        self.stop = false;
        true
    }

    /// Whether the tracker is tracking.
    pub fn tracking(&self) -> (r: bool)
        ensures
            r == self.is_tracking(),
    {
        self.tracking
    }

    /// Asks the tracking loop to stop.
    pub fn request_stop(&mut self)
        ensures
            final(self).stop_requested(),
            final(self).is_tracking() == old(self).is_tracking(),
            final(self).config() == old(self).config(),
            final(self).reported() == old(self).reported(),
    {
        self.stop = true;
    }

    /// Whether the tracking loop was asked to stop.
    pub fn should_stop(&self) -> (r: bool)
        ensures
            r == self.stop_requested(),
    {
        self.stop
    }

    /// Records the status that is reported to the user.
    pub fn set_status(&mut self, status: TrackerStatus)
        ensures
            final(self).reported() == status,
            final(self).is_tracking() == old(self).is_tracking(),
            final(self).stop_requested() == old(self).stop_requested(),
            final(self).config() == old(self).config(),
    {
        self.status = status;
    }

    /// The last status reported.
    pub fn status(&self) -> (r: TrackerStatus)
        ensures
            r.tracking == self.reported().tracking,
            opt_chars(r.log_path) == opt_chars(self.reported().log_path),
            opt_chars(r.last_error) == opt_chars(self.reported().last_error),
    {
        copy_status(&self.status)
    }

    /// The tracking loop has ended on `log_path`: the status says so and the
    /// tracker no longer tracks.
    pub fn finish_tracking(&mut self, log_path: String)
        ensures
            !final(self).is_tracking(),
            !final(self).reported().tracking,
            opt_chars(final(self).reported().log_path) == Some(log_path@),
            final(self).reported().last_error is None,
            final(self).stop_requested() == old(self).stop_requested(),
            final(self).config() == old(self).config(),
    {
        self.status = TrackerStatus { tracking: false, log_path: Some(log_path), last_error: None };
        self.tracking = false;
    }

    /// The configuration, where it was loaded or set before.
    pub fn cached_config(&self) -> (r: Option<AppConfig>)
        ensures
            match r {
                Some(c) => self.config() matches Some(k) && c.mode == k.mode && opt_chars(
                    c.manual_log_path,
                ) == opt_chars(k.manual_log_path) && opt_chars(c.asset_pack_dir) == opt_chars(
                    k.asset_pack_dir,
                ),
                None => self.config() is None,
            },
    {
        match &self.config {
            Some(c) => Some(copy_config(c)),
            None => None,
        }
    }

    /// Keeps `cfg` as the configuration.
    pub fn cache_config(&mut self, cfg: AppConfig)
        ensures
            final(self).config() == Some(cfg),
            final(self).is_tracking() == old(self).is_tracking(),
            final(self).stop_requested() == old(self).stop_requested(),
            final(self).reported() == old(self).reported(),
    {
        self.config = Some(cfg);
    }
}

impl Default for TrackerController {
    /// Not tracking, no stop request, no configuration yet, and a status that
    /// says so.
    fn default() -> (r: Self)
        ensures
            !r.is_tracking(),
            !r.stop_requested(),
            r.config() is None,
            !r.reported().tracking,
            r.reported().log_path is None,
            r.reported().last_error is None,
    {
        TrackerController {
            stop: false,
            tracking: false,
            config: None,
            status: TrackerStatus { tracking: false, log_path: None, last_error: None },
        }
    }
}

/// Each snapshot the feed sends carries the version after the one before it:
/// one more, while the counter is below `u64::MAX`.
pub proof fn law_version_step(v: u64)
    requires
        v < u64::MAX,
    ensures
        v.wrapping_add(1) == v + 1,
        v.wrapping_add(1) > v,
{
}

/// A combat-record line empties the roster and counts as a change, whatever
/// the roster held.
pub proof fn law_reset_line_empties_roster(line: Seq<char>, roster: Seq<PlayerView>, dirty: bool)
    requires
        crate::text::contains(line, "GAME_S2C_QUERY_COMBAT_RECORD_RESULT"@),
    ensures
        apply_updates(roster, dirty, crate::parser::line_updates(line)) == (
            Seq::<PlayerView>::empty(),
            true,
        ),
{
    let ups = crate::parser::line_updates(line);
    assert(ups == seq![UpdateView::ResetPlayers]);
    assert(ups.drop_last() == Seq::<UpdateView>::empty());
}

/// The updates of the lines read during `events`, in order.
pub open spec fn session_updates(events: Seq<FeedEvent>) -> Seq<UpdateView>
    decreases events.len(),
{
    if events.len() == 0 {
        Seq::empty()
    } else {
        let rest = session_updates(events.drop_last());
        match events.last() {
            FeedEvent::Ingest(line) => rest + crate::parser::line_updates(line),
            _ => rest,
        }
    }
}

/// How many snapshots `outs` holds.
pub open spec fn sent_count(outs: Seq<Option<RosterSnapshot>>) -> nat
    decreases outs.len(),
{
    if outs.len() == 0 {
        0
    } else {
        sent_count(outs.drop_last()) + if outs.last() is Some {
            1nat
        } else {
            0nat
        }
    }
}

proof fn lemma_apply_updates_concat(
    roster: Seq<PlayerView>,
    dirty: bool,
    a: Seq<UpdateView>,
    b: Seq<UpdateView>,
)
    ensures
        apply_updates(roster, dirty, a + b) == apply_updates(
            apply_updates(roster, dirty, a).0,
            apply_updates(roster, dirty, a).1,
            b,
        ),
    decreases b.len(),
{
    if b.len() == 0 {
        assert(a + b == a);
    } else {
        lemma_apply_updates_concat(roster, dirty, a, b.drop_last());
        assert((a + b).drop_last() == a + b.drop_last());
        assert((a + b).last() == b.last());
    }
}

proof fn lemma_roster_ignores_dirty(
    roster: Seq<PlayerView>,
    d1: bool,
    d2: bool,
    ups: Seq<UpdateView>,
)
    ensures
        apply_updates(roster, d1, ups).0 == apply_updates(roster, d2, ups).0,
    decreases ups.len(),
{
    if ups.len() > 0 {
        lemma_roster_ignores_dirty(roster, d1, d2, ups.drop_last());
    }
}

/// Over a whole session of the feed, started empty with version 0: the
/// roster is what the updates of all lines read so far, applied in order,
/// make of an empty roster; and the snapshots sent carry the versions 1, 2,
/// 3, ... in order (the k-th carries k), while fewer than `u64::MAX` were sent.
pub proof fn law_session(
    feeds: Seq<RosterFeed>,
    events: Seq<FeedEvent>,
    outs: Seq<Option<RosterSnapshot>>,
)
    requires
        feeds.len() == events.len() + 1,
        outs.len() == events.len(),
        feeds[0].roster() == Seq::<PlayerView>::empty(),
        feeds[0].version() == 0,
        forall|i: int|
            0 <= i < events.len() ==> feed_step(
                #[trigger] feeds[i],
                feeds[i + 1],
                events[i],
                outs[i],
            ),
        sent_count(outs) < u64::MAX,
    ensures
        feeds.last().roster() == apply_updates(Seq::empty(), true, session_updates(events)).0,
        feeds.last().version() == sent_count(outs),
        forall|i: int|
            0 <= i < outs.len() && #[trigger] outs[i] is Some ==> outs[i]->0.version == sent_count(
                outs.take(i + 1),
            ),
    decreases events.len(),
{
    let n = events.len() as int;
    if n == 0 {
        assert(session_updates(events) == Seq::<UpdateView>::empty());
        assert(sent_count(outs) == 0);
    } else {
        let f0 = feeds.take(n);
        let e0 = events.drop_last();
        let o0 = outs.drop_last();
        assert forall|i: int| 0 <= i < e0.len() implies feed_step(
            #[trigger] f0[i],
            f0[i + 1],
            e0[i],
            o0[i],
        ) by {
            assert(f0[i] == feeds[i] && f0[i + 1] == feeds[i + 1]);
            assert(feed_step(feeds[i], feeds[i + 1], events[i], outs[i]));
        }
        law_session(f0, e0, o0);
        let before = feeds[n - 1];
        let after = feeds[n];
        assert(f0.last() == before);
        assert(feed_step(before, after, events[n - 1], outs[n - 1]));
        let su = session_updates(e0);
        let (r1, d1) = apply_updates(Seq::empty(), true, su);
        match events[n - 1] {
            FeedEvent::Ingest(line) => {
                let lu = crate::parser::line_updates(line);
                lemma_apply_updates_concat(Seq::empty(), true, su, lu);
                lemma_roster_ignores_dirty(r1, d1, before.dirty(), lu);
            },
            _ => {},
        }
        assert forall|i: int|
            0 <= i < outs.len() && #[trigger] outs[i] is Some implies outs[i]->0.version
            == sent_count(outs.take(i + 1)) by {
            if i < n - 1 {
                assert(outs[i] == o0[i]);
                assert(outs.take(i + 1) == o0.take(i + 1));
            } else {
                assert(outs.take(i + 1) == outs);
            }
        }
    }
}

/// The first snapshot of a session, sent when tracking starts on a fresh
/// feed, has version 1 and shows no player in any team.
pub proof fn law_first_snapshot_empty(
    before: RosterFeed,
    after: RosterFeed,
    out: Option<RosterSnapshot>,
)
    requires
        before.roster() == Seq::<PlayerView>::empty(),
        before.version() == 0,
        feed_step(before, after, FeedEvent::Start, out),
    ensures
        out matches Some(snap) && snap.version == 1 && snap.teams.team1@.len() == 0
            && snap.teams.team2@.len() == 0 && snap.teams.unassigned@.len() == 0,
{
    let snap = out->0;
    let empty = Seq::<PlayerView>::empty();
    assert(crate::state::team_members(empty, 1) == empty);
    assert(crate::state::team_members(empty, 2) == empty);
    assert(crate::state::team_members(empty, 0) == empty);
    vstd::seq_lib::to_multiset_len(empty);
    vstd::seq_lib::to_multiset_len(players_view(snap.teams.team1@));
    vstd::seq_lib::to_multiset_len(players_view(snap.teams.team2@));
    vstd::seq_lib::to_multiset_len(players_view(snap.teams.unassigned@));
}


/// Applying updates never clears a pending change: what the roster becomes
/// does not depend on the flag, the flag afterwards is the flag before or'd
/// with whether the updates changed anything, and a roster that ends up
/// different always leaves a pending change.
pub proof fn law_updates_keep_pending(roster: Seq<PlayerView>, dirty: bool, ups: Seq<UpdateView>)
    ensures
        dirty ==> apply_updates(roster, dirty, ups).1,
        apply_updates(roster, dirty, ups).0 == apply_updates(roster, false, ups).0,
        apply_updates(roster, dirty, ups).1 == (dirty || apply_updates(roster, false, ups).1),
        apply_updates(roster, dirty, ups).0 != roster ==> apply_updates(roster, dirty, ups).1,
    decreases ups.len(),
{
    if ups.len() > 0 {
        law_updates_keep_pending(roster, dirty, ups.drop_last());
        law_updates_keep_pending(roster, false, ups.drop_last());
        match ups.last() {
            UpdateView::ResetPlayers => {},
            UpdateView::PlayerUpdate(u) => {
                let r1 = apply_updates(roster, dirty, ups.drop_last()).0;
                crate::state::law_update_reports_change(r1, u);
            },
        }
    }
}

/// Reading a line never clears a pending change: a feed that had one still
/// has one afterwards, and a line that changes the roster leaves one.
pub proof fn law_ingest_never_clears(before: RosterFeed, after: RosterFeed, line: Seq<char>)
    requires
        feed_step(before, after, FeedEvent::Ingest(line), None),
    ensures
        before.dirty() ==> after.dirty(),
        after.roster() != before.roster() ==> after.dirty(),
{
    law_updates_keep_pending(before.roster(), before.dirty(), crate::parser::line_updates(line));
}


/// One player update changes the roster as `apply_update` does and leaves a
/// pending change exactly when one was pending or the roster changed; a reset
/// empties the roster and always leaves one; no update changes nothing.
pub proof fn law_update_step(roster: Seq<PlayerView>, dirty: bool, u: crate::parser::PlayerUpdateView)
    ensures
        apply_updates(roster, dirty, Seq::empty()) == (roster, dirty),
        apply_updates(roster, dirty, seq![UpdateView::ResetPlayers]) == (
            Seq::<PlayerView>::empty(),
            true,
        ),
        apply_updates(roster, dirty, seq![UpdateView::PlayerUpdate(u)]) == (
            apply_spec(roster, u).0,
            dirty || apply_spec(roster, u).0 != roster,
        ),
{
    assert(seq![UpdateView::ResetPlayers].drop_last() == Seq::<UpdateView>::empty());
    assert(seq![UpdateView::PlayerUpdate(u)].drop_last() == Seq::<UpdateView>::empty());
    crate::state::law_update_reports_change(roster, u);
}

/// The updates of a line are applied one after the other: applying `a` and
/// then `b` is applying `a + b`.
pub proof fn law_updates_compose(
    roster: Seq<PlayerView>,
    dirty: bool,
    a: Seq<UpdateView>,
    b: Seq<UpdateView>,
)
    ensures
        apply_updates(roster, dirty, a + b) == apply_updates(
            apply_updates(roster, dirty, a).0,
            apply_updates(roster, dirty, a).1,
            b,
        ),
    decreases b.len(),
{
    if b.len() == 0 {
        assert(a + b =~= a);
    } else {
        law_updates_compose(roster, dirty, a, b.drop_last());
        assert((a + b).drop_last() =~= a + b.drop_last());
        assert((a + b).last() == b.last());
    }
}

} // verus!
