//! The roster: the players seen in the log, in the order they first appeared.

use vstd::prelude::*;
use indexmap::IndexMap;
use crate::parser::{opt_chars, PlayerUpdate, PlayerUpdateView};
use crate::text::{chars_of, chars_order, compare_chars, lemma_chars_order, lemma_chars_order_trans, string_from_chars, trim, trim_chars};
use crate::types::{players_view, Player, PlayerView, TeamSplit};

verus! {

broadcast use vstd::string::group_string_axioms;

/// The most players the roster holds; a new player beyond it evicts the oldest.
pub const MAX_PLAYERS: usize = 50;

// ---------------------------------------------------------------- the map

/// `indexmap::IndexMap`: a hash map that keeps its entries in insertion order.
#[verifier::external_type_specification]
#[verifier::external_body]
#[verifier::reject_recursive_types(K)]
#[verifier::reject_recursive_types(V)]
#[verifier::reject_recursive_types(S)]
pub struct ExIndexMap<K, V, S>(IndexMap<K, V, S>);

/// The entries of a roster map, in the map's order: each key's characters
/// with the player stored under it.
pub uninterp spec fn roster_entries(m: IndexMap<String, Player>) -> Seq<(Seq<char>, PlayerView)>;

/// No key occurs twice.
pub open spec fn distinct_keys(e: Seq<(Seq<char>, PlayerView)>) -> bool {
    forall|i: int, j: int| 0 <= i < j < e.len() ==> e[i].0 != e[j].0
}

/// Entry `i` has key `k`.
pub open spec fn key_at(e: Seq<(Seq<char>, PlayerView)>, i: int, k: Seq<char>) -> bool {
    0 <= i < e.len() && e[i].0 == k
}

/// Calls `IndexMap::new`: a map with no entries.
#[verifier::external_body]
fn roster_map_new() -> (m: IndexMap<String, Player>)
    ensures
        roster_entries(m) == Seq::<(Seq<char>, PlayerView)>::empty(),
{
    IndexMap::new()
}

/// Calls `IndexMap::len`: the number of entries.
#[verifier::external_body]
fn roster_map_len(m: &IndexMap<String, Player>) -> (n: usize)
    ensures
        n == roster_entries(*m).len(),
{
    m.len()
}

/// Calls `IndexMap::get`: the player stored under a key equal to `key`, if any.
#[verifier::external_body]
fn roster_map_get<'a>(m: &'a IndexMap<String, Player>, key: &String) -> (r: Option<&'a Player>)
    ensures
        match r {
            Some(p) => exists|i: int|
                key_at(roster_entries(*m), i, key@) && #[trigger] roster_entries(*m)[i].1 == p@,
            None => forall|i: int| !key_at(roster_entries(*m), i, key@),
        },
{
    m.get(key)
}

/// Calls `IndexMap::insert`. Where an entry has a key equal to `key`, its
/// value becomes `value` and it keeps its place; otherwise the entry is added
/// last. Keys stay distinct.
#[verifier::external_body]
fn roster_map_insert(m: &mut IndexMap<String, Player>, key: String, value: Player)
    ensures
        distinct_keys(roster_entries(*old(m))) ==> distinct_keys(roster_entries(*final(m))),
        forall|i: int|
            key_at(roster_entries(*old(m)), i, key@) ==> roster_entries(*final(m))
                == roster_entries(*old(m)).update(i, (roster_entries(*old(m))[i].0, value@)),
        (forall|i: int| !key_at(roster_entries(*old(m)), i, key@)) ==> roster_entries(*final(m))
            == roster_entries(*old(m)).push((key@, value@)),
{
    m.insert(key, value);
}

/// Calls `IndexMap::shift_remove_index`: removes the entry at `index`,
/// keeping the order of the others (nothing happens past the end).
#[verifier::external_body]
fn roster_map_shift_remove_index(m: &mut IndexMap<String, Player>, index: usize)
    ensures
        index < roster_entries(*old(m)).len() ==> roster_entries(*final(m)) == roster_entries(
            *old(m),
        ).remove(index as int),
        index >= roster_entries(*old(m)).len() ==> roster_entries(*final(m)) == roster_entries(
            *old(m),
        ),
{
    m.shift_remove_index(index);
}

/// Calls `IndexMap::clear`: no entries are left.
#[verifier::external_body]
fn roster_map_clear(m: &mut IndexMap<String, Player>)
    ensures
        roster_entries(*final(m)) == Seq::<(Seq<char>, PlayerView)>::empty(),
{
    m.clear();
}

/// Calls `IndexMap::get_index`: the player of the entry at `index`, if the
/// map has one there.
#[verifier::external_body]
fn roster_map_get_index<'a>(m: &'a IndexMap<String, Player>, index: usize) -> (r: Option<&'a Player>)
    ensures
        index < roster_entries(*m).len() ==> r is Some && r.unwrap()@ == roster_entries(*m)[index as int].1,
        index >= roster_entries(*m).len() ==> r is None,
{
    m.get_index(index).map(|(_, v)| v)
}

// ---------------------------------------------------------------- the roster's rules

/// The index of the first player whose id is `id`, or -1.
pub open spec fn find_player(roster: Seq<PlayerView>, id: Seq<char>) -> int
    decreases roster.len(),
{
    if roster.len() == 0 {
        -1
    } else if roster[0].player_id == id {
        0
    } else {
        let r = find_player(roster.drop_first(), id);
        if r < 0 {
            -1
        } else {
            r + 1
        }
    }
}

/// A known player after an update: each field the update carries replaces
/// the known one.
pub open spec fn merge(p: PlayerView, up: PlayerUpdateView) -> PlayerView {
    PlayerView {
        player_id: p.player_id,
        display_name: if up.display_name is Some {
            up.display_name
        } else {
            p.display_name
        },
        ready: if up.ready is Some {
            up.ready
        } else {
            p.ready
        },
        mecha_id: if up.mecha_id is Some {
            up.mecha_id
        } else {
            p.mecha_id
        },
        is_ai: if up.is_ai is Some {
            up.is_ai
        } else {
            p.is_ai
        },
        camp_id: if up.camp_id is Some {
            up.camp_id
        } else {
            p.camp_id
        },
    }
}

/// A new player with the id `id` and the update's fields.
pub open spec fn new_player(id: Seq<char>, up: PlayerUpdateView) -> PlayerView {
    PlayerView {
        player_id: id,
        display_name: up.display_name,
        ready: up.ready,
        mecha_id: up.mecha_id,
        is_ai: up.is_ai,
        camp_id: up.camp_id,
    }
}

/// The roster after an update, and whether the update changed it. The
/// player is found by the update's id without surrounding white space; an
/// empty id changes nothing. A known player is merged in place; a new one is
/// added last, after the oldest is dropped when the roster is full.
pub open spec fn apply_spec(roster: Seq<PlayerView>, up: PlayerUpdateView) -> (Seq<PlayerView>, bool) {
    let id = trim(up.player_id);
    let i = find_player(roster, id);
    if id.len() == 0 {
        (roster, false)
    } else if i >= 0 {
        let merged = merge(roster[i], up);
        (roster.update(i, merged), merged != roster[i])
    } else {
        let base = if roster.len() >= MAX_PLAYERS {
            roster.drop_first()
        } else {
            roster
        };
        (base.push(new_player(id, up)), true)
    }
}

/// The players' ids are distinct.
pub open spec fn distinct_ids(roster: Seq<PlayerView>) -> bool {
    forall|i: int, j: int| 0 <= i < j < roster.len() ==> roster[i].player_id != roster[j].player_id
}

proof fn lemma_find_player(roster: Seq<PlayerView>, id: Seq<char>)
    ensures
        -1 <= find_player(roster, id) < roster.len(),
        find_player(roster, id) >= 0 ==> roster[find_player(roster, id)].player_id == id,
        find_player(roster, id) < 0 ==> forall|i: int|
            0 <= i < roster.len() ==> #[trigger] roster[i].player_id != id,
        forall|i: int|
            0 <= i < find_player(roster, id) ==> #[trigger] roster[i].player_id != id,
    decreases roster.len(),
{
    if roster.len() > 0 && roster[0].player_id != id {
        lemma_find_player(roster.drop_first(), id);
        assert forall|i: int| 1 <= i < roster.len() implies #[trigger] roster[i] == roster.drop_first()[i - 1] by {}
    }
}

/// The players seen in the log, oldest first.
pub struct PlayersState {
    players: IndexMap<String, Player>,
}

impl PlayersState {
    /// The map's entries.
    pub closed spec fn entries(&self) -> Seq<(Seq<char>, PlayerView)> {
        roster_entries(self.players)
    }

    /// The roster, oldest first.
    pub closed spec fn roster(&self) -> Seq<PlayerView> {
        self.entries().map_values(|e: (Seq<char>, PlayerView)| e.1)
    }

    /// Each player is stored under its own id, ids are distinct, and there are
    /// at most `MAX_PLAYERS` players.
    pub closed spec fn wf(&self) -> bool {
        let e = self.entries();
        &&& distinct_keys(e)
        &&& forall|i: int| 0 <= i < e.len() ==> #[trigger] e[i].0 == e[i].1.player_id
        &&& e.len() <= MAX_PLAYERS
    }

    pub proof fn lemma_wf(&self)
        requires
            self.wf(),
        ensures
            self.roster().len() <= MAX_PLAYERS,
            distinct_ids(self.roster()),
    {
        let e = self.entries();
        assert forall|i: int, j: int| 0 <= i < j < self.roster().len() implies self.roster()[i].player_id != self.roster()[j].player_id by {
            assert(e[i].0 == e[i].1.player_id);
            assert(e[j].0 == e[j].1.player_id);
        }
    }

    /// Forgets every player.
    pub fn clear(&mut self)
        ensures
            final(self).wf(),
            final(self).roster() == Seq::<PlayerView>::empty(),
    {
        roster_map_clear(&mut self.players);
        assert(self.roster() =~= Seq::<PlayerView>::empty());
    }

    /// Applies one player update and says whether it changed the roster.
    pub fn apply_update(&mut self, up: PlayerUpdate) -> (changed: bool)
        requires
            old(self).wf(),
        ensures
            final(self).wf(),
            (final(self).roster(), changed) == apply_spec(old(self).roster(), up@),
    {
        let ghost roster = self.roster();
        let ghost e = self.entries();
        proof {
            self.lemma_wf();
        }
        let raw = chars_of(up.player_id.as_str());
        let trimmed = trim_chars(raw.as_slice());
        if trimmed.len() == 0 {
            return false;
        }
        let player_id = string_from_chars(trimmed.as_slice());
        let ghost id = player_id@;
        proof {
            lemma_find_player(roster, id);
        }
        match roster_map_get(&self.players, &player_id) {
            Some(existing) => {
                let ghost k = choose|i: int| key_at(e, i, id) && #[trigger] e[i].1 == existing@;
                assert(roster[k] == e[k].1);
                let ghost fi = find_player(roster, id);
                assert(fi == k) by {
                    if fi < 0 {
                        assert(roster[k].player_id != id);
                    } else if fi < k {
                        assert(e[fi].0 == e[fi].1.player_id);
                    } else if fi > k {
                        assert(roster[k].player_id != id);
                    }
                }
                let mut changed = false;
                let display_name = match up.display_name {
                    Some(v) => {
                        let same = match &existing.display_name {
                            Some(d) => *d == v,
                            None => false,
                        };
                        if !same {
                            changed = true;
                        }
                        Some(v)
                    },
                    None => copy_opt_string(&existing.display_name),
                };
                let ready = match up.ready {
                    Some(v) => {
                        if existing.ready != Some(v) {
                            changed = true;
                        }
                        Some(v)
                    },
                    None => existing.ready,
                };
                let mecha_id = match up.mecha_id {
                    Some(v) => {
                        if existing.mecha_id != Some(v) {
                            changed = true;
                        }
                        Some(v)
                    },
                    None => existing.mecha_id,
                };
                let is_ai = match up.is_ai {
                    Some(v) => {
                        if existing.is_ai != Some(v) {
                            changed = true;
                        }
                        Some(v)
                    },
                    None => existing.is_ai,
                };
                let camp_id = match up.camp_id {
                    Some(v) => {
                        if existing.camp_id != Some(v) {
                            changed = true;
                        }
                        Some(v)
                    },
                    None => existing.camp_id,
                };
                let merged = Player {
                    player_id: existing.player_id.clone(),
                    display_name,
                    ready,
                    mecha_id,
                    is_ai,
                    camp_id,
                };
                assert(merged@ == merge(roster[k], up@));
                if changed {
                    roster_map_insert(&mut self.players, player_id, merged);
                    assert(self.roster() =~= roster.update(k, merged@));
                }
                changed
            },
            None => {
                if roster_map_len(&self.players) >= MAX_PLAYERS {
                    roster_map_shift_remove_index(&mut self.players, 0);
                    assert(self.roster() =~= roster.drop_first());
                }
                let ghost base = self.entries();
                let ghost base_roster = self.roster();
                assert(base_roster == (if roster.len() >= MAX_PLAYERS { roster.drop_first() } else { roster }));
                assert(base == e || base == e.remove(0));
                assert forall|i: int| !key_at(base, i, id) by {
                    if base == e.remove(0) && 0 <= i < base.len() {
                        assert(base[i] == e[i + 1]);
                        assert(!key_at(e, i + 1, id));
                    } else {
                        assert(!key_at(e, i, id));
                    }
                }
                let p = Player {
                    player_id: player_id.clone(),
                    display_name: up.display_name,
                    ready: up.ready,
                    mecha_id: up.mecha_id,
                    is_ai: up.is_ai,
                    camp_id: up.camp_id,
                };
                roster_map_insert(&mut self.players, player_id, p);
                assert(self.entries() == base.push((id, p@)));
                assert(find_player(roster, id) < 0) by {
                    let fi = find_player(roster, id);
                    if fi >= 0 {
                        assert(e[fi].0 == e[fi].1.player_id);
                        assert(key_at(e, fi, id));
                    }
                }
                assert(id == trim(up@.player_id));
                assert(p@ == new_player(id, up@));
                assert(self.roster() =~= base_roster.push(p@));
                assert(self.roster() =~= apply_spec(roster, up@).0);
                true
            },
        }
    }
}

/// A copy of an optional string.
fn copy_opt_string(o: &Option<String>) -> (r: Option<String>)
    ensures
        opt_chars(r) == opt_chars(*o),
{
    match o {
        Some(s) => Some(s.clone()),
        None => None,
    }
}

impl Default for PlayersState {
    /// An empty roster.
    fn default() -> (r: Self)
        ensures
            r.wf(),
            r.roster() == Seq::<PlayerView>::empty(),
    {
        let r = PlayersState { players: roster_map_new() };
        assert(r.roster() =~= Seq::<PlayerView>::empty());
        r
    }
}

// ---------------------------------------------------------------- team split

/// Players who are known not to be AI come first, then unknown, then AI.
pub open spec fn ai_bucket(p: PlayerView) -> int {
    match p.is_ai {
        Some(true) => 2,
        Some(false) => 0,
        None => 1,
    }
}

/// The display name, or the empty name.
pub open spec fn name_key(p: PlayerView) -> Seq<char> {
    match p.display_name {
        Some(n) => n,
        None => Seq::empty(),
    }
}

/// The order of the team lists: by AI bucket, then display name, then player id.
pub open spec fn sort_order(p: PlayerView, q: PlayerView) -> int {
    if ai_bucket(p) != ai_bucket(q) {
        if ai_bucket(p) < ai_bucket(q) {
            -1
        } else {
            1
        }
    } else if chars_order(name_key(p), name_key(q)) != 0 {
        chars_order(name_key(p), name_key(q))
    } else {
        chars_order(p.player_id, q.player_id)
    }
}

/// `s` is in the order of the team lists.
pub open spec fn sorted_by_key(s: Seq<PlayerView>) -> bool {
    forall|i: int, j: int| 0 <= i < j < s.len() ==> sort_order(s[i], s[j]) <= 0
}

/// The team a player belongs to: camp 1, camp 2, or 0 for everyone else.
pub open spec fn team_of(p: PlayerView) -> int {
    match p.camp_id {
        Some(c) => if c == 1 {
            1
        } else if c == 2 {
            2
        } else {
            0
        },
        None => 0,
    }
}

/// The players of team `t`, in roster order.
pub open spec fn team_members(roster: Seq<PlayerView>, t: int) -> Seq<PlayerView>
    decreases roster.len(),
{
    if roster.len() == 0 {
        Seq::empty()
    } else if team_of(roster.last()) == t {
        team_members(roster.drop_last(), t).push(roster.last())
    } else {
        team_members(roster.drop_last(), t)
    }
}

/// `team` holds the players of team `t` of `roster`, in the order of the team lists.
pub open spec fn is_team(team: Seq<PlayerView>, roster: Seq<PlayerView>, t: int) -> bool {
    &&& sorted_by_key(team)
    &&& team.to_multiset() == team_members(roster, t).to_multiset()
}

pub proof fn lemma_sort_order(p: PlayerView, q: PlayerView)
    ensures
        sort_order(p, q) == -sort_order(q, p),
{
    lemma_chars_order(name_key(p), name_key(q));
    lemma_chars_order(p.player_id, q.player_id);
}

pub proof fn lemma_sort_order_trans(p: PlayerView, q: PlayerView, r: PlayerView)
    requires
        sort_order(p, q) <= 0,
        sort_order(q, r) <= 0,
    ensures
        sort_order(p, r) <= 0,
{
    lemma_chars_order(name_key(p), name_key(q));
    lemma_chars_order(name_key(q), name_key(r));
    lemma_chars_order(name_key(p), name_key(r));
    lemma_chars_order(p.player_id, q.player_id);
    lemma_chars_order(q.player_id, r.player_id);
    lemma_chars_order(p.player_id, r.player_id);
    if ai_bucket(p) == ai_bucket(q) && ai_bucket(q) == ai_bucket(r) {
        lemma_chars_order_trans(name_key(p), name_key(q), name_key(r));
        if chars_order(name_key(p), name_key(r)) == 0 {
            lemma_chars_order_trans(p.player_id, q.player_id, r.player_id);
        }
    }
}

proof fn lemma_insert_sorted(s: Seq<PlayerView>, j: int, x: PlayerView)
    requires
        sorted_by_key(s),
        0 <= j <= s.len(),
        forall|k: int| 0 <= k < j ==> sort_order(#[trigger] s[k], x) <= 0,
        j < s.len() ==> sort_order(s[j], x) > 0,
    ensures
        sorted_by_key(s.insert(j, x)),
{
    let t = s.insert(j, x);
    assert forall|a: int, b: int| 0 <= a < b < t.len() implies sort_order(t[a], t[b]) <= 0 by {
        if a < j && b == j {
            assert(t[a] == s[a]);
        } else if a < j && b > j {
            assert(t[a] == s[a] && t[b] == s[b - 1]);
        } else if a == j {
            assert(t[b] == s[b - 1]);
            lemma_sort_order(s[j], x);
            if b - 1 > j {
                lemma_sort_order_trans(x, s[j], s[b - 1]);
            }
        } else if a < j {
            assert(t[a] == s[a] && t[b] == s[b]);
        } else {
            assert(t[a] == s[a - 1] && t[b] == s[b - 1]);
        }
    }
}

/// A copy of a player.
fn copy_player(p: &Player) -> (r: Player)
    ensures
        r@ == p@,
{
    Player {
        player_id: p.player_id.clone(),
        display_name: copy_opt_string(&p.display_name),
        ready: p.ready,
        mecha_id: p.mecha_id,
        is_ai: p.is_ai,
        camp_id: p.camp_id,
    }
}

fn name_chars(p: &Player) -> (r: Vec<char>)
    ensures
        r@ == name_key(p@),
{
    match &p.display_name {
        Some(n) => chars_of(n.as_str()),
        None => Vec::new(),
    }
}

/// `sort_order` on players.
fn compare_players(p: &Player, q: &Player) -> (r: i8)
    ensures
        r as int == sort_order(p@, q@),
{
    let bp: u8 = match p.is_ai {
        Some(true) => 2,
        Some(false) => 0,
        None => 1,
    };
    let bq: u8 = match q.is_ai {
        Some(true) => 2,
        Some(false) => 0,
        None => 1,
    };
    if bp != bq {
        return if bp < bq { -1 } else { 1 };
    }
    let np = name_chars(p);
    let nq = name_chars(q);
    let c = compare_chars(np.as_slice(), nq.as_slice());
    if c != 0 {
        return c;
    }
    let ip = chars_of(p.player_id.as_str());
    let iq = chars_of(q.player_id.as_str());
    compare_chars(ip.as_slice(), iq.as_slice())
}

proof fn lemma_players_view_insert(v: Seq<Player>, j: int, x: Player)
    requires
        0 <= j <= v.len(),
    ensures
        players_view(v.insert(j, x)) == players_view(v).insert(j, x@),
{
    assert(players_view(v.insert(j, x)) =~= players_view(v).insert(j, x@));
}

/// The players of `v` in the order of the team lists (a stable insertion sort).
fn sort_players(v: &Vec<Player>) -> (r: Vec<Player>)
    ensures
        sorted_by_key(players_view(r@)),
        players_view(r@).to_multiset() == players_view(v@).to_multiset(),
{
    let mut out: Vec<Player> = Vec::new();
    let mut i: usize = 0;
    assert(players_view(v@.take(0)) =~= Seq::<PlayerView>::empty());
    assert(players_view(out@) =~= Seq::<PlayerView>::empty());
    while i < v.len()
        invariant
            i <= v@.len(),
            sorted_by_key(players_view(out@)),
            players_view(out@).to_multiset() == players_view(v@.take(i as int)).to_multiset(),
        decreases v@.len() - i,
    {
        let x = copy_player(&v[i]);
        let ghost ov = players_view(out@);
        let mut j: usize = 0;
        while j < out.len() && compare_players(&out[j], &x) <= 0
            invariant
                j <= out@.len(),
                ov == players_view(out@),
                forall|k: int| 0 <= k < j ==> sort_order(#[trigger] ov[k], x@) <= 0,
            decreases out@.len() - j,
        {
            j = j + 1;
        }
        proof {
            lemma_insert_sorted(ov, j as int, x@);
            lemma_players_view_insert(out@, j as int, x);
            assert(players_view(v@.take(i as int + 1)) == players_view(v@.take(i as int)).push(
                v@[i as int]@,
            )) by {
                assert(players_view(v@.take(i as int + 1)) =~= players_view(v@.take(i as int)).push(
                    v@[i as int]@,
                ));
            }
        }
        let ghost xv = x@;
        out.insert(j, x);
        proof {
            assert(players_view(out@) == ov.insert(j as int, xv));
            vstd::seq_lib::to_multiset_insert(ov, j as int, xv);
            vstd::seq_lib::to_multiset_build(players_view(v@.take(i as int)), xv);
            assert(players_view(v@.take(i as int)).push(xv).to_multiset() == players_view(
                v@.take(i as int),
            ).to_multiset().insert(xv));
        }
        i = i + 1;
    }
    assert(v@.take(v@.len() as int) == v@);
    out
}

impl PlayersState {
    /// The roster split by camp, each team in the order of the team lists:
    /// known humans first, then unknown, then AI; each by display name, then id.
    pub fn snapshot_teams(&self) -> (r: TeamSplit)
        requires
            self.wf(),
        ensures
            is_team(players_view(r.team1@), self.roster(), 1),
            is_team(players_view(r.team2@), self.roster(), 2),
            is_team(players_view(r.unassigned@), self.roster(), 0),
    {
        let ghost roster = self.roster();
        let n = roster_map_len(&self.players);
        let mut team1: Vec<Player> = Vec::new();
        let mut team2: Vec<Player> = Vec::new();
        let mut unassigned: Vec<Player> = Vec::new();
        let mut i: usize = 0;
        while i < n
            invariant
                i <= n,
                n == roster.len(),
                roster == self.roster(),
                players_view(team1@) == team_members(roster.take(i as int), 1),
                players_view(team2@) == team_members(roster.take(i as int), 2),
                players_view(unassigned@) == team_members(roster.take(i as int), 0),
            decreases n - i,
        {
            let stored = roster_map_get_index(&self.players, i).unwrap();
            let p = copy_player(stored);
            assert(roster.take(i as int + 1).drop_last() == roster.take(i as int));
            assert(roster.take(i as int + 1).last() == p@);
            let ghost t1 = team1@;
            let ghost t2 = team2@;
            let ghost t0 = unassigned@;
            match p.camp_id {
                Some(1) => {
                    team1.push(p);
                    assert(players_view(team1@) =~= players_view(t1).push(p@));
                },
                Some(2) => {
                    team2.push(p);
                    assert(players_view(team2@) =~= players_view(t2).push(p@));
                },
                _ => {
                    unassigned.push(p);
                    assert(players_view(unassigned@) =~= players_view(t0).push(p@));
                },
            }
            i = i + 1;
        }
        assert(roster.take(n as int) == roster);
        TeamSplit {
            team1: sort_players(&team1),
            team2: sort_players(&team2),
            unassigned: sort_players(&unassigned),
        }
    }
}

// ---------------------------------------------------------------- laws

proof fn lemma_find_player_at(roster: Seq<PlayerView>, id: Seq<char>, k: int)
    requires
        0 <= k < roster.len(),
        roster[k].player_id == id,
        forall|j: int| 0 <= j < k ==> #[trigger] roster[j].player_id != id,
    ensures
        find_player(roster, id) == k,
    decreases k,
{
    if k > 0 {
        let rest = roster.drop_first();
        assert forall|j: int| 0 <= j < k - 1 implies #[trigger] rest[j].player_id != id by {
            assert(rest[j] == roster[j + 1]);
        }
        lemma_find_player_at(rest, id, k - 1);
    }
}

/// `apply_update` reports a change exactly when the roster it leaves differs
/// from the roster it found.
pub proof fn law_update_reports_change(roster: Seq<PlayerView>, up: PlayerUpdateView)
    ensures
        apply_spec(roster, up).1 == (apply_spec(roster, up).0 != roster),
{
    let id = trim(up.player_id);
    let i = find_player(roster, id);
    lemma_find_player(roster, id);
    if id.len() != 0 {
        if i >= 0 {
            let merged = merge(roster[i], up);
            if merged == roster[i] {
                assert(roster.update(i, merged) =~= roster);
            } else {
                assert(roster.update(i, merged)[i] != roster[i]);
            }
        } else {
            let r1 = apply_spec(roster, up).0;
            if r1.len() == roster.len() {
                assert(roster.len() > 0);
                assert(r1[r1.len() - 1].player_id == id);
                assert(roster[roster.len() - 1].player_id != id);
            }
        }
    }
}

/// Applying the same update a second time changes nothing and reports no change.
pub proof fn law_update_idempotent(roster: Seq<PlayerView>, up: PlayerUpdateView)
    ensures
        apply_spec(apply_spec(roster, up).0, up) == (apply_spec(roster, up).0, false),
{
    let id = trim(up.player_id);
    let i = find_player(roster, id);
    lemma_find_player(roster, id);
    let r1 = apply_spec(roster, up).0;
    if id.len() != 0 {
        if i >= 0 {
            let merged = merge(roster[i], up);
            assert forall|j: int| 0 <= j < i implies #[trigger] r1[j].player_id != id by {
                assert(r1[j] == roster[j]);
            }
            lemma_find_player_at(r1, id, i);
            assert(merge(merged, up) == merged);
            assert(r1.update(i, merged) =~= r1);
        } else {
            let base = if roster.len() >= MAX_PLAYERS {
                roster.drop_first()
            } else {
                roster
            };
            let k = base.len() as int;
            assert forall|j: int| 0 <= j < k implies #[trigger] r1[j].player_id != id by {
                assert(r1[j] == base[j]);
                if roster.len() >= MAX_PLAYERS {
                    assert(base[j] == roster[j + 1]);
                }
            }
            lemma_find_player_at(r1, id, k);
            assert(merge(new_player(id, up), up) == new_player(id, up));
            assert(r1.update(k, new_player(id, up)) =~= r1);
        }
    }
}

/// The roster never holds more than `MAX_PLAYERS` players.
pub proof fn law_capacity(roster: Seq<PlayerView>, up: PlayerUpdateView)
    requires
        roster.len() <= MAX_PLAYERS,
    ensures
        apply_spec(roster, up).0.len() <= MAX_PLAYERS,
{
    lemma_find_player(roster, trim(up.player_id));
}

/// After an update with a non-empty id, the roster holds that player, with
/// every field that the update carried.
pub proof fn law_update_visible(roster: Seq<PlayerView>, up: PlayerUpdateView)
    requires
        trim(up.player_id).len() > 0,
    ensures
        ({
            let r1 = apply_spec(roster, up).0;
            let id = trim(up.player_id);
            exists|k: int|
                0 <= k < r1.len() && #[trigger] r1[k].player_id == id && (up.display_name is Some
                    ==> r1[k].display_name == up.display_name) && (up.ready is Some ==> r1[k].ready
                    == up.ready) && (up.mecha_id is Some ==> r1[k].mecha_id == up.mecha_id) && (
                up.is_ai is Some ==> r1[k].is_ai == up.is_ai) && (up.camp_id is Some
                    ==> r1[k].camp_id == up.camp_id)
        }),
{
    let id = trim(up.player_id);
    let i = find_player(roster, id);
    lemma_find_player(roster, id);
    let r1 = apply_spec(roster, up).0;
    if i >= 0 {
        assert(r1[i].player_id == id);
    } else {
        assert(r1[r1.len() - 1].player_id == id);
    }
}

/// Every player is in exactly one team: the teams' sizes add up to the
/// roster's size.
pub proof fn law_teams_partition(roster: Seq<PlayerView>)
    ensures
        team_members(roster, 1).len() + team_members(roster, 2).len() + team_members(roster, 0).len()
            == roster.len(),
    decreases roster.len(),
{
    if roster.len() > 0 {
        law_teams_partition(roster.drop_last());
    }
}

/// A player is in team `t` exactly when its camp puts it there.
pub proof fn law_team_membership(roster: Seq<PlayerView>, t: int, p: PlayerView)
    ensures
        team_members(roster, t).contains(p) <==> roster.contains(p) && team_of(p) == t,
    decreases roster.len(),
{
    if roster.len() > 0 {
        let rest = roster.drop_last();
        law_team_membership(rest, t, p);
        assert(roster == rest.push(roster.last()));
        if roster.contains(p) && !rest.contains(p) {
            assert(p == roster.last()) by {
                let k = choose|k: int| 0 <= k < roster.len() && roster[k] == p;
                if k < roster.len() - 1 {
                    assert(rest[k] == p);
                }
            }
        }
        if rest.contains(p) {
            let k = choose|k: int| 0 <= k < rest.len() && rest[k] == p;
            assert(roster[k] == p);
        }
        let tm = team_members(rest, t);
        if team_of(roster.last()) == t {
            assert(team_members(roster, t) == tm.push(roster.last()));
            if tm.contains(p) {
                let k = choose|k: int| 0 <= k < tm.len() && tm[k] == p;
                assert(tm.push(roster.last())[k] == p);
            }
            if tm.push(roster.last()).contains(p) && p != roster.last() {
                let k = choose|k: int| 0 <= k < tm.len() + 1 && tm.push(roster.last())[k] == p;
                assert(tm[k] == p);
            }
            assert(tm.push(roster.last())[tm.len() as int] == roster.last());
        }
    } else {
        assert(team_members(roster, t) == Seq::<PlayerView>::empty());
    }
}

/// A player already on the roster keeps its place: an update changes only
/// that player's entry, and the roster keeps its length.
pub proof fn law_known_player_keeps_place(roster: Seq<PlayerView>, up: PlayerUpdateView, i: int)
    requires
        trim(up.player_id).len() > 0,
        0 <= i < roster.len(),
        roster[i].player_id == trim(up.player_id),
        distinct_ids(roster),
    ensures
        ({
            let r1 = apply_spec(roster, up).0;
            &&& r1.len() == roster.len()
            &&& r1[i] == merge(roster[i], up)
            &&& forall|j: int| 0 <= j < roster.len() && j != i ==> r1[j] == roster[j]
        }),
{
    let id = trim(up.player_id);
    lemma_find_player(roster, id);
    let fi = find_player(roster, id);
    assert(fi == i) by {
        if fi < 0 {
            assert(roster[i].player_id != id);
        } else if fi != i {
            assert(roster[fi].player_id == roster[i].player_id);
        }
    }
}

/// A new player on a full roster takes the place of the oldest: the first
/// player leaves, the others keep their order, and the new one comes last.
pub proof fn law_full_roster_drops_oldest(roster: Seq<PlayerView>, up: PlayerUpdateView)
    requires
        roster.len() == MAX_PLAYERS,
        trim(up.player_id).len() > 0,
        forall|j: int| 0 <= j < roster.len() ==> #[trigger] roster[j].player_id != trim(up.player_id),
    ensures
        apply_spec(roster, up) == (
            roster.subrange(1, roster.len() as int).push(new_player(trim(up.player_id), up)),
            true,
        ),
{
    lemma_find_player(roster, trim(up.player_id));
    assert(roster.drop_first() == roster.subrange(1, roster.len() as int));
}

/// The members of a team of a roster with distinct ids have distinct ids.
pub proof fn lemma_team_distinct_ids(roster: Seq<PlayerView>, t: int)
    requires
        distinct_ids(roster),
    ensures
        distinct_ids(team_members(roster, t)),
    decreases roster.len(),
{
    if roster.len() > 0 {
        let rest = roster.drop_last();
        assert(distinct_ids(rest)) by {
            assert forall|i: int, j: int| 0 <= i < j < rest.len() implies rest[i].player_id
                != rest[j].player_id by {
                assert(rest[i] == roster[i] && rest[j] == roster[j]);
            }
        }
        lemma_team_distinct_ids(rest, t);
        let tm = team_members(rest, t);
        if team_of(roster.last()) == t {
            let tn = tm.push(roster.last());
            assert forall|i: int, j: int| 0 <= i < j < tn.len() implies tn[i].player_id
                != tn[j].player_id by {
                if j == tm.len() {
                    assert(tn[i] == tm[i]);
                    assert(tm.contains(tm[i]));
                    law_team_membership(rest, t, tm[i]);
                    let k = choose|k: int| 0 <= k < rest.len() && rest[k] == tm[i];
                    assert(roster[k] == rest[k]);
                    assert(tn[j] == roster[roster.len() - 1]);
                } else {
                    assert(tn[i] == tm[i] && tn[j] == tm[j]);
                }
            }
        }
    }
}

proof fn lemma_remove_distinct(c: Seq<PlayerView>, q: int)
    requires
        distinct_ids(c),
        0 <= q < c.len(),
    ensures
        distinct_ids(c.remove(q)),
{
    let r = c.remove(q);
    assert forall|i: int, j: int| 0 <= i < j < r.len() implies r[i].player_id != r[j].player_id by {
        let ii = if i < q { i } else { i + 1 };
        let jj = if j < q { j } else { j + 1 };
        assert(r[i] == c[ii] && r[j] == c[jj]);
    }
}

/// Two lists in the order of the team lists that hold the same players as a
/// list with distinct ids are the same list: the order leaves no choice.
pub proof fn lemma_sorted_unique(a: Seq<PlayerView>, b: Seq<PlayerView>, c: Seq<PlayerView>)
    requires
        sorted_by_key(a),
        sorted_by_key(b),
        a.to_multiset() == c.to_multiset(),
        b.to_multiset() == c.to_multiset(),
        distinct_ids(c),
    ensures
        a == b,
    decreases c.len(),
{
    broadcast use vstd::seq_lib::to_multiset_contains, vstd::seq_lib::to_multiset_len;

    vstd::seq_lib::to_multiset_len(a);
    vstd::seq_lib::to_multiset_len(b);
    vstd::seq_lib::to_multiset_len(c);
    if a.len() == 0 {
        assert(a =~= b);
    } else {
        let x = a[0];
        let y = b[0];
        vstd::seq_lib::to_multiset_contains(b, y);
        vstd::seq_lib::to_multiset_contains(a, y);
        vstd::seq_lib::to_multiset_contains(a, x);
        vstd::seq_lib::to_multiset_contains(b, x);
        vstd::seq_lib::to_multiset_contains(c, x);
        vstd::seq_lib::to_multiset_contains(c, y);
        assert(b.contains(y));
        assert(a.contains(x));
        let j = choose|j: int| 0 <= j < a.len() && a[j] == y;
        let k = choose|k: int| 0 <= k < b.len() && b[k] == x;
        if j > 0 {
            assert(sort_order(a[0], a[j]) <= 0);
        } else {
            lemma_sort_order(x, x);
        }
        if k > 0 {
            assert(sort_order(b[0], b[k]) <= 0);
        } else {
            lemma_sort_order(y, y);
        }
        lemma_sort_order(x, y);
        assert(sort_order(x, y) == 0);
        lemma_chars_order(name_key(x), name_key(y));
        lemma_chars_order(x.player_id, y.player_id);
        assert(x.player_id == y.player_id);
        let p = choose|p: int| 0 <= p < c.len() && c[p] == x;
        let q = choose|q: int| 0 <= q < c.len() && c[q] == y;
        assert(p == q);
        assert(x == y);
        vstd::seq_lib::to_multiset_remove(a, 0);
        vstd::seq_lib::to_multiset_remove(b, 0);
        vstd::seq_lib::to_multiset_remove(c, p);
        assert(a.remove(0) =~= a.drop_first());
        assert(b.remove(0) =~= b.drop_first());
        lemma_remove_distinct(c, p);
        assert(sorted_by_key(a.drop_first()));
        assert(sorted_by_key(b.drop_first()));
        lemma_sorted_unique(a.drop_first(), b.drop_first(), c.remove(p));
        assert(a =~= seq![x] + a.drop_first());
        assert(b =~= seq![y] + b.drop_first());
    }
}

/// `teams` holds the team split of `roster`.
pub open spec fn splits(teams: TeamSplit, roster: Seq<PlayerView>) -> bool {
    &&& is_team(players_view(teams.team1@), roster, 1)
    &&& is_team(players_view(teams.team2@), roster, 2)
    &&& is_team(players_view(teams.unassigned@), roster, 0)
}

/// The team split of a roster with distinct ids is determined by the roster:
/// two snapshots of the same roster (two calls of `snapshot_teams`, or one
/// after replaying the same updates on a fresh roster) show the same teams,
/// player for player.
pub proof fn law_snapshot_determined(s1: TeamSplit, s2: TeamSplit, roster: Seq<PlayerView>)
    requires
        distinct_ids(roster),
        splits(s1, roster),
        splits(s2, roster),
    ensures
        players_view(s1.team1@) == players_view(s2.team1@),
        players_view(s1.team2@) == players_view(s2.team2@),
        players_view(s1.unassigned@) == players_view(s2.unassigned@),
{
    lemma_team_distinct_ids(roster, 1);
    lemma_team_distinct_ids(roster, 2);
    lemma_team_distinct_ids(roster, 0);
    lemma_sorted_unique(
        players_view(s1.team1@),
        players_view(s2.team1@),
        team_members(roster, 1),
    );
    lemma_sorted_unique(
        players_view(s1.team2@),
        players_view(s2.team2@),
        team_members(roster, 2),
    );
    lemma_sorted_unique(
        players_view(s1.unassigned@),
        players_view(s2.unassigned@),
        team_members(roster, 0),
    );
}


/// A player that an update adds holds exactly what the update says and
/// nothing more: its trimmed id, and each field as the update carries it, so
/// a field the update leaves out (its AI flag, say) stays unknown. It is added
/// last; the players before it are the roster's, less the oldest when the
/// roster was full.
pub proof fn law_new_player_fields(roster: Seq<PlayerView>, up: PlayerUpdateView)
    requires
        trim(up.player_id).len() > 0,
        forall|j: int| 0 <= j < roster.len() ==> #[trigger] roster[j].player_id != trim(up.player_id),
    ensures
        ({
            let (r1, changed) = apply_spec(roster, up);
            &&& changed
            &&& r1.len() >= 1
            &&& r1.last() == (PlayerView {
                player_id: trim(up.player_id),
                display_name: up.display_name,
                ready: up.ready,
                mecha_id: up.mecha_id,
                is_ai: up.is_ai,
                camp_id: up.camp_id,
            })
            &&& r1.drop_last() == if roster.len() >= MAX_PLAYERS {
                roster.drop_first()
            } else {
                roster
            }
        }),
{
    lemma_find_player(roster, trim(up.player_id));
    let base = if roster.len() >= MAX_PLAYERS {
        roster.drop_first()
    } else {
        roster
    };
    assert(apply_spec(roster, up).0.drop_last() =~= base);
}

} // verus!
