//! Log lines to roster updates.

use vstd::prelude::*;
pub use crate::extract::extract_json_object_from_line;
use crate::classes::{unicode_word_char, word_char};
use crate::extract::json_text;
use crate::json::{
    json_as_str, json_as_u64, json_get, json_parse, lemma_view_items, parse_json, Json, JsonView,
};
use crate::patterns::{
    choice_line, find_choice_line, find_notice_line, find_player_line, notice_line, player_line,
    Span,
};
use crate::text::{
    ascii_lower_seq, chars_eq, chars_of, contains, decimal, decimal_chars, lower_chars, parse_u32,
    parse_u32_chars, str_contains, string_from_chars, sub_chars, trim, trim_chars,
};

verus! {

broadcast use vstd::string::group_string_axioms;

/// What one log line asks of the roster.
#[derive(Debug, Clone)]
pub enum Update {
    ResetPlayers,
    PlayerUpdate(PlayerUpdate),
}

/// New facts about one player; a field that is `None` leaves what is known as it is.
#[derive(Debug, Clone, Default)]
pub struct PlayerUpdate {
    pub player_id: String,
    pub display_name: Option<String>,
    pub ready: Option<bool>,
    pub mecha_id: Option<u32>,
    pub is_ai: Option<bool>,
    pub camp_id: Option<u8>,
}

/// The mathematical value of a `PlayerUpdate`.
pub struct PlayerUpdateView {
    pub player_id: Seq<char>,
    pub display_name: Option<Seq<char>>,
    pub ready: Option<bool>,
    pub mecha_id: Option<u32>,
    pub is_ai: Option<bool>,
    pub camp_id: Option<u8>,
}

/// The mathematical value of an `Update`.
pub enum UpdateView {
    ResetPlayers,
    PlayerUpdate(PlayerUpdateView),
}

/// The characters of an optional string.
pub open spec fn opt_chars(o: Option<String>) -> Option<Seq<char>> {
    match o {
        Some(s) => Some(s@),
        None => None,
    }
}

impl View for PlayerUpdate {
    type V = PlayerUpdateView;

    open spec fn view(&self) -> PlayerUpdateView {
        PlayerUpdateView {
            player_id: self.player_id@,
            display_name: opt_chars(self.display_name),
            ready: self.ready,
            mecha_id: self.mecha_id,
            is_ai: self.is_ai,
            camp_id: self.camp_id,
        }
    }
}

impl View for Update {
    type V = UpdateView;

    open spec fn view(&self) -> UpdateView {
        match self {
            Update::ResetPlayers => UpdateView::ResetPlayers,
            Update::PlayerUpdate(p) => UpdateView::PlayerUpdate(p@),
        }
    }
}

/// The views of a sequence of updates.
pub open spec fn updates_view(v: Seq<Update>) -> Seq<UpdateView> {
    v.map_values(|u: Update| u@)
}

/// An update that sets only the given fields.
pub open spec fn player_update(
    player_id: Seq<char>,
    display_name: Option<Seq<char>>,
    ready: Option<bool>,
    mecha_id: Option<u32>,
    is_ai: Option<bool>,
    camp_id: Option<u8>,
) -> UpdateView {
    UpdateView::PlayerUpdate(
        PlayerUpdateView { player_id, display_name, ready, mecha_id, is_ai, camp_id },
    )
}

// ---------------------------------------------------------------- field values

/// `true` or `false`, in any ASCII case, with white space around it.
pub open spec fn boolish_str(s: Seq<char>) -> Option<bool> {
    let sl = ascii_lower_seq(trim(s));
    if sl == "true"@ {
        Some(true)
    } else if sl == "false"@ {
        Some(false)
    } else {
        None
    }
}

/// A JSON boolean, or a string that `boolish_str` reads.
pub open spec fn boolish(v: JsonView) -> Option<bool> {
    match v {
        JsonView::Bool(b) => Some(b),
        JsonView::Str(s) => boolish_str(s),
        _ => None,
    }
}

/// A mecha id: a JSON number or a numeric string that fits a `u32`, except 0.
pub open spec fn mecha_id_of(v: JsonView) -> Option<u32> {
    let mid = match v {
        JsonView::Number(u, _) => match u {
            Some(n) => if n <= u32::MAX {
                Some(n as u32)
            } else {
                None
            },
            None => None,
        },
        JsonView::Str(s) => parse_u32(trim(s)),
        _ => None,
    };
    match mid {
        Some(m) => if m == 0 {
            None
        } else {
            Some(m)
        },
        None => None,
    }
}

/// A camp id: a JSON number that fits a `u8`.
pub open spec fn camp_id_of(v: Option<JsonView>) -> Option<u8> {
    match v {
        Some(x) => match json_as_u64(x) {
            Some(n) => if n <= u8::MAX {
                Some(n as u8)
            } else {
                None
            },
            None => None,
        },
        None => None,
    }
}

/// Reads `true` or `false` (any ASCII case, white space around it).
pub fn parse_boolish_str(s: &str) -> (r: Option<bool>)
    ensures
        r == boolish_str(s@),
{
    let c = chars_of(s);
    bool_of_chars(c.as_slice())
}

fn bool_of_chars(s: &[char]) -> (r: Option<bool>)
    ensures
        r == boolish_str(s@),
{
    let t = trim_chars(s);
    let sl = lower_chars(t.as_slice());
    let yes = chars_of("true");
    let no = chars_of("false");
    if chars_eq(sl.as_slice(), yes.as_slice()) {
        Some(true)
    } else if chars_eq(sl.as_slice(), no.as_slice()) {
        Some(false)
    } else {
        None
    }
}

fn parse_boolish(v: &Json) -> (r: Option<bool>)
    ensures
        r == boolish(v@),
{
    match v {
        Json::Bool(b) => Some(*b),
        Json::Str(s) => parse_boolish_str(s.as_str()),
        _ => None,
    }
}

fn normalize_mecha_id(v: &Json) -> (r: Option<u32>)
    ensures
        r == mecha_id_of(v@),
{
    let mid = match v {
        Json::Number(n) => match n.as_u64 {
            Some(u) => if u <= 4294967295 {
                Some(u as u32)
            } else {
                None
            },
            None => None,
        },
        Json::Str(s) => {
            let c = chars_of(s.as_str());
            let t = trim_chars(c.as_slice());
            parse_u32_chars(t.as_slice())
        },
        _ => None,
    };
    match mid {
        Some(m) => if m == 0 {
            None
        } else {
            Some(m)
        },
        None => None,
    }
}

fn camp_id(v: Option<&Json>) -> (r: Option<u8>)
    ensures
        r == camp_id_of(
            match v {
                Some(x) => Some(x@),
                None => None,
            },
        ),
{
    match v {
        Some(x) => match x.as_u64() {
            Some(n) => if n <= 255 {
                Some(n as u8)
            } else {
                None
            },
            None => None,
        },
        None => None,
    }
}

// ---------------------------------------------------------------- voice-room snapshots

/// The player id of a `campPlayers` member: a trimmed string, or a number's text.
pub open spec fn voice_player_id(p: JsonView) -> Option<Seq<char>> {
    match json_get(p, "playerId"@) {
        Some(JsonView::Str(s)) => Some(trim(s)),
        Some(JsonView::Number(_, text)) => Some(text),
        _ => None,
    }
}

/// The update for one member of `campPlayers` in a camp whose id is `camp`;
/// none for a member without a usable player id.
pub open spec fn voice_player(p: JsonView, camp: Option<u8>) -> Option<UpdateView> {
    match voice_player_id(p) {
        Some(id) => if id.len() == 0 {
            None
        } else {
            let display_name = match json_get(p, "playerName"@) {
                Some(x) => json_as_str(x),
                None => None,
            };
            let is_ai = match json_get(p, "isAi"@) {
                Some(x) => boolish(x),
                None => None,
            };
            let selected = match json_get(p, "mechaIdSelected"@) {
                Some(x) => mecha_id_of(x),
                None => None,
            };
            let mecha_id = if selected is Some {
                selected
            } else {
                match json_get(p, "mechaId"@) {
                    Some(x) => mecha_id_of(x),
                    None => None,
                }
            };
            let camp_id = match camp_id_of(json_get(p, "campId"@)) {
                Some(c) => Some(c),
                None => camp,
            };
            Some(player_update(id, display_name, None, mecha_id, is_ai, camp_id))
        },
        None => None,
    }
}

/// The updates for the members `players` of a camp, in order.
pub open spec fn players_updates(players: Seq<JsonView>, camp: Option<u8>) -> Seq<UpdateView>
    decreases players.len(),
{
    if players.len() == 0 {
        Seq::empty()
    } else {
        let rest = players_updates(players.drop_last(), camp);
        match voice_player(players.last(), camp) {
            Some(u) => rest.push(u),
            None => rest,
        }
    }
}

/// The members of a camp: its `campPlayers` array, or none.
pub open spec fn camp_players(camp: JsonView) -> Seq<JsonView> {
    match json_get(camp, "campPlayers"@) {
        Some(JsonView::Array(items)) => items,
        _ => Seq::empty(),
    }
}

/// The updates for one camp of a voice-room snapshot.
pub open spec fn camp_updates(camp: JsonView) -> Seq<UpdateView> {
    players_updates(camp_players(camp), camp_id_of(json_get(camp, "campId"@)))
}

/// The updates for the camps `camps`, in order.
pub open spec fn camps_updates(camps: Seq<JsonView>) -> Seq<UpdateView>
    decreases camps.len(),
{
    if camps.len() == 0 {
        Seq::empty()
    } else {
        camps_updates(camps.drop_last()) + camp_updates(camps.last())
    }
}

/// The updates for a voice-room snapshot: an array of camps, or one camp.
pub open spec fn voice_updates(payload: JsonView) -> Seq<UpdateView> {
    match payload {
        JsonView::Array(camps) => camps_updates(camps),
        _ => camps_updates(seq![payload]),
    }
}

fn chars_to_string(c: &Vec<char>) -> (r: String)
    ensures
        r@ == c@,
{
    string_from_chars(c.as_slice())
}

fn voice_player_update(p: &Json, camp: Option<u8>) -> (r: Option<PlayerUpdate>)
    ensures
        match r {
            Some(u) => voice_player(p@, camp) == Some(UpdateView::PlayerUpdate(u@)),
            None => voice_player(p@, camp) is None,
        },
{
    let player_id: String = match p.get("playerId") {
        Some(Json::Str(s)) => {
            let c = chars_of(s.as_str());
            let t = trim_chars(c.as_slice());
            chars_to_string(&t)
        },
        Some(Json::Number(n)) => n.text.clone(),
        _ => {
            return None;
        },
    };
    if player_id.as_str().is_empty() {
        return None;
    }
    let display_name = match p.get("playerName") {
        Some(x) => match x.as_str() {
            Some(s) => Some(s.clone()),
            None => None,
        },
        None => None,
    };
    let is_ai = match p.get("isAi") {
        Some(x) => parse_boolish(x),
        None => None,
    };
    let selected = match p.get("mechaIdSelected") {
        Some(x) => normalize_mecha_id(x),
        None => None,
    };
    let mecha_id = if selected.is_some() {
        selected
    } else {
        match p.get("mechaId") {
            Some(x) => normalize_mecha_id(x),
            None => None,
        }
    };
    let own_camp = camp_id(p.get("campId"));
    let camp_id = match own_camp {
        Some(c) => Some(c),
        None => camp,
    };
    Some(PlayerUpdate { player_id, display_name, ready: None, mecha_id, is_ai, camp_id })
}

proof fn lemma_updates_view_push(v: Seq<Update>, u: Update)
    ensures
        updates_view(v.push(u)) == updates_view(v).push(u@),
{
    assert(updates_view(v.push(u)) =~= updates_view(v).push(u@));
}

/// Appends the updates of one camp to `out`.
fn push_camp_updates(camp: &Json, out: &mut Vec<Update>)
    ensures
        updates_view(final(out)@) == updates_view(old(out)@) + camp_updates(camp@),
{
    let cid = camp_id(camp.get("campId"));
    match camp.get("campPlayers") {
        Some(Json::Array(items)) => {
            let ghost players = camp_players(camp@);
            proof {
                lemma_view_items(items@);
            }
            assert(players == crate::json::view_items(items@));
            let ghost start = updates_view(out@);
            let mut i: usize = 0;
            while i < items.len()
                invariant
                    i <= items@.len(),
                    players.len() == items@.len(),
                    forall|j: int| 0 <= j < items@.len() ==> #[trigger] players[j] == items@[j]@,
                    updates_view(out@) == start + players_updates(players.take(i as int), cid),
                decreases items@.len() - i,
            {
                let ghost before = updates_view(out@);
                assert(players.take(i as int + 1).drop_last() == players.take(i as int));
                assert(players.take(i as int + 1).last() == items@[i as int]@);
                match voice_player_update(&items[i], cid) {
                    Some(u) => {
                        proof {
                            lemma_updates_view_push(out@, Update::PlayerUpdate(u));
                        }
                        out.push(Update::PlayerUpdate(u));
                    },
                    None => {},
                }
                i = i + 1;
            }
            assert(players.take(items@.len() as int) == players);
        },
        _ => {
            assert(camp_players(camp@) == Seq::<JsonView>::empty());
            assert(updates_view(out@) == updates_view(out@) + Seq::<UpdateView>::empty());
        },
    }
}

/// The updates that a voice-room snapshot (`EnterWarVoiceRoom`) gives: one per
/// member of each camp's `campPlayers` that has a player id, in order.
fn apply_voice_room_snapshot(payload: &Json) -> (r: Vec<Update>)
    ensures
        updates_view(r@) == voice_updates(payload@),
{
    let mut out: Vec<Update> = Vec::new();
    assert(updates_view(out@) == Seq::<UpdateView>::empty());
    match payload {
        Json::Array(camps) => {
            let ghost cv = crate::json::view_items(camps@);
            proof {
                lemma_view_items(camps@);
            }
            let mut i: usize = 0;
            while i < camps.len()
                invariant
                    i <= camps@.len(),
                    cv.len() == camps@.len(),
                    payload@ == JsonView::Array(cv),
                    forall|j: int| 0 <= j < camps@.len() ==> #[trigger] cv[j] == camps@[j]@,
                    updates_view(out@) == camps_updates(cv.take(i as int)),
                decreases camps@.len() - i,
            {
                assert(cv.take(i as int + 1).drop_last() == cv.take(i as int));
                assert(cv.take(i as int + 1).last() == camps@[i as int]@);
                push_camp_updates(&camps[i], &mut out);
                i = i + 1;
            }
            assert(cv.take(camps@.len() as int) == cv);
        },
        _ => {
            push_camp_updates(payload, &mut out);
            assert(!(payload@ is Array));
            let ghost one = seq![payload@];
            assert(one.drop_last() == Seq::<JsonView>::empty());
            assert(one.last() == payload@);
            assert(camps_updates(Seq::<JsonView>::empty()) == Seq::<UpdateView>::empty());
            assert(camps_updates(one) == Seq::<UpdateView>::empty() + camp_updates(payload@));
            assert(Seq::<UpdateView>::empty() + camp_updates(payload@) == camp_updates(payload@));
        },
    }
    out
}

// ---------------------------------------------------------------- JSON-carrying lines

/// The `playerId` member of a JSON payload: a string, or a non-negative
/// integer written in decimal.
pub open spec fn json_player_id(payload: JsonView) -> Option<Seq<char>> {
    match json_get(payload, "playerId"@) {
        Some(v) => match json_as_str(v) {
            Some(s) => Some(s),
            None => match json_as_u64(v) {
                Some(u) => Some(decimal(u as nat)),
                None => None,
            },
        },
        None => None,
    }
}

/// The mecha id under `aiMechaDiy.mechaId`.
pub open spec fn ai_mecha_id(payload: JsonView) -> Option<u32> {
    match json_get(payload, "aiMechaDiy"@) {
        Some(ai) => match json_get(ai, "mechaId"@) {
            Some(m) => mecha_id_of(m),
            None => None,
        },
        None => None,
    }
}

/// The updates from a line whose JSON text parsed to `payload`: a voice-room
/// snapshot, a mecha choice (`UIWarPrepareModule`, `收到玩家选择机甲协议`),
/// or a ready change; nothing otherwise.
pub open spec fn json_line_updates(line: Seq<char>, payload: JsonView) -> Seq<UpdateView> {
    if contains(line, "EnterWarVoiceRoom"@) && ((payload is Object && json_get(
        payload,
        "campPlayers"@,
    ) is Some) || payload is Array) {
        voice_updates(payload)
    } else if payload is Object && contains(line, "UIWarPrepareModule"@) && contains(
        line,
        "收到玩家选择机甲协议"@,
    ) && json_get(payload, "playerId"@) is Some && json_get(payload, "mechaId"@) is Some
        && json_player_id(payload) is Some {
        seq![
            player_update(
                json_player_id(payload)->0,
                None,
                None,
                mecha_id_of(json_get(payload, "mechaId"@)->0),
                None,
                None,
            ),
        ]
    } else if payload is Object && json_get(payload, "playerId"@) is Some && json_get(
        payload,
        "ready"@,
    ) is Some && json_player_id(payload) is Some {
        seq![
            player_update(
                json_player_id(payload)->0,
                None,
                boolish(json_get(payload, "ready"@)->0),
                ai_mecha_id(payload),
                None,
                None,
            ),
        ]
    } else {
        Seq::empty()
    }
}

fn json_player_id_of(payload: &Json) -> (r: Option<String>)
    ensures
        opt_chars(r) == json_player_id(payload@),
{
    match payload.get("playerId") {
        Some(v) => match v.as_str() {
            Some(s) => Some(s.clone()),
            None => match v.as_u64() {
                Some(u) => {
                    let d = decimal_chars(u);
                    Some(chars_to_string(&d))
                },
                None => None,
            },
        },
        None => None,
    }
}

fn one_update(u: PlayerUpdate) -> (r: Vec<Update>)
    ensures
        updates_view(r@) == seq![UpdateView::PlayerUpdate(u@)],
{
    let mut r: Vec<Update> = Vec::new();
    r.push(Update::PlayerUpdate(u));
    assert(updates_view(r@) =~= seq![UpdateView::PlayerUpdate(u@)]);
    r
}

/// The updates from a line whose JSON text `serde_json` parsed to `payload`.
pub fn parse_json_line(line: &str, payload: &Json) -> (r: Vec<Update>)
    ensures
        updates_view(r@) == json_line_updates(line@, payload@),
{
    let s = chars_of(line);
    let s = s.as_slice();
    if str_contains(s, "EnterWarVoiceRoom") {
        if payload.is_object() && payload.get("campPlayers").is_some() {
            return apply_voice_room_snapshot(payload);
        }
        if payload.is_array() {
            return apply_voice_room_snapshot(payload);
        }
    }
    if payload.is_object() && str_contains(s, "UIWarPrepareModule") && str_contains(
        s,
        "收到玩家选择机甲协议",
    ) && payload.get("playerId").is_some() && payload.get("mechaId").is_some() {
        match json_player_id_of(payload) {
            Some(player_id) => {
                let mecha_id = match payload.get("mechaId") {
                    Some(m) => normalize_mecha_id(m),
                    None => None,
                };
                return one_update(
                    PlayerUpdate {
                        player_id,
                        display_name: None,
                        ready: None,
                        mecha_id,
                        is_ai: None,
                        camp_id: None,
                    },
                );
            },
            None => {},
        }
    }
    if payload.is_object() && payload.get("playerId").is_some() && payload.get("ready").is_some() {
        match json_player_id_of(payload) {
            Some(player_id) => {
                let mut mecha_id = None;
                match payload.get("aiMechaDiy") {
                    Some(ai) => match ai.get("mechaId") {
                        Some(mid) => {
                            mecha_id = normalize_mecha_id(mid);
                        },
                        None => {},
                    },
                    None => {},
                }
                let ready = match payload.get("ready") {
                    Some(v) => parse_boolish(v),
                    None => None,
                };
                return one_update(
                    PlayerUpdate {
                        player_id,
                        display_name: None,
                        ready,
                        mecha_id,
                        is_ai: None,
                        camp_id: None,
                    },
                );
            },
            None => {},
        }
    }
    let r: Vec<Update> = Vec::new();
    assert(updates_view(r@) =~= Seq::<UpdateView>::empty());
    r
}

// ---------------------------------------------------------------- whole lines

/// The characters of `s` in the range `x`.
pub open spec fn text_of(s: Seq<char>, x: Span) -> Seq<char> {
    s.subrange(x.0, x.1)
}

/// Which characters of `s` are Unicode word characters, one flag each.
pub open spec fn word_flags(s: Seq<char>) -> Seq<bool> {
    Seq::new(s.len(), |i: int| unicode_word_char(s[i]))
}

/// The updates that the text of one log line gives.
pub open spec fn line_updates(line: Seq<char>) -> Seq<UpdateView> {
    line_updates_with(line, word_flags(line))
}

/// The updates that one log line gives, where `words` flags its word
/// characters. The checks go in this order, the first that applies giving
/// the result: a combat-record result resets the roster; a prepare-screen
/// line (`UIWarPreparePlayer.cs`) gives a player with name, mecha and ready
/// state, or else a mecha choice; a ready notice gives a ready state;
/// otherwise the JSON text that the line carries is read by
/// `json_line_updates`.
pub open spec fn line_updates_with(line: Seq<char>, words: Seq<bool>) -> Seq<UpdateView> {
    let prepare = contains(line, "UIWarPreparePlayer.cs"@) && contains(line, "playerId"@);
    if contains(line, "GAME_S2C_QUERY_COMBAT_RECORD_RESULT"@) {
        seq![UpdateView::ResetPlayers]
    } else if prepare && player_line(line, words) is Some {
        let (id, name, mecha, ready) = player_line(line, words)->0;
        seq![
            player_update(
                text_of(line, id),
                Some(trim(text_of(line, name))),
                boolish_str(text_of(line, ready)),
                parse_u32(trim(text_of(line, mecha))),
                None,
                None,
            ),
        ]
    } else if prepare && choice_line(line) is Some {
        let (id, name, mecha) = choice_line(line)->0;
        seq![
            player_update(
                text_of(line, id),
                Some(trim(text_of(line, name))),
                None,
                parse_u32(trim(text_of(line, mecha))),
                None,
                None,
            ),
        ]
    } else if contains(line, "OnEmBattleReadyStateNotice"@) && contains(line, "playerId"@)
        && notice_line(line, words) is Some {
        let (id, ready) = notice_line(line, words)->0;
        seq![player_update(text_of(line, id), None, boolish_str(text_of(line, ready)), None, None, None)]
    } else {
        match json_text(line) {
            Some(t) => match json_parse(t) {
                Some(payload) => json_line_updates(line, payload),
                None => Seq::empty(),
            },
            None => Seq::empty(),
        }
    }
}

fn span_string(s: &[char], x: (usize, usize)) -> (r: String)
    requires
        x.0 <= x.1 <= s@.len(),
    ensures
        r@ == s@.subrange(x.0 as int, x.1 as int),
{
    let c = sub_chars(s, x.0, x.1);
    chars_to_string(&c)
}

fn span_trimmed(s: &[char], x: (usize, usize)) -> (r: Vec<char>)
    requires
        x.0 <= x.1 <= s@.len(),
    ensures
        r@ == trim(s@.subrange(x.0 as int, x.1 as int)),
{
    let c = sub_chars(s, x.0, x.1);
    trim_chars(c.as_slice())
}

/// The word-character flags of the characters of `s`.
fn word_flags_of(s: &[char]) -> (r: Vec<bool>)
    ensures
        r@ == word_flags(s@),
{
    let mut r: Vec<bool> = Vec::new();
    let mut i: usize = 0;
    while i < s.len()
        invariant
            i <= s@.len(),
            r@ == word_flags(s@).take(i as int),
        decreases s@.len() - i,
    {
        r.push(word_char(s[i]));
        assert(r@ =~= word_flags(s@).take(i as int + 1));
        i = i + 1;
    }
    assert(r@ =~= word_flags(s@));
    r
}

/// Parses one log line into the roster updates it carries (none, one, or for
/// a voice-room snapshot one per player).
pub fn parse_line(line: &str) -> (r: Vec<Update>)
    ensures
        updates_view(r@) == line_updates(line@),
{
    let s = chars_of(line);
    let words = word_flags_of(s.as_slice());
    parse_line_with_words(line, words.as_slice())
}

/// Parses one log line into roster updates, where `words` flags which of its
/// characters are word characters (a missing flag reads as `false`).
pub fn parse_line_with_words(line: &str, words: &[bool]) -> (r: Vec<Update>)
    ensures
        updates_view(r@) == line_updates_with(line@, words@),
{
    let s = chars_of(line);
    let s = s.as_slice();
    if str_contains(s, "GAME_S2C_QUERY_COMBAT_RECORD_RESULT") {
        let mut r: Vec<Update> = Vec::new();
        r.push(Update::ResetPlayers);
        assert(updates_view(r@) =~= seq![UpdateView::ResetPlayers]);
        return r;
    }
    if str_contains(s, "UIWarPreparePlayer.cs") && str_contains(s, "playerId") {
        match find_player_line(s, words) {
            Some((id, name, mecha, ready)) => {
                let player_id = span_string(s, id);
                let t = span_trimmed(s, name);
                let display_name = chars_to_string(&t);
                let m = span_trimmed(s, mecha);
                let mecha_id = parse_u32_chars(m.as_slice());
                let rw = sub_chars(s, ready.0, ready.1);
                let ready_state = bool_of_chars(rw.as_slice());
                return one_update(
                    PlayerUpdate {
                        player_id,
                        display_name: Some(display_name),
                        ready: ready_state,
                        mecha_id,
                        is_ai: None,
                        camp_id: None,
                    },
                );
            },
            None => {},
        }
        match find_choice_line(s) {
            Some((id, name, mecha)) => {
                let player_id = span_string(s, id);
                let t = span_trimmed(s, name);
                let display_name = chars_to_string(&t);
                let m = span_trimmed(s, mecha);
                let mecha_id = parse_u32_chars(m.as_slice());
                return one_update(
                    PlayerUpdate {
                        player_id,
                        display_name: Some(display_name),
                        ready: None,
                        mecha_id,
                        is_ai: None,
                        camp_id: None,
                    },
                );
            },
            None => {},
        }
    }
    if str_contains(s, "OnEmBattleReadyStateNotice") && str_contains(s, "playerId") {
        match find_notice_line(s, words) {
            Some((id, ready)) => {
                let player_id = span_string(s, id);
                let rw = sub_chars(s, ready.0, ready.1);
                let ready_state = bool_of_chars(rw.as_slice());
                return one_update(
                    PlayerUpdate {
                        player_id,
                        display_name: None,
                        ready: ready_state,
                        mecha_id: None,
                        is_ai: None,
                        camp_id: None,
                    },
                );
            },
            None => {},
        }
    }
    let none: Vec<Update> = Vec::new();
    assert(updates_view(none@) =~= Seq::<UpdateView>::empty());
    match extract_json_object_from_line(line) {
        Some(text) => match parse_json(text.as_str()) {
            Some(payload) => parse_json_line(line, &payload),
            None => none,
        },
        None => none,
    }
}

/// A line gives at most one update, except a voice-room snapshot
/// (`EnterWarVoiceRoom`), which gives one per player it lists.
pub proof fn law_one_update_per_line(line: Seq<char>)
    ensures
        line_updates(line).len() <= 1 || contains(line, "EnterWarVoiceRoom"@),
{
}

/// A combat-record result line resets the roster, whatever else it holds.
pub proof fn law_reset_line(line: Seq<char>)
    requires
        contains(line, "GAME_S2C_QUERY_COMBAT_RECORD_RESULT"@),
    ensures
        line_updates(line) == seq![UpdateView::ResetPlayers],
{
}


/// A member of `campPlayers` reports the mecha it selected: when its
/// `mechaIdSelected` is a usable mecha id (a non-zero number or numeric string
/// that fits a `u32`), the update carries that id whatever `mechaId` holds;
/// `mechaId` is read only when `mechaIdSelected` is missing or unusable.
pub proof fn law_selected_mecha_wins(p: JsonView, camp: Option<u8>, u: PlayerUpdateView)
    requires
        voice_player(p, camp) == Some(UpdateView::PlayerUpdate(u)),
    ensures
        (match json_get(p, "mechaIdSelected"@) {
            Some(JsonView::Number(Some(n), _)) => 0 < n <= u32::MAX ==> u.mecha_id == Some(
                n as u32,
            ),
            Some(JsonView::Str(t)) => match parse_u32(trim(t)) {
                Some(m) => m != 0 ==> u.mecha_id == Some(m),
                None => true,
            },
            _ => true,
        }),
        (match json_get(p, "mechaIdSelected"@) {
            Some(x) => mecha_id_of(x) is Some ==> u.mecha_id == mecha_id_of(x),
            None => true,
        }),
        (match json_get(p, "mechaIdSelected"@) {
            Some(x) => mecha_id_of(x) is Some,
            None => false,
        }) || u.mecha_id == (match json_get(p, "mechaId"@) {
            Some(x) => mecha_id_of(x),
            None => None,
        }),
{
}

} // verus!
