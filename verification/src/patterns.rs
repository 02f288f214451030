//! The three line shapes of the game log that the roster reads, as
//! functions on characters. Each shape is matched the way a leftmost-first
//! regular-expression search does: the match starts at the leftmost index
//! where the shape can match, and within it greedy repetitions take as
//! much as they can and lazy ones as little.
//!
//! - player line:   `playerId\s*:\s*(\d+),\s*displayName\s*:\s*([^,]+),\s*mechaId\s*:\s*(\d+),\s*pilotId\s*:\s*\d+,\s*ready\s*:\s*(\w+)`
//! - mecha choice:  `playerId\s*:\s*(\d+),\s*displayName\s*:\s*(.+?)\s+选择机甲\[(\d+)\]`
//! - ready notice:  `(?i)OnEmBattleReadyStateNotice\s+playerId:\s*(\d+)\s+ready:\s*(\w+)`
//!
//! `\s` is `White_Space`, `\d` is `Decimal_Number`, and `(?i)` compares
//! letters by Unicode simple case folding. Which characters are word
//! characters (`\w`) comes in as one flag per character.

use vstd::prelude::*;
use crate::classes::{decimal_digit, is_decimal_digit};
use crate::text::{
    ascii_lower, chars_of, is_white_space, lit_at, lower_char, matches_at, skip_ws, skip_ws_at,
};

verus! {

broadcast use vstd::string::group_string_axioms;

/// A range `start..end` of character indices.
pub type Span = (int, int);

/// The first index at or after `i` that is not a decimal digit (or the length).
pub open spec fn skip_digits(s: Seq<char>, i: int) -> int
    decreases s.len() - i,
{
    if 0 <= i < s.len() && is_decimal_digit(s[i]) {
        skip_digits(s, i + 1)
    } else {
        i
    }
}

/// Whether the character at `i` is a word character, by the flags `words`
/// (one per character; a missing flag reads as `false`).
pub open spec fn word_at(words: Seq<bool>, i: int) -> bool {
    0 <= i < words.len() && words[i]
}

/// The first index at or after `i` that is not a word character (or the length).
pub open spec fn skip_word(s: Seq<char>, words: Seq<bool>, i: int) -> int
    decreases s.len() - i,
{
    if 0 <= i < s.len() && word_at(words, i) {
        skip_word(s, words, i + 1)
    } else {
        i
    }
}

/// The first index at or after `i` holding `c` (or the length).
pub open spec fn find_char(s: Seq<char>, i: int, c: char) -> int
    decreases s.len() - i,
{
    if 0 <= i < s.len() && s[i] != c {
        find_char(s, i + 1, c)
    } else {
        i
    }
}

/// `s[i]` is `c`.
pub open spec fn char_at(s: Seq<char>, i: int, c: char) -> bool {
    0 <= i < s.len() && s[i] == c
}

proof fn lemma_skip_digits(s: Seq<char>, i: int)
    requires
        0 <= i <= s.len(),
    ensures
        i <= skip_digits(s, i) <= s.len(),
    decreases s.len() - i,
{
    if i < s.len() && is_decimal_digit(s[i]) {
        lemma_skip_digits(s, i + 1);
    }
}

proof fn lemma_skip_word(s: Seq<char>, words: Seq<bool>, i: int)
    requires
        0 <= i <= s.len(),
    ensures
        i <= skip_word(s, words, i) <= s.len(),
    decreases s.len() - i,
{
    if i < s.len() && word_at(words, i) {
        lemma_skip_word(s, words, i + 1);
    }
}

proof fn lemma_find_char(s: Seq<char>, i: int, c: char)
    requires
        0 <= i <= s.len(),
    ensures
        i <= find_char(s, i, c) <= s.len(),
        forall|k: int| i <= k < find_char(s, i, c) ==> #[trigger] s[k] != c,
    decreases s.len() - i,
{
    if i < s.len() && s[i] != c {
        lemma_find_char(s, i + 1, c);
    }
}

proof fn lemma_skip_ws(s: Seq<char>, i: int)
    requires
        0 <= i <= s.len(),
    ensures
        i <= skip_ws(s, i) <= s.len(),
{
    crate::text::lemma_skip_ws_bounds(s, i);
}

fn skip_digits_at(s: &[char], i: usize) -> (r: usize)
    requires
        i <= s@.len(),
    ensures
        r == skip_digits(s@, i as int),
        i <= r <= s@.len(),
{
    proof {
        lemma_skip_digits(s@, i as int);
    }
    let mut k = i;
    while k < s.len() && decimal_digit(s[k])
        invariant
            i <= k <= s@.len(),
            skip_digits(s@, k as int) == skip_digits(s@, i as int),
        decreases s@.len() - k,
    {
        k = k + 1;
    }
    k
}

fn skip_word_at(s: &[char], words: &[bool], i: usize) -> (r: usize)
    requires
        i <= s@.len(),
    ensures
        r == skip_word(s@, words@, i as int),
        i <= r <= s@.len(),
{
    proof {
        lemma_skip_word(s@, words@, i as int);
    }
    let mut k = i;
    while k < s.len() && k < words.len() && words[k]
        invariant
            i <= k <= s@.len(),
            skip_word(s@, words@, k as int) == skip_word(s@, words@, i as int),
        decreases s@.len() - k,
    {
        k = k + 1;
    }
    k
}

fn find_char_at(s: &[char], i: usize, c: char) -> (r: usize)
    requires
        i <= s@.len(),
    ensures
        r == find_char(s@, i as int, c),
        i <= r <= s@.len(),
{
    proof {
        lemma_find_char(s@, i as int, c);
    }
    let mut k = i;
    while k < s.len() && s[k] != c
        invariant
            i <= k <= s@.len(),
            find_char(s@, k as int, c) == find_char(s@, i as int, c),
        decreases s@.len() - k,
    {
        k = k + 1;
    }
    k
}

fn ws_at(s: &[char], i: usize) -> (r: usize)
    requires
        i <= s@.len(),
    ensures
        r == skip_ws(s@, i as int),
        i <= r <= s@.len(),
{
    proof {
        lemma_skip_ws(s@, i as int);
    }
    skip_ws_at(s, i)
}

fn is_char_at(s: &[char], i: usize, c: char) -> (r: bool)
    ensures
        r == char_at(s@, i as int, c),
{
    i < s.len() && s[i] == c
}

// ---------------------------------------------------------------- player line

/// The captures of the player line when it matches starting at `p`:
/// player id, display name, mecha id and ready word.
pub open spec fn player_line_at(s: Seq<char>, words: Seq<bool>, p: int) -> Option<(Span, Span, Span, Span)> {
    let a1 = skip_ws(s, p + "playerId"@.len());
    let a3 = skip_ws(s, a1 + 1);
    let id_end = skip_digits(s, a3);
    let b = skip_ws(s, id_end + 1);
    let b1 = skip_ws(s, b + "displayName"@.len());
    let n0 = b1 + 1;
    let n_ws = skip_ws(s, n0);
    let c = find_char(s, n0, ',');
    let m = skip_ws(s, c + 1);
    let m1 = skip_ws(s, m + "mechaId"@.len());
    let m2 = skip_ws(s, m1 + 1);
    let mid_end = skip_digits(s, m2);
    let q = skip_ws(s, mid_end + 1);
    let q1 = skip_ws(s, q + "pilotId"@.len());
    let q2 = skip_ws(s, q1 + 1);
    let pe = skip_digits(s, q2);
    let r = skip_ws(s, pe + 1);
    let r1 = skip_ws(s, r + "ready"@.len());
    let r2 = skip_ws(s, r1 + 1);
    let re = skip_word(s, words, r2);
    if lit_at(s, p, "playerId"@) && char_at(s, a1, ':') && a3 < id_end && char_at(s, id_end, ',')
        && lit_at(s, b, "displayName"@) && char_at(s, b1, ':') && n0 < c && char_at(s, c, ',')
        && lit_at(s, m, "mechaId"@) && char_at(s, m1, ':') && m2 < mid_end && char_at(
        s,
        mid_end,
        ',',
    ) && lit_at(s, q, "pilotId"@) && char_at(s, q1, ':') && q2 < pe && char_at(s, pe, ',')
        && lit_at(s, r, "ready"@) && char_at(s, r1, ':') && r2 < re {
        // `\s*` gives back one white-space character when `[^,]+` would be empty otherwise
        let name_start = if n_ws < c {
            n_ws
        } else {
            c - 1
        };
        Some(((a3, id_end), (name_start, c), (m2, mid_end), (r2, re)))
    } else {
        None
    }
}

/// The leftmost match of the player line at or after `p`.
pub open spec fn search_player_line(s: Seq<char>, words: Seq<bool>, p: int) -> Option<(Span, Span, Span, Span)>
    decreases s.len() + 1 - p,
{
    if p < 0 || p > s.len() {
        None
    } else {
        match player_line_at(s, words, p) {
            Some(caps) => Some(caps),
            None => search_player_line(s, words, p + 1),
        }
    }
}

/// The player line's captures in `s`, if it occurs.
pub open spec fn player_line(s: Seq<char>, words: Seq<bool>) -> Option<(Span, Span, Span, Span)> {
    search_player_line(s, words, 0)
}

/// The literal words of the player line.
struct PlayerWords {
    player_id: Vec<char>,
    display_name: Vec<char>,
    mecha_id: Vec<char>,
    pilot_id: Vec<char>,
    ready: Vec<char>,
}

impl PlayerWords {
    spec fn wf(&self) -> bool {
        &&& self.player_id@ == "playerId"@
        &&& self.display_name@ == "displayName"@
        &&& self.mecha_id@ == "mechaId"@
        &&& self.pilot_id@ == "pilotId"@
        &&& self.ready@ == "ready"@
    }

    fn new() -> (r: Self)
        ensures
            r.wf(),
    {
        PlayerWords {
            player_id: chars_of("playerId"),
            display_name: chars_of("displayName"),
            mecha_id: chars_of("mechaId"),
            pilot_id: chars_of("pilotId"),
            ready: chars_of("ready"),
        }
    }
}

/// `usize` spans as used by the executable matchers.
pub type ExecSpan = (usize, usize);

pub open spec fn span_of(x: ExecSpan) -> Span {
    (x.0 as int, x.1 as int)
}

/// `x` is a range of indices of a sequence of length `n`.
pub open spec fn span_ok(x: ExecSpan, n: int) -> bool {
    x.0 <= x.1 <= n
}

fn player_line_match_at(s: &[char], words: &[bool], p: usize, w: &PlayerWords) -> (r: Option<
    (ExecSpan, ExecSpan, ExecSpan, ExecSpan),
>)
    requires
        w.wf(),
    ensures
        match r {
            Some(c) => player_line_at(s@, words@, p as int) == Some(
                (span_of(c.0), span_of(c.1), span_of(c.2), span_of(c.3)),
            ),
            None => player_line_at(s@, words@, p as int) is None,
        },
        r matches Some(c) ==> span_ok(c.0, s@.len() as int) && span_ok(c.1, s@.len() as int)
            && span_ok(c.2, s@.len() as int) && span_ok(c.3, s@.len() as int),
{
    let len = s.len();
    if p > len || !matches_at(s, p, w.player_id.as_slice()) {
        return None;
    }
    let a1 = ws_at(s, p + w.player_id.len());
    if !is_char_at(s, a1, ':') {
        return None;
    }
    let a3 = ws_at(s, a1 + 1);
    let id_end = skip_digits_at(s, a3);
    if !(a3 < id_end && is_char_at(s, id_end, ',')) {
        return None;
    }
    let b = ws_at(s, id_end + 1);
    if !matches_at(s, b, w.display_name.as_slice()) {
        return None;
    }
    let b1 = ws_at(s, b + w.display_name.len());
    if !is_char_at(s, b1, ':') {
        return None;
    }
    let n0 = b1 + 1;
    let n_ws = ws_at(s, n0);
    let c = find_char_at(s, n0, ',');
    if !(n0 < c && is_char_at(s, c, ',')) {
        return None;
    }
    let m = ws_at(s, c + 1);
    if !matches_at(s, m, w.mecha_id.as_slice()) {
        return None;
    }
    let m1 = ws_at(s, m + w.mecha_id.len());
    if !is_char_at(s, m1, ':') {
        return None;
    }
    let m2 = ws_at(s, m1 + 1);
    let mid_end = skip_digits_at(s, m2);
    if !(m2 < mid_end && is_char_at(s, mid_end, ',')) {
        return None;
    }
    let q = ws_at(s, mid_end + 1);
    if !matches_at(s, q, w.pilot_id.as_slice()) {
        return None;
    }
    let q1 = ws_at(s, q + w.pilot_id.len());
    if !is_char_at(s, q1, ':') {
        return None;
    }
    let q2 = ws_at(s, q1 + 1);
    let pe = skip_digits_at(s, q2);
    if !(q2 < pe && is_char_at(s, pe, ',')) {
        return None;
    }
    let r = ws_at(s, pe + 1);
    if !matches_at(s, r, w.ready.as_slice()) {
        return None;
    }
    let r1 = ws_at(s, r + w.ready.len());
    if !is_char_at(s, r1, ':') {
        return None;
    }
    let r2 = ws_at(s, r1 + 1);
    let re = skip_word_at(s, words, r2);
    if !(r2 < re) {
        return None;
    }
    let name_start = if n_ws < c { n_ws } else { c - 1 };
    Some(((a3, id_end), (name_start, c), (m2, mid_end), (r2, re)))
}

/// Searches `s` for the player line, leftmost match first.
pub fn find_player_line(s: &[char], words: &[bool]) -> (r: Option<(ExecSpan, ExecSpan, ExecSpan, ExecSpan)>)
    ensures
        match r {
            Some(c) => player_line(s@, words@) == Some(
                (span_of(c.0), span_of(c.1), span_of(c.2), span_of(c.3)),
            ),
            None => player_line(s@, words@) is None,
        },
        r matches Some(c) ==> span_ok(c.0, s@.len() as int) && span_ok(c.1, s@.len() as int)
            && span_ok(c.2, s@.len() as int) && span_ok(c.3, s@.len() as int),
{
    let w = PlayerWords::new();
    let mut p: usize = 0;
    loop
        invariant
            w.wf(),
            p <= s@.len(),
            search_player_line(s@, words@, 0) == search_player_line(s@, words@, p as int),
        decreases s@.len() - p,
    {
        match player_line_match_at(s, words, p, &w) {
            Some(c) => {
                return Some(c);
            },
            None => {},
        }
        if p == s.len() {
            assert(search_player_line(s@, words@, p as int + 1) is None);
            return None;
        }
        p = p + 1;
    }
}

// ---------------------------------------------------------------- mecha choice

/// The end of the mecha-choice line from `q` on: white space, `选择机甲[`,
/// digits and `]`. Gives the span of the digits.
pub open spec fn choice_tail_at(s: Seq<char>, q: int) -> Option<Span> {
    let t = skip_ws(s, q);
    let d0 = t + "选择机甲["@.len();
    let de = skip_digits(s, d0);
    if 0 <= q < s.len() && is_white_space(s[q]) && lit_at(s, t, "选择机甲["@) && d0 < de
        && char_at(s, de, ']') {
        Some((d0, de))
    } else {
        None
    }
}

/// The lazy `(.+?)` that starts at `st`: the least end `q > st` such that
/// `s[st..q]` holds no line feed and the end of the line matches from `q`.
/// The search goes on from `q`.
pub open spec fn lazy_name_end(s: Seq<char>, st: int, q: int) -> Option<(int, Span)>
    decreases s.len() + 1 - q,
{
    if q <= st || st < 0 || q > s.len() || s[q - 1] == '\n' {
        None
    } else {
        match choice_tail_at(s, q) {
            Some(m) => Some((q, m)),
            None => lazy_name_end(s, st, q + 1),
        }
    }
}

/// The name after `displayName :`: `\s*` keeps `k` white-space characters
/// (first as many as there are, then fewer), and the lazy name starts there.
/// Gives the name's span and the mecha digits' span.
pub open spec fn choice_name(s: Seq<char>, n0: int, k: int) -> Option<(Span, Span)>
    decreases k + 1,
{
    if k < 0 {
        None
    } else {
        match lazy_name_end(s, n0 + k, n0 + k + 1) {
            Some((q, m)) => Some(((n0 + k, q), m)),
            None => choice_name(s, n0, k - 1),
        }
    }
}

/// The captures of the mecha-choice line when it matches starting at `p`:
/// player id, display name and mecha id.
pub open spec fn choice_line_at(s: Seq<char>, p: int) -> Option<(Span, Span, Span)> {
    let a1 = skip_ws(s, p + "playerId"@.len());
    let a3 = skip_ws(s, a1 + 1);
    let id_end = skip_digits(s, a3);
    let b = skip_ws(s, id_end + 1);
    let b1 = skip_ws(s, b + "displayName"@.len());
    let n0 = b1 + 1;
    if lit_at(s, p, "playerId"@) && char_at(s, a1, ':') && a3 < id_end && char_at(s, id_end, ',')
        && lit_at(s, b, "displayName"@) && char_at(s, b1, ':') {
        match choice_name(s, n0, skip_ws(s, n0) - n0) {
            Some((name, mecha)) => Some(((a3, id_end), name, mecha)),
            None => None,
        }
    } else {
        None
    }
}

/// The leftmost match of the mecha-choice line at or after `p`.
pub open spec fn search_choice_line(s: Seq<char>, p: int) -> Option<(Span, Span, Span)>
    decreases s.len() + 1 - p,
{
    if p < 0 || p > s.len() {
        None
    } else {
        match choice_line_at(s, p) {
            Some(caps) => Some(caps),
            None => search_choice_line(s, p + 1),
        }
    }
}

/// The mecha-choice line's captures in `s`, if it occurs.
pub open spec fn choice_line(s: Seq<char>) -> Option<(Span, Span, Span)> {
    search_choice_line(s, 0)
}

fn choice_tail_match(s: &[char], q: usize, marker: &Vec<char>) -> (r: Option<ExecSpan>)
    requires
        marker@ == "选择机甲["@,
    ensures
        match r {
            Some(m) => choice_tail_at(s@, q as int) == Some(span_of(m)),
            None => choice_tail_at(s@, q as int) is None,
        },
        r matches Some(m) ==> span_ok(m, s@.len() as int),
{
    let len = s.len();
    if !(q < len && crate::text::white_space(s[q])) {
        return None;
    }
    let t = ws_at(s, q);
    if !matches_at(s, t, marker.as_slice()) {
        return None;
    }
    let d0 = t + marker.len();
    let de = skip_digits_at(s, d0);
    if !(d0 < de && is_char_at(s, de, ']')) {
        return None;
    }
    Some((d0, de))
}

fn lazy_name_match(s: &[char], st: usize, marker: &Vec<char>) -> (r: Option<(usize, ExecSpan)>)
    requires
        marker@ == "选择机甲["@,
        st <= s@.len(),
    ensures
        match r {
            Some((q, m)) => lazy_name_end(s@, st as int, st + 1) == Some((q as int, span_of(m))),
            None => lazy_name_end(s@, st as int, st + 1) is None,
        },
        r matches Some((q, m)) ==> st < q <= s@.len() && span_ok(m, s@.len() as int),
{
    let len = s.len();
    if st >= len {
        return None;
    }
    let mut q = st + 1;
    loop
        invariant
            st < q <= len,
            len == s@.len(),
            marker@ == "选择机甲["@,
            lazy_name_end(s@, st as int, st + 1) == lazy_name_end(s@, st as int, q as int),
        decreases len - q,
    {
        if s[q - 1] == '\n' {
            return None;
        }
        match choice_tail_match(s, q, marker) {
            Some(m) => {
                return Some((q, m));
            },
            None => {},
        }
        if q == len {
            assert(lazy_name_end(s@, st as int, q + 1) is None);
            return None;
        }
        q = q + 1;
    }
}

fn choice_name_match(s: &[char], n0: usize, w: usize, marker: &Vec<char>) -> (r: Option<
    (ExecSpan, ExecSpan),
>)
    requires
        marker@ == "选择机甲["@,
        n0 + w <= s@.len(),
    ensures
        match r {
            Some((name, mecha)) => choice_name(s@, n0 as int, w as int) == Some(
                (span_of(name), span_of(mecha)),
            ),
            None => choice_name(s@, n0 as int, w as int) is None,
        },
        r matches Some((name, mecha)) ==> span_ok(name, s@.len() as int) && span_ok(
            mecha,
            s@.len() as int,
        ),
{
    let len = s.len();
    let mut k = w;
    loop
        invariant
            k <= w,
            n0 + w <= s@.len(),
            len == s@.len(),
            marker@ == "选择机甲["@,
            choice_name(s@, n0 as int, w as int) == choice_name(s@, n0 as int, k as int),
        decreases k,
    {
        match lazy_name_match(s, n0 + k, marker) {
            Some((q, m)) => {
                return Some(((n0 + k, q), m));
            },
            None => {},
        }
        if k == 0 {
            assert(choice_name(s@, n0 as int, -1) is None);
            return None;
        }
        k = k - 1;
    }
}

fn choice_line_match_at(s: &[char], p: usize, w: &PlayerWords, marker: &Vec<char>) -> (r: Option<
    (ExecSpan, ExecSpan, ExecSpan),
>)
    requires
        w.wf(),
        marker@ == "选择机甲["@,
    ensures
        match r {
            Some(c) => choice_line_at(s@, p as int) == Some(
                (span_of(c.0), span_of(c.1), span_of(c.2)),
            ),
            None => choice_line_at(s@, p as int) is None,
        },
        r matches Some(c) ==> span_ok(c.0, s@.len() as int) && span_ok(c.1, s@.len() as int)
            && span_ok(c.2, s@.len() as int),
{
    let len = s.len();
    if p > len || !matches_at(s, p, w.player_id.as_slice()) {
        return None;
    }
    let a1 = ws_at(s, p + w.player_id.len());
    if !is_char_at(s, a1, ':') {
        return None;
    }
    let a3 = ws_at(s, a1 + 1);
    let id_end = skip_digits_at(s, a3);
    if !(a3 < id_end && is_char_at(s, id_end, ',')) {
        return None;
    }
    let b = ws_at(s, id_end + 1);
    if !matches_at(s, b, w.display_name.as_slice()) {
        return None;
    }
    let b1 = ws_at(s, b + w.display_name.len());
    if !is_char_at(s, b1, ':') {
        return None;
    }
    let n0 = b1 + 1;
    let n_ws = ws_at(s, n0);
    match choice_name_match(s, n0, n_ws - n0, marker) {
        Some((name, mecha)) => Some(((a3, id_end), name, mecha)),
        None => None,
    }
}

/// Searches `s` for the mecha-choice line, leftmost match first.
pub fn find_choice_line(s: &[char]) -> (r: Option<(ExecSpan, ExecSpan, ExecSpan)>)
    ensures
        match r {
            Some(c) => choice_line(s@) == Some((span_of(c.0), span_of(c.1), span_of(c.2))),
            None => choice_line(s@) is None,
        },
        r matches Some(c) ==> span_ok(c.0, s@.len() as int) && span_ok(c.1, s@.len() as int)
            && span_ok(c.2, s@.len() as int),
{
    let w = PlayerWords::new();
    let marker = chars_of("选择机甲[");
    let mut p: usize = 0;
    loop
        invariant
            w.wf(),
            marker@ == "选择机甲["@,
            p <= s@.len(),
            search_choice_line(s@, 0) == search_choice_line(s@, p as int),
        decreases s@.len() - p,
    {
        match choice_line_match_at(s, p, &w, &marker) {
            Some(c) => {
                return Some(c);
            },
            None => {},
        }
        if p == s.len() {
            assert(search_choice_line(s@, p as int + 1) is None);
            return None;
        }
        p = p + 1;
    }
}

// ---------------------------------------------------------------- ready notice

/// `c` matches the pattern letter `t` under `(?i)`: Unicode simple case
/// folding, which for ASCII letters adds `ſ` to `s` and the Kelvin sign to `k`.
pub open spec fn fold_eq(c: char, t: char) -> bool {
    ||| ascii_lower(c) == ascii_lower(t)
    ||| ((t == 's' || t == 'S') && c == '\u{17f}')
    ||| ((t == 'k' || t == 'K') && c == '\u{212a}')
}

/// `lit` occurs at `p` under `(?i)`.
pub open spec fn fold_lit_at(s: Seq<char>, p: int, lit: Seq<char>) -> bool {
    &&& 0 <= p
    &&& p + lit.len() <= s.len()
    &&& forall|i: int| 0 <= i < lit.len() ==> fold_eq(#[trigger] s[p + i], lit[i])
}

fn fold_char_eq(c: char, t: char) -> (r: bool)
    ensures
        r == fold_eq(c, t),
{
    lower_char(c) == lower_char(t) || ((t == 's' || t == 'S') && c == '\u{17f}') || ((t == 'k'
        || t == 'K') && c == '\u{212a}')
}

fn fold_matches_at(s: &[char], p: usize, lit: &[char]) -> (r: bool)
    ensures
        r == fold_lit_at(s@, p as int, lit@),
{
    let len = s.len();
    if p > len || lit.len() > len - p {
        return false;
    }
    let mut k: usize = 0;
    while k < lit.len()
        invariant
            len == s@.len(),
            p + lit@.len() <= len,
            k <= lit@.len(),
            forall|i: int| 0 <= i < k ==> fold_eq(#[trigger] s@[p + i], lit@[i]),
        decreases lit@.len() - k,
    {
        if !fold_char_eq(s[p + k], lit[k]) {
            return false;
        }
        k = k + 1;
    }
    true
}

/// The captures of the ready notice when it matches starting at `p`:
/// player id and ready word.
pub open spec fn notice_line_at(s: Seq<char>, words: Seq<bool>, p: int) -> Option<(Span, Span)> {
    let a = p + "OnEmBattleReadyStateNotice"@.len();
    let b = skip_ws(s, a);
    let c = skip_ws(s, b + "playerId:"@.len());
    let de = skip_digits(s, c);
    let e = skip_ws(s, de);
    let f = skip_ws(s, e + "ready:"@.len());
    let we = skip_word(s, words, f);
    if fold_lit_at(s, p, "OnEmBattleReadyStateNotice"@) && a < b && fold_lit_at(
        s,
        b,
        "playerId:"@,
    ) && c < de && de < e && fold_lit_at(s, e, "ready:"@) && f < we {
        Some(((c, de), (f, we)))
    } else {
        None
    }
}

/// The leftmost match of the ready notice at or after `p`.
pub open spec fn search_notice_line(s: Seq<char>, words: Seq<bool>, p: int) -> Option<(Span, Span)>
    decreases s.len() + 1 - p,
{
    if p < 0 || p > s.len() {
        None
    } else {
        match notice_line_at(s, words, p) {
            Some(caps) => Some(caps),
            None => search_notice_line(s, words, p + 1),
        }
    }
}

/// The ready notice's captures in `s`, if it occurs.
pub open spec fn notice_line(s: Seq<char>, words: Seq<bool>) -> Option<(Span, Span)> {
    search_notice_line(s, words, 0)
}

struct NoticeWords {
    notice: Vec<char>,
    player_id: Vec<char>,
    ready: Vec<char>,
}

impl NoticeWords {
    spec fn wf(&self) -> bool {
        &&& self.notice@ == "OnEmBattleReadyStateNotice"@
        &&& self.player_id@ == "playerId:"@
        &&& self.ready@ == "ready:"@
    }
}

fn notice_line_match_at(s: &[char], words: &[bool], p: usize, w: &NoticeWords) -> (r: Option<(ExecSpan, ExecSpan)>)
    requires
        w.wf(),
    ensures
        match r {
            Some(c) => notice_line_at(s@, words@, p as int) == Some((span_of(c.0), span_of(c.1))),
            None => notice_line_at(s@, words@, p as int) is None,
        },
        r matches Some(c) ==> span_ok(c.0, s@.len() as int) && span_ok(c.1, s@.len() as int),
{
    let len = s.len();
    if p > len || !fold_matches_at(s, p, w.notice.as_slice()) {
        return None;
    }
    let a = p + w.notice.len();
    let b = ws_at(s, a);
    if !(a < b) {
        return None;
    }
    if !fold_matches_at(s, b, w.player_id.as_slice()) {
        return None;
    }
    let c = ws_at(s, b + w.player_id.len());
    let de = skip_digits_at(s, c);
    if !(c < de) {
        return None;
    }
    let e = ws_at(s, de);
    if !(de < e) {
        return None;
    }
    if !fold_matches_at(s, e, w.ready.as_slice()) {
        return None;
    }
    let f = ws_at(s, e + w.ready.len());
    let we = skip_word_at(s, words, f);
    if !(f < we) {
        return None;
    }
    Some(((c, de), (f, we)))
}

/// Searches `s` for the ready notice, leftmost match first.
pub fn find_notice_line(s: &[char], words: &[bool]) -> (r: Option<(ExecSpan, ExecSpan)>)
    ensures
        match r {
            Some(c) => notice_line(s@, words@) == Some((span_of(c.0), span_of(c.1))),
            None => notice_line(s@, words@) is None,
        },
        r matches Some(c) ==> span_ok(c.0, s@.len() as int) && span_ok(c.1, s@.len() as int),
{
    let w = NoticeWords {
        notice: chars_of("OnEmBattleReadyStateNotice"),
        player_id: chars_of("playerId:"),
        ready: chars_of("ready:"),
    };
    let mut p: usize = 0;
    loop
        invariant
            w.wf(),
            p <= s@.len(),
            search_notice_line(s@, words@, 0) == search_notice_line(s@, words@, p as int),
        decreases s@.len() - p,
    {
        match notice_line_match_at(s, words, p, &w) {
            Some(c) => {
                return Some(c);
            },
            None => {},
        }
        if p == s.len() {
            assert(search_notice_line(s@, words@, p as int + 1) is None);
            return None;
        }
        p = p + 1;
    }
}

} // verus!
