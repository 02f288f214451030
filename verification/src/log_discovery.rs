//! Finding the game's log: which processes are the game, where their logs
//! may lie, which files hold the roster, and which entry is the newest.
//! Listing processes and directories happens around these functions.

use vstd::prelude::*;
use crate::text::{
    ascii_lower, ascii_lower_seq, chars_of, chars_order, compare_chars, contains, lemma_chars_order,
    lemma_chars_order_trans, lower_char, lower_chars, str_contains,
};

verus! {

broadcast use vstd::string::group_string_axioms;

/// A filesystem path split as `std::path::Path::components` splits it: the
/// prefix and root written together (`C:\`, `/`, or nothing for a relative
/// path), then the remaining components.
pub struct SplitPath {
    pub anchor: String,
    pub parts: Vec<String>,
}

/// The characters of each string.
pub open spec fn strings_view(v: Seq<String>) -> Seq<Seq<char>> {
    v.map_values(|s: String| s@)
}

/// Lexicographic order of paths by component, as `Path`'s `Ord` compares
/// them: -1, 0 or 1.
pub open spec fn parts_order(a: Seq<Seq<char>>, b: Seq<Seq<char>>) -> int
    decreases a.len(),
{
    if a.len() == 0 {
        if b.len() == 0 {
            0
        } else {
            -1
        }
    } else if b.len() == 0 {
        1
    } else if chars_order(a[0], b[0]) != 0 {
        chars_order(a[0], b[0])
    } else {
        parts_order(a.drop_first(), b.drop_first())
    }
}

pub proof fn lemma_parts_order(a: Seq<Seq<char>>, b: Seq<Seq<char>>)
    ensures
        -1 <= parts_order(a, b) <= 1,
        parts_order(a, b) == -parts_order(b, a),
        parts_order(a, b) == 0 <==> a == b,
    decreases a.len(),
{
    if a.len() > 0 && b.len() > 0 {
        lemma_chars_order(a[0], b[0]);
        lemma_parts_order(a.drop_first(), b.drop_first());
        if a[0] == b[0] {
            if a.drop_first() == b.drop_first() {
                assert(a =~= seq![a[0]] + a.drop_first());
                assert(b =~= seq![b[0]] + b.drop_first());
            }
            if a == b {
                assert(a.drop_first() =~= b.drop_first());
            }
        } else {
            assert(a != b);
        }
    } else if a.len() == 0 && b.len() == 0 {
        assert(a =~= b);
    } else {
        assert(a.len() != b.len());
    }
}

pub proof fn lemma_parts_order_trans(a: Seq<Seq<char>>, b: Seq<Seq<char>>, c: Seq<Seq<char>>)
    requires
        parts_order(a, b) <= 0,
        parts_order(b, c) <= 0,
    ensures
        parts_order(a, c) <= 0,
    decreases a.len(),
{
    if a.len() > 0 && b.len() > 0 && c.len() > 0 {
        lemma_chars_order(a[0], b[0]);
        lemma_chars_order(b[0], c[0]);
        lemma_chars_order(a[0], c[0]);
        lemma_chars_order_trans(a[0], b[0], c[0]);
        if chars_order(a[0], b[0]) == 0 && chars_order(b[0], c[0]) == 0 {
            lemma_parts_order_trans(a.drop_first(), b.drop_first(), c.drop_first());
        } else if chars_order(a[0], c[0]) == 0 {
            lemma_chars_order_trans(b[0], c[0], a[0]);
            lemma_chars_order_trans(c[0], a[0], b[0]);
        }
    }
}

proof fn lemma_parts_lt_le(a: Seq<Seq<char>>, b: Seq<Seq<char>>, c: Seq<Seq<char>>)
    requires
        parts_order(a, b) < 0,
        parts_order(b, c) <= 0,
    ensures
        parts_order(a, c) < 0,
{
    lemma_parts_order_trans(a, b, c);
    lemma_parts_order(a, c);
    lemma_parts_order(b, c);
    lemma_parts_order(a, b);
    if parts_order(a, c) == 0 {
        assert(a == c);
    }
}

/// The directories under a base directory where the game may keep its logs.
pub open spec fn log_suffix(s: int) -> Seq<Seq<char>> {
    if s == 0 {
        seq!["logs"@, "MechaBREAK"@]
    } else if s == 1 {
        seq!["MechaBreak"@, "logs"@, "MechaBREAK"@]
    } else {
        seq!["Game"@, "MechaBreak"@, "logs"@, "MechaBREAK"@]
    }
}

/// How many ancestors of a path with `n` components are searched: the
/// parent, grandparent and great-grandparent, as far as they exist.
pub open spec fn ancestor_count(n: int) -> int {
    if n < 3 {
        n
    } else {
        3
    }
}

/// The log directories to try for an executable with components `parts`, in
/// the order they are generated: for each searched ancestor (nearest first),
/// the three places under it.
pub open spec fn log_candidates(parts: Seq<Seq<char>>) -> Seq<Seq<Seq<char>>> {
    Seq::new(
        (3 * ancestor_count(parts.len() as int)) as nat,
        |i: int| parts.take(parts.len() - 1 - i / 3) + log_suffix(i % 3),
    )
}

/// Strictly increasing in path order.
pub open spec fn strictly_sorted(s: Seq<Seq<Seq<char>>>) -> bool {
    forall|i: int, j: int| 0 <= i < j < s.len() ==> parts_order(s[i], s[j]) < 0
}

fn compare_parts(a: &Vec<String>, b: &Vec<String>) -> (r: i8)
    ensures
        r as int == parts_order(strings_view(a@), strings_view(b@)),
{
    let ghost av = strings_view(a@);
    let ghost bv = strings_view(b@);
    let mut k: usize = 0;
    assert(av.skip(0) == av);
    assert(bv.skip(0) == bv);
    loop
        invariant
            k <= a@.len(),
            k <= b@.len(),
            av == strings_view(a@),
            bv == strings_view(b@),
            parts_order(av, bv) == parts_order(av.skip(k as int), bv.skip(k as int)),
        decreases a@.len() - k,
    {
        if k == a.len() {
            if k == b.len() {
                return 0;
            }
            return -1;
        }
        if k == b.len() {
            return 1;
        }
        let x = chars_of(a[k].as_str());
        let y = chars_of(b[k].as_str());
        let c = compare_chars(x.as_slice(), y.as_slice());
        assert(av.skip(k as int)[0] == a@[k as int]@);
        assert(bv.skip(k as int)[0] == b@[k as int]@);
        if c != 0 {
            return c;
        }
        assert(av.skip(k as int).drop_first() == av.skip(k as int + 1));
        assert(bv.skip(k as int).drop_first() == bv.skip(k as int + 1));
        k = k + 1;
    }
}

fn copy_strings(v: &Vec<String>, n: usize) -> (r: Vec<String>)
    requires
        n <= v@.len(),
    ensures
        strings_view(r@) == strings_view(v@).take(n as int),
{
    let mut r: Vec<String> = Vec::new();
    let mut i: usize = 0;
    while i < n
        invariant
            i <= n <= v@.len(),
            strings_view(r@) == strings_view(v@).take(i as int),
        decreases n - i,
    {
        let ghost before = r@;
        let x = v[i].clone();
        r.push(x);
        assert(strings_view(r@) =~= strings_view(before).push(v@[i as int]@));
        assert(strings_view(v@).take(i as int + 1) =~= strings_view(v@).take(i as int).push(
            v@[i as int]@,
        ));
        i = i + 1;
    }
    r
}

fn push_str(v: &mut Vec<String>, s: &str)
    ensures
        strings_view(final(v)@) == strings_view(old(v)@).push(s@),
{
    v.push(s.to_string());
    assert(strings_view(v@) =~= strings_view(old(v)@).push(s@));
}

fn candidate(exe: &Vec<String>, i: usize) -> (r: Vec<String>)
    requires
        i < 3 * ancestor_count(exe@.len() as int),
    ensures
        strings_view(r@) == log_candidates(strings_view(exe@))[i as int],
{
    let n = exe.len();
    let mut r = copy_strings(exe, n - 1 - i / 3);
    let s = i % 3;
    if s == 1 {
        push_str(&mut r, "MechaBreak");
    } else if s == 2 {
        push_str(&mut r, "Game");
        push_str(&mut r, "MechaBreak");
    }
    push_str(&mut r, "logs");
    push_str(&mut r, "MechaBREAK");
    assert(strings_view(r@) =~= log_candidates(strings_view(exe@))[i as int]);
    r
}

/// The places where a game executable's logs may lie: under its parent,
/// grandparent and great-grandparent directories, `logs/MechaBREAK`,
/// `MechaBreak/logs/MechaBREAK` and `Game/MechaBreak/logs/MechaBREAK`;
/// sorted in path order, each once.
pub fn iter_log_base_candidates(exe_path: &SplitPath) -> (r: Vec<SplitPath>)
    ensures
        forall|i: int| 0 <= i < r@.len() ==> (#[trigger] r@[i]).anchor@ == exe_path.anchor@,
        strictly_sorted(r@.map_values(|p: SplitPath| strings_view(p.parts@))),
        forall|c: Seq<Seq<char>>|
            r@.map_values(|p: SplitPath| strings_view(p.parts@)).contains(c) <==> log_candidates(
                strings_view(exe_path.parts@),
            ).contains(c),
{
    let exe = &exe_path.parts;
    let ghost cands = log_candidates(strings_view(exe@));
    let n = exe.len();
    let count: usize = if n < 3 { 3 * n } else { 9 };
    let mut out: Vec<Vec<String>> = Vec::new();
    let mut i: usize = 0;
    while i < count
        invariant
            i <= count,
            count == 3 * ancestor_count(exe@.len() as int),
            cands == log_candidates(strings_view(exe@)),
            strictly_sorted(out@.map_values(|p: Vec<String>| strings_view(p@))),
            forall|c: Seq<Seq<char>>|
                out@.map_values(|p: Vec<String>| strings_view(p@)).contains(c) <==> cands.take(
                    i as int,
                ).contains(c),
        decreases count - i,
    {
        let c = candidate(exe, i);
        let ghost cv = strings_view(c@);
        let ghost ov = out@.map_values(|p: Vec<String>| strings_view(p@));
        let mut j: usize = 0;
        while j < out.len() && compare_parts(&out[j], &c) < 0
            invariant
                j <= out@.len(),
                ov == out@.map_values(|p: Vec<String>| strings_view(p@)),
                cv == strings_view(c@),
                forall|k: int| 0 <= k < j ==> parts_order(#[trigger] ov[k], cv) < 0,
            decreases out@.len() - j,
        {
            j = j + 1;
        }
        let found = j < out.len() && compare_parts(&out[j], &c) == 0;
        assert(cands.take(i as int + 1) == cands.take(i as int).push(cv));
        if found {
            proof {
                lemma_parts_order(ov[j as int], cv);
                assert(ov[j as int] == cv);
            }
        } else {
            proof {
                if j < out@.len() {
                    lemma_parts_order(ov[j as int], cv);
                }
                assert forall|a: int, b: int|
                    0 <= a < b < ov.len() + 1 implies parts_order(
                    #[trigger] ov.insert(j as int, cv)[a],
                    #[trigger] ov.insert(j as int, cv)[b],
                ) < 0 by {
                    let t = ov.insert(j as int, cv);
                    if b < j {
                        assert(t[a] == ov[a] && t[b] == ov[b]);
                    } else if b == j {
                        assert(t[a] == ov[a]);
                    } else if a < j {
                        assert(t[a] == ov[a] && t[b] == ov[b - 1]);
                    } else if a == j {
                        assert(t[b] == ov[b - 1]);
                        if b - 1 > j {
                            assert(parts_order(ov[j as int], ov[b - 1]) < 0);
                        } else {
                            lemma_parts_order(ov[j as int], ov[b - 1]);
                        }
                        lemma_parts_lt_le(cv, ov[j as int], ov[b - 1]);
                    } else {
                        assert(t[a] == ov[a - 1] && t[b] == ov[b - 1]);
                    }
                }
            }
            out.insert(j, c);
            assert(out@.map_values(|p: Vec<String>| strings_view(p@)) =~= ov.insert(j as int, cv));
        }
        proof {
            let nv = out@.map_values(|p: Vec<String>| strings_view(p@));
            assert forall|x: Seq<Seq<char>>| nv.contains(x) <==> cands.take(i as int + 1).contains(
                x,
            ) by {
                let tk = cands.take(i as int);
                if tk.push(cv).contains(x) && x != cv {
                    let w = choose|w: int| 0 <= w < tk.len() + 1 && tk.push(cv)[w] == x;
                    assert(tk[w] == x);
                }
                if tk.contains(x) {
                    let w = choose|w: int| 0 <= w < tk.len() && tk[w] == x;
                    assert(tk.push(cv)[w] == x);
                }
                assert(tk.push(cv)[tk.len() as int] == cv);
                if !found {
                    let t = ov.insert(j as int, cv);
                    if ov.contains(x) {
                        let w = choose|w: int| 0 <= w < ov.len() && ov[w] == x;
                        if w < j {
                            assert(t[w] == x);
                        } else {
                            assert(t[w + 1] == x);
                        }
                    }
                    if t.contains(x) && x != cv {
                        let w = choose|w: int| 0 <= w < t.len() && t[w] == x;
                        if w < j {
                            assert(ov[w] == x);
                        } else {
                            assert(w != j);
                            assert(ov[w - 1] == x);
                        }
                    }
                    assert(t[j as int] == cv);
                } else {
                    assert(ov[j as int] == cv);
                }
            }
        }
        i = i + 1;
    }
    assert(cands.take(count as int) == cands);
    let mut r: Vec<SplitPath> = Vec::new();
    let mut k: usize = 0;
    while k < out.len()
        invariant
            k <= out@.len(),
            r@.len() == k,
            forall|t: int| 0 <= t < k ==> (#[trigger] r@[t]).anchor@ == exe_path.anchor@,
            forall|t: int| 0 <= t < k ==> strings_view((#[trigger] r@[t]).parts@) == strings_view(
                out@[t]@,
            ),
        decreases out@.len() - k,
    {
        let parts = copy_strings(&out[k], out[k].len());
        assert(strings_view(out@[k as int]@).take(out@[k as int]@.len() as int) == strings_view(
            out@[k as int]@,
        ));
        r.push(SplitPath { anchor: exe_path.anchor.clone(), parts });
        k = k + 1;
    }
    assert(r@.map_values(|p: SplitPath| strings_view(p.parts@)) =~= out@.map_values(
        |p: Vec<String>| strings_view(p@),
    ));
    r
}

// ---------------------------------------------------------------- names

/// `c` lowercases (`char::to_lowercase`) to the ASCII lowercase letter or
/// sign `t`: `t` itself, its ASCII capital, or for `k` the Kelvin sign. (The
/// only other character whose lowercase holds an ASCII letter is `İ`, whose
/// lowercase is `i` with a combining dot; no name sought here holds an `i`.)
pub open spec fn lowers_to(c: char, t: char) -> bool {
    ascii_lower(c) == t || (t == 'k' && c == '\u{212a}')
}

/// `lit` occurs at `p` in `str::to_lowercase(s)`.
pub open spec fn lower_lit_at(s: Seq<char>, p: int, lit: Seq<char>) -> bool {
    &&& 0 <= p
    &&& p + lit.len() <= s.len()
    &&& forall|k: int| 0 <= k < lit.len() ==> lowers_to(#[trigger] s[p + k], lit[k])
}

/// `lit` (lowercase, without `i`) occurs in `str::to_lowercase(s)`.
pub open spec fn lower_contains(s: Seq<char>, lit: Seq<char>) -> bool {
    exists|p: int| #[trigger] lower_lit_at(s, p, lit)
}

/// A process is the game's when its name, lowercased, holds `mechabreak`,
/// `starmechabreak` or `seasungame`, or its executable's path, ASCII
/// lowercased, holds `mechabreak`.
pub open spec fn is_game_process_spec(name: Seq<char>, exe_path: Seq<char>) -> bool {
    ||| lower_contains(name, "mechabreak"@)
    ||| lower_contains(name, "starmechabreak"@)
    ||| lower_contains(name, "seasungame"@)
    ||| contains(ascii_lower_seq(exe_path), "mechabreak"@)
}

fn lowers_to_exec(c: char, t: char) -> (r: bool)
    ensures
        r == lowers_to(c, t),
{
    lower_char(c) == t || (t == 'k' && c == '\u{212a}')
}

fn lower_contains_exec(s: &[char], lit: &str) -> (r: bool)
    ensures
        r == lower_contains(s@, lit@),
{
    let l = chars_of(lit);
    let n = s.len();
    let m = l.len();
    if m > n {
        return false;
    }
    let mut p: usize = 0;
    while p <= n - m
        invariant
            m <= n,
            n == s@.len(),
            m == l@.len(),
            l@ == lit@,
            forall|q: int| 0 <= q < p ==> !#[trigger] lower_lit_at(s@, q, l@),
        decreases n - m + 1 - p,
    {
        let mut k: usize = 0;
        while k < m && lowers_to_exec(s[p + k], l[k])
            invariant
                k <= m,
                p + m <= n,
                n == s@.len(),
                m == l@.len(),
                forall|j: int| 0 <= j < k ==> lowers_to(#[trigger] s@[p + j], l@[j]),
            decreases m - k,
        {
            k = k + 1;
        }
        if k == m {
            assert(lower_lit_at(s@, p as int, l@));
            return true;
        }
        assert(!lowers_to(s@[p + k as int], l@[k as int]));
        assert(!lower_lit_at(s@, p as int, l@));
        p = p + 1;
    }
    proof {
        assert forall|q: int| !#[trigger] lower_lit_at(s@, q, lit@) by {
            if lower_lit_at(s@, q, lit@) {
                assert(q < p);
            }
        }
    }
    false
}

/// Whether a running process is the game, by its name and executable path.
pub fn is_game_process(name: &str, exe_path: &str) -> (r: bool)
    ensures
        r == is_game_process_spec(name@, exe_path@),
{
    let n = chars_of(name);
    let e = chars_of(exe_path);
    let el = lower_chars(e.as_slice());
    lower_contains_exec(n.as_slice(), "mechabreak") || lower_contains_exec(
        n.as_slice(),
        "starmechabreak",
    ) || lower_contains_exec(n.as_slice(), "seasungame") || str_contains(
        el.as_slice(),
        "mechabreak",
    )
}

/// A log file that holds the roster: its name, lowercased, ends in `_up.log`
/// (so `SkillLog.log` and the other special logs are left out).
pub open spec fn is_roster_log_name_spec(name: Seq<char>) -> bool {
    let lit = "_up.log"@;
    &&& name.len() >= lit.len()
    &&& forall|k: int|
        0 <= k < lit.len() ==> lowers_to(#[trigger] name[name.len() - lit.len() + k], lit[k])
}

/// Whether a file with this name holds the roster.
pub fn is_roster_log_name(name: &str) -> (r: bool)
    ensures
        r == is_roster_log_name_spec(name@),
{
    let s = chars_of(name);
    let l = chars_of("_up.log");
    let n = s.len();
    let m = l.len();
    if n < m {
        return false;
    }
    let mut k: usize = 0;
    while k < m
        invariant
            k <= m <= n,
            n == s@.len(),
            m == l@.len(),
            l@ == "_up.log"@,
            s@ == name@,
            forall|j: int| 0 <= j < k ==> lowers_to(#[trigger] s@[n - m + j], l@[j]),
        decreases m - k,
    {
        if !lowers_to_exec(s[n - m + k], l[k]) {
            assert(!lowers_to(name@[name@.len() - "_up.log"@.len() + k], "_up.log"@[k as int]));
            return false;
        }
        k = k + 1;
    }
    true
}

// ---------------------------------------------------------------- newest entry

/// The entry chosen among entries with times `times`, as `Iterator::max_by_key`
/// chooses: one with the greatest time, the last of them where several tie.
pub open spec fn is_latest(times: Seq<i128>, i: int) -> bool {
    &&& 0 <= i < times.len()
    &&& forall|j: int| 0 <= j < times.len() ==> times[j] <= times[i]
    &&& forall|j: int| i < j < times.len() ==> times[j] < times[i]
}

/// The index of the newest entry, or nothing when there is none.
pub fn latest_index(times: &[i128]) -> (r: Option<usize>)
    ensures
        match r {
            Some(i) => is_latest(times@, i as int),
            None => times@.len() == 0,
        },
{
    if times.len() == 0 {
        return None;
    }
    let mut best: usize = 0;
    let mut k: usize = 1;
    while k < times.len()
        invariant
            1 <= k <= times@.len(),
            best < k,
            forall|j: int| 0 <= j < k ==> times@[j] <= times@[best as int],
            forall|j: int| best < j < k ==> times@[j] < times@[best as int],
        decreases times@.len() - k,
    {
        if times[k] >= times[best] {
            best = k;
        }
        k = k + 1;
    }
    Some(best)
}


/// The log directories searched for an executable with components `parts`
/// lie under its own directory, its parent and its grandparent (as far as
/// they exist), and under each of those in exactly the three places
/// `logs/MechaBREAK`, `MechaBreak/logs/MechaBREAK` and
/// `Game/MechaBreak/logs/MechaBREAK`: every such directory is a candidate,
/// and every candidate is one of them.
pub proof fn law_candidates_under_ancestors(parts: Seq<Seq<char>>)
    ensures
        log_candidates(parts).len() == 3 * (if parts.len() < 3 {
            parts.len() as int
        } else {
            3
        }),
        parts.len() >= 1 ==> log_candidates(parts).contains(
            parts.take(parts.len() - 1) + seq!["logs"@, "MechaBREAK"@],
        ),
        forall|k: int|
            0 <= k < 3 && k < parts.len() ==> {
                &&& log_candidates(parts).contains(
                    #[trigger] parts.take(parts.len() - 1 - k) + seq!["logs"@, "MechaBREAK"@],
                )
                &&& log_candidates(parts).contains(
                    parts.take(parts.len() - 1 - k) + seq!["MechaBreak"@, "logs"@, "MechaBREAK"@],
                )
                &&& log_candidates(parts).contains(
                    parts.take(parts.len() - 1 - k) + seq![
                        "Game"@,
                        "MechaBreak"@,
                        "logs"@,
                        "MechaBREAK"@,
                    ],
                )
            },
        forall|c: Seq<Seq<char>>|
            #[trigger] log_candidates(parts).contains(c) ==> exists|a: int|
                0 <= a < parts.len() && parts.len() - 1 - a < 3 && {
                    &&& a <= c.len()
                    &&& #[trigger] c.take(a) == parts.take(a)
                    &&& (c.skip(a) == seq!["logs"@, "MechaBREAK"@] || c.skip(a) == seq![
                        "MechaBreak"@,
                        "logs"@,
                        "MechaBREAK"@,
                    ] || c.skip(a) == seq!["Game"@, "MechaBreak"@, "logs"@, "MechaBREAK"@])
                },
{
    let n = parts.len() as int;
    assert forall|k: int| 0 <= k < 3 && k < n implies {
        &&& log_candidates(parts).contains(
            #[trigger] parts.take(n - 1 - k) + seq!["logs"@, "MechaBREAK"@],
        )
        &&& log_candidates(parts).contains(
            parts.take(n - 1 - k) + seq!["MechaBreak"@, "logs"@, "MechaBREAK"@],
        )
        &&& log_candidates(parts).contains(
            parts.take(n - 1 - k) + seq!["Game"@, "MechaBreak"@, "logs"@, "MechaBREAK"@],
        )
    } by {
        lemma_candidate_entry(parts, k, 0);
        lemma_candidate_entry(parts, k, 1);
        lemma_candidate_entry(parts, k, 2);
    }
    if n >= 1 {
        lemma_candidate_entry(parts, 0, 0);
    }
    assert forall|c: Seq<Seq<char>>| #[trigger] log_candidates(parts).contains(c) implies exists|
        a: int,
    |
        0 <= a < n && n - 1 - a < 3 && {
            &&& a <= c.len()
            &&& #[trigger] c.take(a) == parts.take(a)
            &&& (c.skip(a) == seq!["logs"@, "MechaBREAK"@] || c.skip(a) == seq![
                "MechaBreak"@,
                "logs"@,
                "MechaBREAK"@,
            ] || c.skip(a) == seq!["Game"@, "MechaBreak"@, "logs"@, "MechaBREAK"@])
        } by {
        let i = choose|i: int| 0 <= i < log_candidates(parts).len() && log_candidates(parts)[i] == c;
        lemma_candidate_shape(parts, i);
    }
}

proof fn lemma_candidate_entry(parts: Seq<Seq<char>>, k: int, s: int)
    requires
        0 <= k < 3,
        k < parts.len(),
        0 <= s < 3,
    ensures
        log_candidates(parts).contains(parts.take(parts.len() - 1 - k) + log_suffix(s)),
{
    let i = 3 * k + s;
    assert(i / 3 == k && i % 3 == s);
    assert(0 <= i < log_candidates(parts).len());
    assert(log_candidates(parts)[i] == parts.take(parts.len() - 1 - k) + log_suffix(s));
}

proof fn lemma_candidate_shape(parts: Seq<Seq<char>>, i: int)
    requires
        0 <= i < log_candidates(parts).len(),
    ensures
        ({
            let c = log_candidates(parts)[i];
            let a = parts.len() - 1 - i / 3;
            &&& 0 <= a < parts.len()
            &&& parts.len() - 1 - a < 3
            &&& a <= c.len()
            &&& c.take(a) == parts.take(a)
            &&& (c.skip(a) == seq!["logs"@, "MechaBREAK"@] || c.skip(a) == seq![
                "MechaBreak"@,
                "logs"@,
                "MechaBREAK"@,
            ] || c.skip(a) == seq!["Game"@, "MechaBreak"@, "logs"@, "MechaBREAK"@])
        }),
{
    let c = log_candidates(parts)[i];
    let a = parts.len() - 1 - i / 3;
    assert(0 <= i / 3 < 3);
    assert(0 <= i % 3 < 3);
    assert(c == parts.take(a) + log_suffix(i % 3));
    assert(c.take(a) =~= parts.take(a));
    assert(c.skip(a) =~= log_suffix(i % 3));
}

} // verus!
