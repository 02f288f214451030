//! Framing of the JSON text that some log lines carry.

use vstd::prelude::*;
use crate::text::{chars_of, find_chars, find_from, string_from_chars, sub_chars};

verus! {

broadcast use vstd::string::group_string_axioms;

/// The ASCII white-space characters (`u8::is_ascii_whitespace` plus vertical tab,
/// the bytes that `char::is_whitespace` accepts).
pub open spec fn is_ascii_ws(c: char) -> bool {
    c == ' ' || ('\t' <= c && c <= '\r')
}

/// The first index at or after `i` whose character is not ASCII white space.
pub open spec fn skip_ascii_ws(s: Seq<char>, i: int) -> int
    decreases s.len() - i,
{
    if 0 <= i < s.len() && is_ascii_ws(s[i]) {
        skip_ascii_ws(s, i + 1)
    } else {
        i
    }
}

/// A character that can begin a JSON value inside an array.
pub open spec fn starts_array_item(c: char) -> bool {
    c == '{' || c == '[' || c == ']' || c == '"' || c == '-' || ('0' <= c && c <= '9')
}

/// Index `i` opens a JSON text: a `{`, or a `[` that is followed (after white
/// space) by the end of the line or a character that can begin an array item,
/// so that `[frame=12]` is not taken for an array.
pub open spec fn opens_json(s: Seq<char>, i: int) -> bool {
    &&& 0 <= i < s.len()
    &&& (s[i] == '{' || s[i] == '[')
    &&& s[i] == '[' ==> {
        let j = skip_ascii_ws(s, i + 1);
        j < s.len() ==> starts_array_item(s[j])
    }
}

/// The first index at or after `from` that opens a JSON text.
pub open spec fn first_open(s: Seq<char>, from: int) -> Option<int>
    decreases s.len() - from,
{
    if from < 0 || from >= s.len() {
        None
    } else if opens_json(s, from) {
        Some(from)
    } else {
        first_open(s, from + 1)
    }
}

/// Where the JSON text starts: first searched after `msg=` (when the line has
/// one), then over the whole line.
pub open spec fn json_start(s: Seq<char>) -> Option<int> {
    let from = match find_from(s, "msg="@, 0) {
        Some(m) => m + "msg="@.len(),
        None => 0,
    };
    match first_open(s, from) {
        Some(i) => Some(i),
        None => if from != 0 {
            first_open(s, 0)
        } else {
            None
        },
    }
}

/// The scan that closes the brackets opened from index `k` on. `stack` holds
/// the open brackets; inside a string literal brackets do not count, and a
/// backslash escapes the next character. Gives the index just past the
/// bracket that empties the stack, or `None` when a closing bracket does not
/// match or the line ends first.
pub open spec fn close_from(s: Seq<char>, k: int, stack: Seq<char>, in_string: bool, escape: bool) -> Option<int>
    decreases s.len() - k,
{
    if k < 0 || k >= s.len() {
        None
    } else {
        let c = s[k];
        if in_string {
            if escape {
                close_from(s, k + 1, stack, true, false)
            } else if c == '\\' {
                close_from(s, k + 1, stack, true, true)
            } else if c == '"' {
                close_from(s, k + 1, stack, false, false)
            } else {
                close_from(s, k + 1, stack, true, false)
            }
        } else if c == '"' {
            close_from(s, k + 1, stack, true, escape)
        } else if c == '{' || c == '[' {
            close_from(s, k + 1, stack.push(c), false, escape)
        } else if c == '}' || c == ']' {
            let open = if c == '}' { '{' } else { '[' };
            if stack.len() == 0 || stack.last() != open {
                None
            } else if stack.len() == 1 {
                Some(k + 1)
            } else {
                close_from(s, k + 1, stack.drop_last(), false, escape)
            }
        } else {
            close_from(s, k + 1, stack, false, escape)
        }
    }
}

/// The JSON text that a log line carries: from where it starts to the
/// bracket that closes it.
pub open spec fn json_text(s: Seq<char>) -> Option<Seq<char>> {
    match json_start(s) {
        Some(st) => match close_from(s, st, Seq::empty(), false, false) {
            Some(e) => Some(s.subrange(st, e)),
            None => None,
        },
        None => None,
    }
}

proof fn lemma_first_open(s: Seq<char>, from: int)
    requires
        0 <= from,
    ensures
        first_open(s, from) matches Some(i) ==> from <= i && opens_json(s, i),
    decreases s.len() - from,
{
    if from < s.len() && !opens_json(s, from) {
        lemma_first_open(s, from + 1);
    }
}

fn opens_json_at(s: &[char], i: usize) -> (r: bool)
    requires
        i < s@.len(),
    ensures
        r == opens_json(s@, i as int),
{
    let c = s[i];
    if c == '{' {
        return true;
    }
    if c != '[' {
        return false;
    }
    let len = s.len();
    let mut j = i + 1;
    while j < len && (s[j] == ' ' || ('\t' <= s[j] && s[j] <= '\r'))
        invariant
            i < j <= len,
            len == s@.len(),
            skip_ascii_ws(s@, j as int) == skip_ascii_ws(s@, i + 1),
        decreases len - j,
    {
        j = j + 1;
    }
    if j < len {
        let n = s[j];
        n == '{' || n == '[' || n == ']' || n == '"' || n == '-' || ('0' <= n && n <= '9')
    } else {
        true
    }
}

fn first_open_at(s: &[char], from: usize) -> (r: Option<usize>)
    ensures
        match r {
            Some(i) => first_open(s@, from as int) == Some(i as int),
            None => first_open(s@, from as int) is None,
        },
{
    let len = s.len();
    let mut i = from;
    while i < len
        invariant
            from <= i,
            len == s@.len(),
            first_open(s@, from as int) == first_open(s@, i as int),
        decreases len - i,
    {
        if opens_json_at(s, i) {
            return Some(i);
        }
        i = i + 1;
    }
    None
}

/// Finds the JSON object or array that a log line carries and returns its
/// text: the first `{` or array-like `[` after `msg=` (or anywhere in the
/// line when there is none after it), up to the bracket that closes it.
pub fn extract_json_object_from_line(line: &str) -> (r: Option<String>)
    ensures
        match r {
            Some(t) => json_text(line@) == Some(t@),
            None => json_text(line@) is None,
        },
        r matches Some(t) ==> t@.len() >= 2 && (t@[0] == '{' || t@[0] == '[') && (t@.last() == '}'
            || t@.last() == ']'),
{
    let s = chars_of(line);
    let s = s.as_slice();
    let len = s.len();
    let msg = chars_of("msg=");
    proof {
        crate::text::lemma_find_from(s@, msg@, 0);
    }
    let from = match find_chars(s, msg.as_slice(), 0) {
        Some(m) => m + msg.len(),
        None => 0,
    };
    let start = match first_open_at(s, from) {
        Some(i) => i,
        None => {
            if from != 0 {
                match first_open_at(s, 0) {
                    Some(i) => i,
                    None => {
                        return None;
                    },
                }
            } else {
                return None;
            }
        },
    };
    proof {
        lemma_first_open(s@, from as int);
        lemma_first_open(s@, 0);
    }
    assert(json_start(s@) == Some(start as int));
    assert(opens_json(s@, start as int));
    let ghost st = start as int;
    let mut stack: Vec<char> = Vec::new();
    let mut in_string = false;
    let mut escape = false;
    let mut k = start;
    while k < len
        invariant
            start <= k <= len,
            len == s@.len(),
            json_start(s@) == Some(st),
            s@ == line@,
            opens_json(s@, st),
            st == start,
            close_from(s@, st, Seq::empty(), false, false) == close_from(
                s@,
                k as int,
                stack@,
                in_string,
                escape,
            ),
        decreases len - k,
    {
        let c = s[k];
        if in_string {
            if escape {
                escape = false;
            } else if c == '\\' {
                escape = true;
            } else if c == '"' {
                in_string = false;
            }
        } else if c == '"' {
            in_string = true;
        } else if c == '{' || c == '[' {
            stack.push(c);
        } else if c == '}' || c == ']' {
            let open = if c == '}' { '{' } else { '[' };
            if stack.len() == 0 || stack[stack.len() - 1] != open {
                return None;
            }
            if stack.len() == 1 {
                assert(s@[start as int] == '{' || s@[start as int] == '[');
                let t = sub_chars(s, start, k + 1);
                return Some(string_from_chars(t.as_slice()));
            }
            stack.pop();
        }
        k = k + 1;
    }
    None
}


proof fn lemma_first_open_at(s: Seq<char>, from: int, j: int)
    requires
        0 <= from <= j,
        opens_json(s, j),
        forall|k: int| from <= k < j ==> !opens_json(s, k),
    ensures
        first_open(s, from) == Some(j),
    decreases j - from,
{
    if from < j {
        lemma_first_open_at(s, from + 1, j);
    }
}

proof fn lemma_first_open_none(s: Seq<char>, from: int)
    requires
        0 <= from,
        forall|k: int| from <= k < s.len() ==> !opens_json(s, k),
    ensures
        first_open(s, from) is None,
    decreases s.len() - from,
{
    if from < s.len() {
        lemma_first_open_none(s, from + 1);
    }
}

proof fn lemma_close_bounds(s: Seq<char>, k: int, stack: Seq<char>, in_string: bool, escape: bool)
    ensures
        close_from(s, k, stack, in_string, escape) matches Some(e) ==> k < e <= s.len(),
    decreases s.len() - k,
{
    if 0 <= k < s.len() {
        let c = s[k];
        if in_string {
            if escape {
                lemma_close_bounds(s, k + 1, stack, true, false);
            } else if c == '\\' {
                lemma_close_bounds(s, k + 1, stack, true, true);
            } else if c == '"' {
                lemma_close_bounds(s, k + 1, stack, false, false);
            } else {
                lemma_close_bounds(s, k + 1, stack, true, false);
            }
        } else if c == '"' {
            lemma_close_bounds(s, k + 1, stack, true, escape);
        } else if c == '{' || c == '[' {
            lemma_close_bounds(s, k + 1, stack.push(c), false, escape);
        } else if c == '}' || c == ']' {
            lemma_close_bounds(s, k + 1, stack.drop_last(), false, escape);
        } else {
            lemma_close_bounds(s, k + 1, stack, false, escape);
        }
    }
}

/// The first `msg=` of `s` is at `m`.
proof fn lemma_first_msg(s: Seq<char>, m: int)
    requires
        0 <= m,
        m + 4 <= s.len(),
        s.subrange(m, m + 4) == "msg="@,
        forall|q: int| 0 <= q < m ==> #[trigger] s.subrange(q, q + 4) != "msg="@,
    ensures
        find_from(s, "msg="@, 0) == Some(m),
{
    crate::text::lemma_find_from(s, "msg="@, 0);
    assert("msg="@.len() == 4) by {
        reveal_strlit("msg=");
    }
    assert(crate::text::lit_at(s, m, "msg="@));
    match find_from(s, "msg="@, 0) {
        Some(p) => {
            if p < m {
                assert(crate::text::lit_at(s, p, "msg="@));
                assert(s.subrange(p, p + 4) == "msg="@);
            }
        },
        None => {},
    }
}

/// Where a line has `msg=` and a JSON opener follows its first occurrence,
/// the JSON text starts at the first such opener: brackets before `msg=`
/// (a `[12:00:01]` time stamp, say) are not taken for it.
pub proof fn law_json_after_msg(s: Seq<char>, m: int, j: int)
    requires
        0 <= m,
        m + 4 <= s.len(),
        s.subrange(m, m + 4) == "msg="@,
        forall|q: int| 0 <= q < m ==> #[trigger] s.subrange(q, q + 4) != "msg="@,
        m + 4 <= j,
        opens_json(s, j),
        forall|k: int| m + 4 <= k < j ==> !opens_json(s, k),
    ensures
        json_start(s) == Some(j),
        json_text(s) matches Some(t) ==> t == s.subrange(j, j + t.len()),
{
    lemma_first_msg(s, m);
    assert("msg="@.len() == 4) by {
        reveal_strlit("msg=");
    }
    lemma_first_open_at(s, m + 4, j);
    lemma_close_bounds(s, j, Seq::empty(), false, false);
}

/// Only when nothing opens after `msg=` (or the line has no `msg=`) is the
/// whole line searched, and then the JSON text starts at its first opener.
pub proof fn law_json_fallback(s: Seq<char>, j: int)
    requires
        forall|q: int, k: int|
            0 <= q && q + 4 <= s.len() && #[trigger] s.subrange(q, q + 4) == "msg="@ && q + 4 <= k
                < s.len() ==> !#[trigger] opens_json(s, k),
        0 <= j,
        opens_json(s, j),
        forall|k: int| 0 <= k < j ==> !opens_json(s, k),
    ensures
        json_start(s) == Some(j),
        json_text(s) matches Some(t) ==> t == s.subrange(j, j + t.len()),
{
    crate::text::lemma_find_from(s, "msg="@, 0);
    assert("msg="@.len() == 4) by {
        reveal_strlit("msg=");
    }
    lemma_first_open_at(s, 0, j);
    lemma_close_bounds(s, j, Seq::empty(), false, false);
    match find_from(s, "msg="@, 0) {
        Some(m) => {
            assert(crate::text::lit_at(s, m, "msg="@));
            assert(s.subrange(m, m + 4) == "msg="@);
            assert forall|k: int| m + 4 <= k < s.len() implies !opens_json(s, k) by {
                assert(s.subrange(m, m + 4) == "msg="@);
            }
            lemma_first_open_none(s, m + 4);
        },
        None => {},
    }
}

/// A line with no JSON opener anywhere carries no JSON text.
pub proof fn law_json_none(s: Seq<char>)
    requires
        forall|k: int| 0 <= k < s.len() ==> !opens_json(s, k),
    ensures
        json_start(s) is None,
        json_text(s) is None,
{
    crate::text::lemma_find_from(s, "msg="@, 0);
    assert("msg="@.len() == 4) by {
        reveal_strlit("msg=");
    }
    lemma_first_open_none(s, 0);
    match find_from(s, "msg="@, 0) {
        Some(m) => {
            assert(crate::text::lit_at(s, m, "msg="@));
            lemma_first_open_none(s, m + 4);
        },
        None => {},
    }
}

} // verus!
