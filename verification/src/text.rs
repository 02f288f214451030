//! Character-level helpers on strings, stated over `Seq<char>`.
//!
//! The log lines are handled as sequences of Unicode scalar values. Every
//! helper here has a spec function that says what it computes.

use vstd::prelude::*;

verus! {

broadcast use vstd::string::group_string_axioms;

/// All the characters of `s`, in order.
pub fn chars_of(s: &str) -> (r: Vec<char>)
    ensures
        r@ == s@,
{
    let mut r: Vec<char> = Vec::new();
    for c in it: s.chars()
        invariant
            it.seq() == s@,
            r@ == it.seq().take(it.index() as int),
    {
        r.push(c);
    }
    r
}

/// A `String` holding exactly the characters `cs` (std's `FromIterator<char>`).
#[verifier::external_body]
pub(crate) fn string_from_chars(cs: &[char]) -> (r: String)
    ensures
        r@ == cs@,
{
    cs.iter().collect()
}

/// The Unicode `White_Space` property: the characters that `char::is_whitespace`,
/// `str::trim` and the regular-expression class `\s` accept.
pub open spec fn is_white_space(c: char) -> bool {
    ||| ('\t' <= c && c <= '\r')
    ||| c == ' '
    ||| c == '\u{85}'
    ||| c == '\u{a0}'
    ||| c == '\u{1680}'
    ||| ('\u{2000}' <= c && c <= '\u{200a}')
    ||| c == '\u{2028}'
    ||| c == '\u{2029}'
    ||| c == '\u{202f}'
    ||| c == '\u{205f}'
    ||| c == '\u{3000}'
}

pub fn white_space(c: char) -> (r: bool)
    ensures
        r == is_white_space(c),
{
    ('\t' <= c && c <= '\r') || c == ' ' || c == '\u{85}' || c == '\u{a0}' || c == '\u{1680}'
        || ('\u{2000}' <= c && c <= '\u{200a}') || c == '\u{2028}' || c == '\u{2029}'
        || c == '\u{202f}' || c == '\u{205f}' || c == '\u{3000}'
}

/// The first index at or after `i` whose character is not white space (or the length).
pub open spec fn skip_ws(s: Seq<char>, i: int) -> int
    decreases s.len() - i,
{
    if 0 <= i < s.len() && is_white_space(s[i]) {
        skip_ws(s, i + 1)
    } else {
        i
    }
}

/// The largest `j' <= j` such that `s[j'..j]` is all white space.
pub open spec fn skip_ws_back(s: Seq<char>, j: int) -> int
    decreases j,
{
    if 0 < j <= s.len() && is_white_space(s[j - 1]) {
        skip_ws_back(s, j - 1)
    } else {
        j
    }
}

/// `str::trim`: `s` without its leading and trailing white space.
pub open spec fn trim(s: Seq<char>) -> Seq<char> {
    let a = skip_ws(s, 0);
    let b = skip_ws_back(s, s.len() as int);
    if a < b {
        s.subrange(a, b)
    } else {
        Seq::empty()
    }
}

pub proof fn lemma_skip_ws_bounds(s: Seq<char>, i: int)
    requires
        0 <= i <= s.len(),
    ensures
        i <= skip_ws(s, i) <= s.len(),
        forall|k: int| i <= k < skip_ws(s, i) ==> is_white_space(#[trigger] s[k]),
        skip_ws(s, i) < s.len() ==> !is_white_space(s[skip_ws(s, i)]),
    decreases s.len() - i,
{
    if i < s.len() && is_white_space(s[i]) {
        lemma_skip_ws_bounds(s, i + 1);
    }
}

pub proof fn lemma_skip_ws_back_bounds(s: Seq<char>, j: int)
    requires
        0 <= j <= s.len(),
    ensures
        0 <= skip_ws_back(s, j) <= j,
        forall|k: int| skip_ws_back(s, j) <= k < j ==> is_white_space(#[trigger] s[k]),
        skip_ws_back(s, j) > 0 ==> !is_white_space(s[skip_ws_back(s, j) - 1]),
    decreases j,
{
    if 0 < j && is_white_space(s[j - 1]) {
        lemma_skip_ws_back_bounds(s, j - 1);
    }
}

/// Index of the first non-white-space character at or after `i`.
pub fn skip_ws_at(s: &[char], i: usize) -> (r: usize)
    requires
        i <= s@.len(),
    ensures
        r == skip_ws(s@, i as int),
{
    proof {
        lemma_skip_ws_bounds(s@, i as int);
    }
    let mut k = i;
    while k < s.len() && white_space(s[k])
        invariant
            i <= k <= s@.len(),
            skip_ws(s@, k as int) == skip_ws(s@, i as int),
        decreases s@.len() - k,
    {
        k = k + 1;
    }
    k
}

/// The characters `s[from..to]` as a new vector.
pub fn sub_chars(s: &[char], from: usize, to: usize) -> (r: Vec<char>)
    requires
        from <= to <= s@.len(),
    ensures
        r@ == s@.subrange(from as int, to as int),
{
    let mut r: Vec<char> = Vec::new();
    let mut k = from;
    while k < to
        invariant
            from <= k <= to <= s@.len(),
            r@ == s@.subrange(from as int, k as int),
        decreases to - k,
    {
        r.push(s[k]);
        k = k + 1;
    }
    r
}

/// `str::trim` on a character sequence.
pub fn trim_chars(s: &[char]) -> (r: Vec<char>)
    ensures
        r@ == trim(s@),
{
    let a = skip_ws_at(s, 0);
    proof {
        lemma_skip_ws_back_bounds(s@, s@.len() as int);
    }
    let mut b = s.len();
    while b > 0 && white_space(s[b - 1])
        invariant
            b <= s@.len(),
            skip_ws_back(s@, b as int) == skip_ws_back(s@, s@.len() as int),
        decreases b,
    {
        b = b - 1;
    }
    if a < b {
        sub_chars(s, a, b)
    } else {
        Vec::new()
    }
}

/// `char::to_ascii_lowercase`.
pub open spec fn ascii_lower(c: char) -> char {
    if 'A' <= c && c <= 'Z' {
        ((c as u32) + 32) as char
    } else {
        c
    }
}

/// `str::to_ascii_lowercase`.
pub open spec fn ascii_lower_seq(s: Seq<char>) -> Seq<char> {
    s.map_values(|c: char| ascii_lower(c))
}

pub fn lower_char(c: char) -> (r: char)
    ensures
        r == ascii_lower(c),
{
    if 'A' <= c && c <= 'Z' {
        let v: u32 = c as u32;
        assert(65 <= v <= 90);
        ((v + 32) as u8) as char
    } else {
        c
    }
}

pub fn lower_chars(s: &[char]) -> (r: Vec<char>)
    ensures
        r@ == ascii_lower_seq(s@),
{
    let mut r: Vec<char> = Vec::new();
    let mut k: usize = 0;
    while k < s.len()
        invariant
            k <= s@.len(),
            r@ == ascii_lower_seq(s@.take(k as int)),
        decreases s@.len() - k,
    {
        r.push(lower_char(s[k]));
        assert(s@.take(k as int + 1) == s@.take(k as int).push(s@[k as int]));
        k = k + 1;
    }
    assert(s@.take(s@.len() as int) == s@);
    r
}

/// Equality of two character sequences.
pub fn chars_eq(a: &[char], b: &[char]) -> (r: bool)
    ensures
        r == (a@ == b@),
{
    if a.len() != b.len() {
        return false;
    }
    let mut k: usize = 0;
    while k < a.len()
        invariant
            k <= a@.len() == b@.len(),
            a@.take(k as int) == b@.take(k as int),
        decreases a@.len() - k,
    {
        if a[k] != b[k] {
            assert(a@[k as int] != b@[k as int]);
            return false;
        }
        assert(a@.take(k as int + 1) == a@.take(k as int).push(a@[k as int]));
        assert(b@.take(k as int + 1) == b@.take(k as int).push(b@[k as int]));
        k = k + 1;
    }
    assert(a@.take(a@.len() as int) == a@);
    assert(b@.take(b@.len() as int) == b@);
    true
}

/// `lit` occurs in `s` starting at index `p`.
pub open spec fn lit_at(s: Seq<char>, p: int, lit: Seq<char>) -> bool {
    0 <= p && p + lit.len() <= s.len() && s.subrange(p, p + lit.len()) == lit
}

/// `str::contains` with a string pattern.
pub open spec fn contains(s: Seq<char>, lit: Seq<char>) -> bool {
    exists|p: int| lit_at(s, p, lit)
}

/// The first index at or after `from` where `lit` occurs (`str::find` from `from`).
pub open spec fn find_from(s: Seq<char>, lit: Seq<char>, from: int) -> Option<int>
    decreases s.len() + 1 - from,
{
    if from < 0 || from + lit.len() > s.len() {
        None
    } else if lit_at(s, from, lit) {
        Some(from)
    } else {
        find_from(s, lit, from + 1)
    }
}

pub proof fn lemma_find_from(s: Seq<char>, lit: Seq<char>, from: int)
    requires
        0 <= from,
    ensures
        find_from(s, lit, from) matches Some(p) ==> from <= p && lit_at(s, p, lit) && forall|
            q: int,
        | from <= q < p ==> !lit_at(s, q, lit),
        find_from(s, lit, from) is None ==> forall|q: int| from <= q ==> !lit_at(s, q, lit),
    decreases s.len() + 1 - from,
{
    if lit.len() == 0 && from <= s.len() {
        assert(s.subrange(from, from) =~= lit);
    }
    if from + lit.len() <= s.len() && !lit_at(s, from, lit) {
        lemma_find_from(s, lit, from + 1);
    }
}

/// Does `lit` occur at index `p` of `s`?
pub fn matches_at(s: &[char], p: usize, lit: &[char]) -> (r: bool)
    ensures
        r == lit_at(s@, p as int, lit@),
{
    let n = s.len();
    if p > n || lit.len() > n - p {
        return false;
    }
    let mut k: usize = 0;
    while k < lit.len()
        invariant
            n == s@.len(),
            p + lit@.len() <= s@.len(),
            p <= s@.len() - lit@.len(),
            k <= lit@.len(),
            s@.subrange(p as int, p + k) == lit@.take(k as int),
        decreases lit@.len() - k,
    {
        if s[p + k] != lit[k] {
            assert(s@.subrange(p as int, p + lit@.len())[k as int] != lit@[k as int]);
            return false;
        }
        assert(s@.subrange(p as int, p + k + 1) == s@.subrange(p as int, p + k).push(s@[p + k]));
        assert(lit@.take(k as int + 1) == lit@.take(k as int).push(lit@[k as int]));
        k = k + 1;
    }
    assert(lit@.take(lit@.len() as int) == lit@);
    true
}

/// The first occurrence of `lit` in `s` at or after `from`.
pub fn find_chars(s: &[char], lit: &[char], from: usize) -> (r: Option<usize>)
    ensures
        r matches Some(p) ==> find_from(s@, lit@, from as int) == Some(p as int),
        r is None ==> find_from(s@, lit@, from as int) is None,
{
    if lit.len() > s.len() || from > s.len() - lit.len() {
        return None;
    }
    let mut p = from;
    let last = s.len() - lit.len();
    loop
        invariant
            from <= p <= last,
            last == s@.len() - lit@.len(),
            find_from(s@, lit@, from as int) == find_from(s@, lit@, p as int),
        decreases last - p,
    {
        if matches_at(s, p, lit) {
            return Some(p);
        }
        if p == last {
            assert(find_from(s@, lit@, p as int + 1) is None);
            return None;
        }
        p = p + 1;
    }
}

/// `str::contains` on character sequences.
pub fn contains_chars(s: &[char], lit: &[char]) -> (r: bool)
    ensures
        r == contains(s@, lit@),
{
    proof {
        lemma_find_from(s@, lit@, 0);
    }
    find_chars(s, lit, 0).is_some()
}

/// `s` contains the literal `lit`.
pub fn str_contains(s: &[char], lit: &str) -> (r: bool)
    ensures
        r == contains(s@, lit@),
{
    let l = chars_of(lit);
    contains_chars(s, l.as_slice())
}

pub open spec fn is_ascii_digit(c: char) -> bool {
    '0' <= c && c <= '9'
}

pub open spec fn digit_value(c: char) -> nat {
    ((c as u32) - ('0' as u32)) as nat
}

/// The number written by a sequence of ASCII digits.
pub open spec fn decimal_value(s: Seq<char>) -> nat
    decreases s.len(),
{
    if s.len() == 0 {
        0
    } else {
        decimal_value(s.drop_last()) * 10 + digit_value(s.last())
    }
}

pub open spec fn all_ascii_digits(s: Seq<char>) -> bool {
    forall|i: int| 0 <= i < s.len() ==> is_ascii_digit(#[trigger] s[i])
}

/// `u32::from_str`: an optional `+`, then one or more ASCII digits, whose value fits.
pub open spec fn parse_u32(s: Seq<char>) -> Option<u32> {
    let d = if s.len() > 0 && s[0] == '+' {
        s.drop_first()
    } else {
        s
    };
    if d.len() > 0 && all_ascii_digits(d) && decimal_value(d) <= u32::MAX {
        Some(decimal_value(d) as u32)
    } else {
        None
    }
}

proof fn lemma_decimal_value_grows(s: Seq<char>, i: int, j: int)
    requires
        0 <= i <= j <= s.len(),
        all_ascii_digits(s),
    ensures
        decimal_value(s.take(i)) <= decimal_value(s.take(j)),
    decreases j - i,
{
    if i < j {
        lemma_decimal_value_grows(s, i, j - 1);
        assert(s.take(j).drop_last() == s.take(j - 1));
    }
}

/// `str::parse::<u32>()`.
pub fn parse_u32_chars(s: &[char]) -> (r: Option<u32>)
    ensures
        r == parse_u32(s@),
{
    let start: usize = if s.len() > 0 && s[0] == '+' { 1 } else { 0 };
    let ghost d = if s@.len() > 0 && s@[0] == '+' { s@.drop_first() } else { s@ };
    assert(d == s@.subrange(start as int, s@.len() as int));
    if start == s.len() {
        return None;
    }
    let mut v: u64 = 0;
    let mut k: usize = start;
    while k < s.len()
        invariant
            start <= k <= s@.len(),
            d == s@.subrange(start as int, s@.len() as int),
            d == (if s@.len() > 0 && s@[0] == '+' { s@.drop_first() } else { s@ }),
            all_ascii_digits(d.take(k - start)),
            v == decimal_value(d.take(k - start)),
            v <= u32::MAX,
        decreases s@.len() - k,
    {
        let c = s[k];
        assert(d[k - start] == s@[k as int]);
        if !('0' <= c && c <= '9') {
            assert(!is_ascii_digit(d[k - start]));
            return None;
        }
        let dv: u64 = ((c as u32) - ('0' as u32)) as u64;
        assert(d.take(k - start + 1).drop_last() == d.take(k - start));
        assert(d.take(k - start + 1).last() == c);
        assert(digit_value(c) == dv);
        let nv: u64 = v * 10 + dv;
        if nv > 4294967295 {
            proof {
                assert(all_ascii_digits(d.take(k - start + 1)));
                if all_ascii_digits(d) {
                    lemma_decimal_value_grows(d, k - start + 1, d.len() as int);
                    assert(d.take(d.len() as int) == d);
                }
            }
            return None;
        }
        v = nv;
        k = k + 1;
    }
    assert(d.take(k - start) == d);
    Some(v as u32)
}

/// The decimal digits of `n` (`u64::to_string`).
pub open spec fn decimal(n: nat) -> Seq<char>
    decreases n,
{
    if n < 10 {
        seq![(('0' as u32) + n) as char]
    } else {
        decimal(n / 10).push((('0' as u32) + (n % 10)) as char)
    }
}

/// `u64::to_string` as characters.
pub fn decimal_chars(n: u64) -> (r: Vec<char>)
    ensures
        r@ == decimal(n as nat),
    decreases n,
{
    if n < 10 {
        let mut r: Vec<char> = Vec::new();
        r.push(((('0' as u32) + (n as u32)) as u8) as char);
        r
    } else {
        let mut r = decimal_chars(n / 10);
        r.push(((('0' as u32) + ((n % 10) as u32)) as u8) as char);
        r
    }
}

/// Lexicographic order of character sequences by code point (the order of
/// `String`): -1, 0 or 1.
pub open spec fn chars_order(a: Seq<char>, b: Seq<char>) -> int
    decreases a.len(),
{
    if a.len() == 0 {
        if b.len() == 0 {
            0
        } else {
            -1
        }
    } else if b.len() == 0 {
        1
    } else if a[0] < b[0] {
        -1
    } else if a[0] > b[0] {
        1
    } else {
        chars_order(a.drop_first(), b.drop_first())
    }
}

pub proof fn lemma_chars_order(a: Seq<char>, b: Seq<char>)
    ensures
        -1 <= chars_order(a, b) <= 1,
        chars_order(a, b) == -chars_order(b, a),
        chars_order(a, b) == 0 <==> a == b,
    decreases a.len(),
{
    if a.len() > 0 && b.len() > 0 {
        lemma_chars_order(a.drop_first(), b.drop_first());
        if a[0] == b[0] {
            assert(a[0] == b[0]);
            if a.drop_first() == b.drop_first() {
                assert(a =~= seq![a[0]] + a.drop_first());
                assert(b =~= seq![b[0]] + b.drop_first());
            }
            if a == b {
                assert(a.drop_first() =~= b.drop_first());
            }
        } else {
            assert(a[0] != b[0]);
            assert(a != b);
        }
    } else if a.len() == 0 && b.len() == 0 {
        assert(a =~= b);
    } else {
        assert(a.len() != b.len());
    }
}

pub proof fn lemma_chars_order_trans(a: Seq<char>, b: Seq<char>, c: Seq<char>)
    requires
        chars_order(a, b) <= 0,
        chars_order(b, c) <= 0,
    ensures
        chars_order(a, c) <= 0,
    decreases a.len(),
{
    if a.len() > 0 && b.len() > 0 && c.len() > 0 {
        if a[0] == b[0] && b[0] == c[0] {
            lemma_chars_order_trans(a.drop_first(), b.drop_first(), c.drop_first());
        }
    }
}

/// `chars_order` on character slices.
pub fn compare_chars(a: &[char], b: &[char]) -> (r: i8)
    ensures
        r as int == chars_order(a@, b@),
{
    let mut k: usize = 0;
    assert(a@.skip(0) == a@);
    assert(b@.skip(0) == b@);
    loop
        invariant
            k <= a@.len(),
            k <= b@.len(),
            chars_order(a@, b@) == chars_order(a@.skip(k as int), b@.skip(k as int)),
        decreases a@.len() - k,
    {
        if k == a.len() {
            if k == b.len() {
                return 0;
            }
            return -1;
        }
        if k == b.len() {
            return 1;
        }
        if a[k] < b[k] {
            return -1;
        }
        if a[k] > b[k] {
            return 1;
        }
        assert(a@.skip(k as int).drop_first() == a@.skip(k as int + 1));
        assert(b@.skip(k as int).drop_first() == b@.skip(k as int + 1));
        k = k + 1;
    }
}

} // verus!
