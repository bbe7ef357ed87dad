//! Character-level helpers shared by the lexer, the glob expander and the
//! similarity finder: character classes, scanning, trimming and
//! case-insensitive comparison, all specified over `Seq<char>` views.

use vstd::prelude::*;

verus! {

/// Whitespace as the trimming of names and values understands it: the
/// characters of Unicode's White_Space property.
pub open spec fn is_space(c: char) -> bool {
    c == '\t' || c == '\n' || c == '\u{b}' || c == '\u{c}' || c == '\r' || c == ' ' || c
        == '\u{85}' || c == '\u{a0}' || c == '\u{1680}' || ('\u{2000}' <= c && c <= '\u{200a}')
        || c == '\u{2028}' || c == '\u{2029}' || c == '\u{202f}' || c == '\u{205f}' || c
        == '\u{3000}'
}

/// The views of a list of strings.
pub open spec fn strings_view(v: Seq<String>) -> Seq<Seq<char>> {
    v.map_values(|x: String| x@)
}

/// The stopping sets used by the scanners of this crate.
#[derive(Clone, Copy, Debug)]
pub enum CharClass {
    /// A line terminator.
    Newline,
    /// A character that starts a comment.
    Marker,
    /// A character that ends the name or value run of a key/value line.
    PairStop,
    /// A character with a meaning of its own inside a glob pattern.
    GlobSpecial,
    /// A non-whitespace character.
    NonSpace,
}

pub open spec fn class_contains(class: CharClass, c: char) -> bool {
    match class {
        CharClass::Newline => c == '\n',
        CharClass::Marker => c == '#' || c == ';',
        CharClass::PairStop => c == '=' || c == '#' || c == ';',
        CharClass::GlobSpecial => c == '{' || c == '}' || c == '[' || c == ']' || c == ',',
        CharClass::NonSpace => !is_space(c),
    }
}

/// The first position at or after `i` holding a character of `class`, or the
/// end of `s` if there is none.
pub open spec fn spec_scan(s: Seq<char>, i: int, class: CharClass) -> int
    recommends
        0 <= i <= s.len(),
    decreases s.len() - i,
{
    if i < 0 || i >= s.len() {
        s.len() as int
    } else if class_contains(class, s[i]) {
        i
    } else {
        spec_scan(s, i + 1, class)
    }
}

pub proof fn lemma_spec_scan(s: Seq<char>, i: int, class: CharClass)
    requires
        0 <= i <= s.len(),
    ensures
        i <= spec_scan(s, i, class) <= s.len(),
        forall|k: int| i <= k < spec_scan(s, i, class) ==> !class_contains(class, #[trigger] s[k]),
        spec_scan(s, i, class) < s.len() ==> class_contains(class, s[spec_scan(s, i, class)]),
    decreases s.len() - i,
{
    if i < s.len() && !class_contains(class, s[i]) {
        lemma_spec_scan(s, i + 1, class);
    }
}

pub fn class_member(class: CharClass, c: char) -> (r: bool)
    ensures
        r == class_contains(class, c),
{
    match class {
        CharClass::Newline => c == '\n',
        CharClass::Marker => c == '#' || c == ';',
        CharClass::PairStop => c == '=' || c == '#' || c == ';',
        CharClass::GlobSpecial => c == '{' || c == '}' || c == '[' || c == ']' || c == ',',
        CharClass::NonSpace => !(c == '\t' || c == '\n' || c == '\u{b}' || c == '\u{c}' || c
            == '\r' || c == ' ' || c == '\u{85}' || c == '\u{a0}' || c == '\u{1680}' || ('\u{2000}'
            <= c && c <= '\u{200a}') || c == '\u{2028}' || c == '\u{2029}' || c == '\u{202f}' || c
            == '\u{205f}' || c == '\u{3000}'),
    }
}

/// Scans `s` from `from` for the first character of `class`.
pub fn scan(s: &str, from: usize, class: CharClass) -> (r: usize)
    requires
        from <= s@.len(),
    ensures
        r == spec_scan(s@, from as int, class),
        from <= r <= s@.len(),
{
    let n = s.unicode_len();
    let mut j = from;
    loop
        invariant
            from <= j <= n,
            n == s@.len(),
            spec_scan(s@, from as int, class) == spec_scan(s@, j as int, class),
        ensures
            j == spec_scan(s@, from as int, class),
        decreases n - j,
    {
        if j == n {
            break ;
        }
        if class_member(class, s.get_char(j)) {
            break ;
        }
        j = j + 1;
    }
    proof {
        lemma_spec_scan(s@, from as int, class);
    }
    j
}

/// The greatest position below `e` holding `c`, or `-1` if there is none.
pub open spec fn last_pos(s: Seq<char>, c: char, e: int) -> int
    recommends
        e <= s.len(),
    decreases e,
{
    if e <= 0 {
        -1
    } else if s[e - 1] == c {
        e - 1
    } else {
        last_pos(s, c, e - 1)
    }
}

pub proof fn lemma_last_pos(s: Seq<char>, c: char, e: int)
    requires
        0 <= e <= s.len(),
    ensures
        -1 <= last_pos(s, c, e) < e,
        last_pos(s, c, e) >= 0 ==> s[last_pos(s, c, e)] == c,
        forall|k: int| last_pos(s, c, e) < k < e ==> s[k] != c,
    decreases e,
{
    if e > 0 && s[e - 1] != c {
        lemma_last_pos(s, c, e - 1);
    }
}

/// Finds the last occurrence of `c` strictly below `e` in `s`.
pub fn rfind_char(s: &str, c: char, e: usize) -> (r: Option<usize>)
    requires
        e <= s@.len(),
    ensures
        match r {
            Some(p) => p == last_pos(s@, c, e as int),
            None => last_pos(s@, c, e as int) == -1,
        },
{
    let mut k = e;
    loop
        invariant
            0 <= k <= e <= s@.len(),
            last_pos(s@, c, e as int) == last_pos(s@, c, k as int),
        ensures
            k == 0 ==> last_pos(s@, c, e as int) == -1,
            k > 0 ==> s@[k - 1] == c && last_pos(s@, c, e as int) == k - 1,
        decreases k,
    {
        if k == 0 {
            break ;
        }
        if s.get_char(k - 1) == c {
            break ;
        }
        k = k - 1;
    }
    if k == 0 {
        None
    } else {
        Some(k - 1)
    }
}

/// Where the leading whitespace of `s` ends.
pub open spec fn trim_start_idx(s: Seq<char>) -> int {
    spec_scan(s, 0, CharClass::NonSpace)
}

/// Where the trailing whitespace of `s.take(e)` begins.
pub open spec fn trim_end_idx(s: Seq<char>, e: int) -> int
    recommends
        0 <= e <= s.len(),
    decreases e,
{
    if e <= 0 {
        0
    } else if is_space(s[e - 1]) {
        trim_end_idx(s, e - 1)
    } else {
        e
    }
}

/// `s` without leading and trailing whitespace.
pub open spec fn spec_trim(s: Seq<char>) -> Seq<char> {
    let lo = trim_start_idx(s);
    let hi = trim_end_idx(s, s.len() as int);
    if lo <= hi {
        s.subrange(lo, hi)
    } else {
        Seq::empty()
    }
}

/// Trims whitespace from both ends of `s`.
pub fn trim(s: &str) -> (r: String)
    ensures
        r@ == spec_trim(s@),
{
    let n = s.unicode_len();
    let lo = scan(s, 0, CharClass::NonSpace);
    let mut hi = n;
    loop
        invariant
            0 <= hi <= n,
            n == s@.len(),
            trim_end_idx(s@, n as int) == trim_end_idx(s@, hi as int),
        ensures
            hi == trim_end_idx(s@, n as int),
        decreases hi,
    {
        if hi == 0 {
            break ;
        }
        if class_member(CharClass::NonSpace, s.get_char(hi - 1)) {
            break ;
        }
        hi = hi - 1;
    }
    if lo <= hi {
        String::from_str(s.substring_char(lo, hi))
    } else {
        String::new()
    }
}

/// Lexicographic order on names, by character code — the order in which the
/// standard library compares strings.
pub open spec fn str_lt(a: Seq<char>, b: Seq<char>) -> bool
    decreases a.len(),
{
    if b.len() == 0 {
        false
    } else if a.len() == 0 {
        true
    } else if a[0] == b[0] {
        str_lt(a.drop_first(), b.drop_first())
    } else {
        a[0] < b[0]
    }
}

/// Two names are ordered one way or the other, or they are equal.
pub proof fn lemma_str_lt_total(a: Seq<char>, b: Seq<char>)
    ensures
        str_lt(a, b) || str_lt(b, a) || a == b,
    decreases a.len(),
{
    if a.len() == 0 && b.len() == 0 {
        assert(a =~= b);
    } else if a.len() > 0 && b.len() > 0 && a[0] == b[0] {
        lemma_str_lt_total(a.drop_first(), b.drop_first());
        if a.drop_first() == b.drop_first() {
            assert(a =~= seq![a[0]] + a.drop_first());
            assert(b =~= seq![b[0]] + b.drop_first());
            assert(a == b);
        }
    }
}

/// The lexicographic order is transitive.
pub proof fn lemma_str_lt_trans(a: Seq<char>, b: Seq<char>, c: Seq<char>)
    requires
        str_lt(a, b),
        str_lt(b, c),
    ensures
        str_lt(a, c),
    decreases a.len(),
{
    if a.len() > 0 && b.len() > 0 && c.len() > 0 && a[0] == b[0] && b[0] == c[0] {
        lemma_str_lt_trans(a.drop_first(), b.drop_first(), c.drop_first());
    }
}

/// Decides the lexicographic order of two names.
pub fn lt_str(a: &String, b: &String) -> (r: bool)
    ensures
        r == str_lt(a@, b@),
{
    let na = a.as_str().unicode_len();
    let nb = b.as_str().unicode_len();
    let mut k: usize = 0;
    proof {
        assert(a@.skip(0) =~= a@);
        assert(b@.skip(0) =~= b@);
    }
    loop
        invariant
            0 <= k <= na,
            0 <= k <= nb,
            na == a@.len(),
            nb == b@.len(),
            str_lt(a@, b@) == str_lt(a@.skip(k as int), b@.skip(k as int)),
        ensures
            str_lt(a@, b@) == str_lt(a@.skip(k as int), b@.skip(k as int)),
            k <= na && k <= nb,
            k == nb || k == na || a@[k as int] != b@[k as int],
        decreases na - k,
    {
        if k == nb || k == na {
            break ;
        }
        if a.as_str().get_char(k) != b.as_str().get_char(k) {
            break ;
        }
        proof {
            assert(a@.skip(k as int).drop_first() =~= a@.skip(k + 1));
            assert(b@.skip(k as int).drop_first() =~= b@.skip(k + 1));
        }
        k = k + 1;
    }
    if k == nb {
        false
    } else if k == na {
        true
    } else {
        a.as_str().get_char(k) < b.as_str().get_char(k)
    }
}

/// Case-insensitive equality of two characters: equal outright, or equal
/// letters of the basic Latin alphabet differing only in case.
pub open spec fn ci_eq(a: char, b: char) -> bool {
    a == b || (65 <= a as u32 <= 90 && b as u32 == a as u32 + 32) || (65 <= b as u32 <= 90
        && a as u32 == b as u32 + 32)
}

pub open spec fn ci_seq_eq(a: Seq<char>, b: Seq<char>) -> bool {
    a.len() == b.len() && forall|i: int| 0 <= i < a.len() ==> ci_eq(#[trigger] a[i], b[i])
}

/// `y` is a non-empty, case-insensitive, proper trailing part of `x`.
pub open spec fn ci_proper_suffix(y: Seq<char>, x: Seq<char>) -> bool {
    0 < y.len() < x.len() && ci_seq_eq(y, x.subrange(x.len() - y.len(), x.len() as int))
}

fn ci_eq_char(a: char, b: char) -> (r: bool)
    ensures
        r == ci_eq(a, b),
{
    let x = a as u32;
    let y = b as u32;
    a == b || (65 <= x && x <= 90 && y == x + 32) || (65 <= y && y <= 90 && x == y + 32)
}

/// Decides whether `y` is a non-empty case-insensitive proper suffix of `x`.
pub fn is_ci_proper_suffix(y: &str, x: &str) -> (r: bool)
    ensures
        r == ci_proper_suffix(y@, x@),
{
    let ny = y.unicode_len();
    let nx = x.unicode_len();
    if ny == 0 || ny >= nx {
        return false;
    }
    let off = nx - ny;
    let ghost tail = x@.subrange(x@.len() - y@.len(), x@.len() as int);
    let mut k: usize = 0;
    loop
        invariant
            0 <= k <= ny,
            ny == y@.len(),
            nx == x@.len(),
            ny < nx,
            off == nx - ny,
            tail == x@.subrange(x@.len() - y@.len(), x@.len() as int),
            forall|m: int| 0 <= m < k ==> ci_eq(#[trigger] y@[m], tail[m]),
        ensures
            if k == ny {
                ci_seq_eq(y@, tail)
            } else {
                !ci_seq_eq(y@, tail)
            },
        decreases ny - k,
    {
        if k == ny {
            break ;
        }
        if !ci_eq_char(y.get_char(k), x.get_char(off + k)) {
            assert(!ci_eq(y@[k as int], tail[k as int]));
            break ;
        }
        k = k + 1;
    }
    k == ny
}

} // verus!
