//! Expansion of section-title glob patterns.
//!
//! A pattern is a sequence of literal spans, brace groups `{a,b}` holding
//! comma-separated alternatives (themselves patterns, so groups nest), and
//! bracket groups `[abc]` holding a character class. Expansion concatenates,
//! in order, every combination of the parts: a brace group contributes each
//! alternative's expansion, a bracket group one pattern per character.
//! Whitespace right after a comma inside a brace group is skipped. Any text
//! outside that grammar — unbalanced braces or brackets, an empty pattern or
//! group — expands to the empty list rather than failing the caller.

use vstd::prelude::*;

use crate::text::{class_member, lemma_spec_scan, scan, spec_scan, strings_view, CharClass};

verus! {

/// Every concatenation of one pattern of `xs` with one of `ys`, ordered by
/// `xs` first.
pub open spec fn cross(xs: Seq<Seq<char>>, ys: Seq<Seq<char>>) -> Seq<Seq<char>>
    decreases xs.len(),
{
    if xs.len() == 0 {
        Seq::empty()
    } else {
        cross(xs.drop_last(), ys) + ys.map_values(|y: Seq<char>| xs.last() + y)
    }
}

/// Parses one pattern element at `i`: a literal span, a bracket group or a
/// brace group. Yields the element's expansion and the position after it.
pub open spec fn glob_element(s: Seq<char>, i: int) -> Option<(Seq<Seq<char>>, int)>
    decreases s.len() - i, 0int,
{
    if i < 0 || i >= s.len() {
        None
    } else if s[i] == '[' {
        let j = spec_scan(s, i + 1, CharClass::GlobSpecial);
        if j == i + 1 {
            None
        } else if j < s.len() && s[j] == ']' {
            Some((s.subrange(i + 1, j).map_values(|c: char| seq![c]), j + 1))
        } else {
            None
        }
    } else if s[i] == '{' {
        glob_alts(s, i + 1)
    } else if s[i] == '}' || s[i] == ']' || s[i] == ',' {
        None
    } else {
        let j = spec_scan(s, i, CharClass::GlobSpecial);
        Some((seq![s.subrange(i, j)], j))
    }
}

/// Parses a pattern — one or more elements — at `i`, stopping at the end of
/// the text, at a `,` or at a `}`.
pub open spec fn glob_pattern(s: Seq<char>, i: int) -> Option<(Seq<Seq<char>>, int)>
    decreases s.len() - i, 1int,
{
    match glob_element(s, i) {
        None => None,
        Some((xs, j)) => if j >= s.len() || s[j] == ',' || s[j] == '}' {
            Some((xs, j))
        } else if i < j {
            match glob_pattern(s, j) {
                None => None,
                Some((ys, k)) => Some((cross(xs, ys), k)),
            }
        } else {
            None
        },
    }
}

/// Parses the alternatives of a brace group, `i` standing just after the `{`
/// or after a comma; yields their expansions in order and the position after
/// the closing `}`.
pub open spec fn glob_alts(s: Seq<char>, i: int) -> Option<(Seq<Seq<char>>, int)>
    decreases s.len() - i, 2int,
{
    match glob_pattern(s, i) {
        None => None,
        Some((xs, j)) => if j < s.len() && s[j] == '}' {
            Some((xs, j + 1))
        } else if j < s.len() && s[j] == ',' {
            let k = spec_scan(s, j + 1, CharClass::NonSpace);
            if i < k <= s.len() {
                match glob_alts(s, k) {
                    None => None,
                    Some((ys, m)) => Some((xs + ys, m)),
                }
            } else {
                None
            }
        } else {
            None
        },
    }
}

/// The expansion of a whole pattern, if the text lies in the grammar.
pub open spec fn spec_glob(s: Seq<char>) -> Option<Seq<Seq<char>>> {
    match glob_pattern(s, 0) {
        None => None,
        Some((xs, j)) => if j == s.len() {
            Some(xs)
        } else {
            None
        },
    }
}

/// The expansion of a whole pattern, the empty list where the text lies
/// outside the grammar.
pub open spec fn spec_glob_or_empty(s: Seq<char>) -> Seq<Seq<char>> {
    match spec_glob(s) {
        Some(xs) => xs,
        None => Seq::empty(),
    }
}

/// Concatenates every pattern of `xs` with every pattern of `ys`.
fn exec_cross(xs: &Vec<String>, ys: &Vec<String>) -> (r: Vec<String>)
    ensures
        strings_view(r@) == cross(strings_view(xs@), strings_view(ys@)),
{
    let ghost xv = strings_view(xs@);
    let ghost yv = strings_view(ys@);
    let mut r: Vec<String> = Vec::new();
    let mut a: usize = 0;
    while a < xs.len()
        invariant
            0 <= a <= xs.len(),
            xv == strings_view(xs@),
            yv == strings_view(ys@),
            strings_view(r@) == cross(xv.take(a as int), yv),
        decreases xs.len() - a,
    {
        let mut b: usize = 0;
        while b < ys.len()
            invariant
                0 <= a < xs.len(),
                0 <= b <= ys.len(),
                xv == strings_view(xs@),
                yv == strings_view(ys@),
                strings_view(r@) == cross(xv.take(a as int), yv) + yv.take(b as int).map_values(
                    |y: Seq<char>| xv[a as int] + y,
                ),
            decreases ys.len() - b,
        {
            let ghost before = strings_view(r@);
            let mut item = xs[a].clone();
            item.append(ys[b].as_str());
            r.push(item);
            proof {
                let ghost e = xv[a as int] + yv[b as int];
                assert(item@ == e);
                assert(strings_view(r@) =~= before.push(e));
                assert(yv.take(b + 1).drop_last() =~= yv.take(b as int));
                assert(yv.take(b + 1).map_values(|y: Seq<char>| xv[a as int] + y) =~= yv.take(
                    b as int,
                ).map_values(|y: Seq<char>| xv[a as int] + y).push(e));
                assert(strings_view(r@) =~= cross(xv.take(a as int), yv) + yv.take(b + 1).map_values(
                    |y: Seq<char>| xv[a as int] + y,
                ));
            }
            b = b + 1;
        }
        proof {
            assert(xv.take(a + 1).drop_last() =~= xv.take(a as int));
            assert(yv.take(ys@.len() as int) =~= yv);
            assert(cross(xv.take(a + 1), yv) =~= cross(xv.take(a as int), yv) + yv.map_values(
                |y: Seq<char>| xv[a as int] + y,
            ));
        }
        a = a + 1;
    }
    proof {
        assert(xv.take(xs@.len() as int) =~= xv);
    }
    r
}

/// Parses one pattern element at `i`.
fn exec_element(s: &str, i: usize) -> (r: Option<(Vec<String>, usize)>)
    requires
        i <= s@.len(),
    ensures
        match r {
            Some(p) => glob_element(s@, i as int) == Some((strings_view(p.0@), p.1 as int)) && i
                < p.1 <= s@.len(),
            None => glob_element(s@, i as int) is None,
        },
    decreases s@.len() - i, 0int,
{
    let n = s.unicode_len();
    if i >= n {
        return None;
    }
    let c = s.get_char(i);
    if c == '[' {
        let j = scan(s, i + 1, CharClass::GlobSpecial);
        if j == i + 1 {
            return None;
        }
        if j < n && s.get_char(j) == ']' {
            let mut chars: Vec<String> = Vec::new();
            let mut k = i + 1;
            while k < j
                invariant
                    i + 1 <= k <= j,
                    j < s@.len(),
                    strings_view(chars@) == s@.subrange(i + 1, k as int).map_values(
                        |c: char| seq![c],
                    ),
                decreases j - k,
            {
                let ghost before = strings_view(chars@);
                chars.push(String::from_str(s.substring_char(k, k + 1)));
                proof {
                    assert(s@.subrange(k as int, k + 1) =~= seq![s@[k as int]]);
                    assert(strings_view(chars@) =~= before.push(seq![s@[k as int]]));
                    assert(s@.subrange(i + 1, k + 1).drop_last() =~= s@.subrange(i + 1, k as int));
                    assert(s@.subrange(i + 1, k + 1).map_values(|c: char| seq![c]) =~= s@.subrange(
                        i + 1,
                        k as int,
                    ).map_values(|c: char| seq![c]).push(seq![s@[k as int]]));
                    assert(strings_view(chars@) =~= s@.subrange(i + 1, k + 1).map_values(
                        |c: char| seq![c],
                    ));
                }
                k = k + 1;
            }
            Some((chars, j + 1))
        } else {
            None
        }
    } else if c == '{' {
        exec_alts(s, i + 1)
    } else if c == '}' || c == ']' || c == ',' {
        None
    } else {
        let j = scan(s, i, CharClass::GlobSpecial);
        proof {
            lemma_spec_scan(s@, i + 1, CharClass::GlobSpecial);
        }
        let lit = String::from_str(s.substring_char(i, j));
        let r: Vec<String> = vec![lit];
        assert(strings_view(r@) =~= seq![s@.subrange(i as int, j as int)]);
        Some((r, j))
    }
}

/// Parses a pattern — one or more elements — at `i`.
fn exec_pattern(s: &str, i: usize) -> (r: Option<(Vec<String>, usize)>)
    requires
        i <= s@.len(),
    ensures
        match r {
            Some(p) => glob_pattern(s@, i as int) == Some((strings_view(p.0@), p.1 as int)) && i
                < p.1 <= s@.len(),
            None => glob_pattern(s@, i as int) is None,
        },
    decreases s@.len() - i, 1int,
{
    match exec_element(s, i) {
        None => None,
        Some((xs, j)) => {
            let n = s.unicode_len();
            if j >= n || s.get_char(j) == ',' || s.get_char(j) == '}' {
                Some((xs, j))
            } else {
                match exec_pattern(s, j) {
                    None => None,
                    Some((ys, k)) => {
                        let joined = exec_cross(&xs, &ys);
                        Some((joined, k))
                    },
                }
            }
        },
    }
}

/// Parses the alternatives of a brace group at `i`.
fn exec_alts(s: &str, i: usize) -> (r: Option<(Vec<String>, usize)>)
    requires
        i <= s@.len(),
    ensures
        match r {
            Some(p) => glob_alts(s@, i as int) == Some((strings_view(p.0@), p.1 as int)) && i < p.1
                <= s@.len(),
            None => glob_alts(s@, i as int) is None,
        },
    decreases s@.len() - i, 2int,
{
    match exec_pattern(s, i) {
        None => None,
        Some((mut xs, j)) => {
            let n = s.unicode_len();
            if j < n && s.get_char(j) == '}' {
                Some((xs, j + 1))
            } else if j < n && s.get_char(j) == ',' {
                let k = scan(s, j + 1, CharClass::NonSpace);
                match exec_alts(s, k) {
                    None => None,
                    Some((mut ys, m)) => {
                        let ghost xv = strings_view(xs@);
                        let ghost yv = strings_view(ys@);
                        xs.append(&mut ys);
                        assert(strings_view(xs@) =~= xv + yv);
                        Some((xs, m))
                    },
                }
            } else {
                None
            }
        },
    }
}

/// Expands a section-title pattern into the list of concrete patterns it
/// denotes; a title outside the glob grammar yields the empty list.
pub fn parse(string: &str) -> (r: Vec<String>)
    ensures
        strings_view(r@) == spec_glob_or_empty(string@),
{
    match exec_pattern(string, 0) {
        None => Vec::new(),
        Some((xs, j)) => {
            if j == string.unicode_len() {
                xs
            } else {
                Vec::new()
            }
        },
    }
}

} // verus!
