//! Glob expansion of a section title that may carry a directory path:
//! trailing `/` characters are dropped, only the part after the last
//! remaining `/` is expanded, and the directory prefix is put back, verbatim,
//! in front of every expanded pattern.

use vstd::prelude::*;

use crate::glob;
use crate::glob::spec_glob_or_empty;
use crate::text::{last_pos, lemma_last_pos, rfind_char, strings_view};

verus! {

/// Where the trailing `/` characters of `s.take(e)` begin.
pub open spec fn strip_slashes(s: Seq<char>, e: int) -> int
    recommends
        0 <= e <= s.len(),
    decreases e,
{
    if e <= 0 {
        0
    } else if s[e - 1] == '/' {
        strip_slashes(s, e - 1)
    } else {
        e
    }
}

/// The expansion of a title after dropping trailing `/` characters:
/// everything up to and including the last remaining `/` is kept verbatim in
/// front of each expansion of the rest.
pub open spec fn split_expansion(s: Seq<char>) -> Seq<Seq<char>> {
    let p = last_pos(s, '/', s.len() as int);
    if p < 0 {
        spec_glob_or_empty(s)
    } else {
        let dir = s.subrange(0, p + 1);
        spec_glob_or_empty(s.subrange(p + 1, s.len() as int)).map_values(
            |x: Seq<char>| dir + x,
        )
    }
}

pub open spec fn spec_sect(s: Seq<char>) -> Seq<Seq<char>> {
    split_expansion(s.take(strip_slashes(s, s.len() as int)))
}

/// Expands the file-name part of a section title, keeping any directory
/// prefix; a file-name part outside the glob grammar yields the empty list.
pub fn parse(string: &str) -> (r: Vec<String>)
    ensures
        strings_view(r@) == spec_sect(string@),
{
    let n = string.unicode_len();
    let mut e = n;
    loop
        invariant
            0 <= e <= n,
            n == string@.len(),
            strip_slashes(string@, n as int) == strip_slashes(string@, e as int),
        ensures
            e == strip_slashes(string@, n as int),
        decreases e,
    {
        if e == 0 {
            break ;
        }
        if string.get_char(e - 1) != '/' {
            break ;
        }
        e = e - 1;
    }
    let stripped = string.substring_char(0, e);
    assert(stripped@ == string@.take(strip_slashes(string@, string@.len() as int)));
    expand_split(stripped)
}

/// Expands a title already free of trailing slashes.
fn expand_split(string: &str) -> (r: Vec<String>)
    ensures
        strings_view(r@) == split_expansion(string@),
{
    let n = string.unicode_len();
    match rfind_char(string, '/', n) {
        None => glob::parse(string),
        Some(p) => {
            proof {
                lemma_last_pos(string@, '/', n as int);
            }
            let ghost dir = string@.subrange(0, p + 1);
            let file = string.substring_char(p + 1, n);
            let xs = glob::parse(file);
            let ghost xv = strings_view(xs@);
            let mut r: Vec<String> = Vec::new();
            let mut k: usize = 0;
            while k < xs.len()
                invariant
                    0 <= k <= xs.len(),
                    p + 1 <= n == string@.len(),
                    dir == string@.subrange(0, p + 1),
                    xv == strings_view(xs@),
                    strings_view(r@) == xv.take(k as int).map_values(|x: Seq<char>| dir + x),
                decreases xs.len() - k,
            {
                let ghost before = strings_view(r@);
                let mut item = String::from_str(string.substring_char(0, p + 1));
                item.append(xs[k].as_str());
                r.push(item);
                proof {
                    assert(strings_view(r@) =~= before.push(dir + xv[k as int]));
                    assert(xv.take(k + 1).drop_last() =~= xv.take(k as int));
                    assert(xv.take(k + 1).map_values(|x: Seq<char>| dir + x) =~= xv.take(
                        k as int,
                    ).map_values(|x: Seq<char>| dir + x).push(dir + xv[k as int]));
                }
                k = k + 1;
            }
            proof {
                assert(xv.take(xs@.len() as int) =~= xv);
            }
            r
        },
    }
}

} // verus!
