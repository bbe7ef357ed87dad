//! Detection of suspiciously similar names: ordered pairs where one name is a
//! case-insensitive, proper trailing part of another, the usual shape of a
//! typo or of a redundant override.

use vstd::prelude::*;

use crate::text::{ci_proper_suffix, is_ci_proper_suffix, strings_view};

verus! {

/// The views of a list of string pairs.
pub open spec fn pairs_view(v: Seq<(String, String)>) -> Seq<(Seq<char>, Seq<char>)> {
    v.map_values(|p: (String, String)| (p.0@, p.1@))
}

/// The pairs `(x, y)` for the candidates `ys` that are suffixes of one name
/// `x`, in candidate order.
pub open spec fn pairs_for(x: Seq<char>, ys: Seq<Seq<char>>) -> Seq<(Seq<char>, Seq<char>)>
    decreases ys.len(),
{
    if ys.len() == 0 {
        Seq::empty()
    } else {
        pairs_for(x, ys.drop_last()) + if ci_proper_suffix(ys.last(), x) {
            seq![(x, ys.last())]
        } else {
            Seq::empty()
        }
    }
}

pub open spec fn suffix_pairs_of(xs: Seq<Seq<char>>, items: Seq<Seq<char>>) -> Seq<
    (Seq<char>, Seq<char>),
>
    decreases xs.len(),
{
    if xs.len() == 0 {
        Seq::empty()
    } else {
        suffix_pairs_of(xs.drop_last(), items) + pairs_for(xs.last(), items)
    }
}

/// All ordered pairs `(longer, shorter)` of names from `items` where
/// `shorter` is a non-empty, case-insensitive, proper trailing part of
/// `longer`; ordered by the longer name first, the shorter second.
pub open spec fn spec_suffix_pairs(items: Seq<Seq<char>>) -> Seq<(Seq<char>, Seq<char>)> {
    suffix_pairs_of(items, items)
}

/// What one name contributes: `(x, y)` stands among its pairs exactly for
/// the candidates `y` that are suffixes of `x`.
proof fn lemma_pairs_for_membership(x: Seq<char>, ys: Seq<Seq<char>>, p: (Seq<char>, Seq<char>))
    ensures
        pairs_for(x, ys).contains(p) <==> (p.0 == x && exists|j: int|
            0 <= j < ys.len() && ys[j] == p.1 && ci_proper_suffix(#[trigger] ys[j], x)),
    decreases ys.len(),
{
    if ys.len() > 0 {
        lemma_pairs_for_membership(x, ys.drop_last(), p);
        let pre = pairs_for(x, ys.drop_last());
        let whole = pairs_for(x, ys);
        assert(forall|t: int| 0 <= t < pre.len() ==> whole[t] == #[trigger] pre[t]);
        if ci_proper_suffix(ys.last(), x) {
            assert(whole.last() == (x, ys.last()));
        }
        if whole.contains(p) {
            let t = choose|t: int| 0 <= t < whole.len() && whole[t] == p;
            if t < pre.len() {
                assert(pre.contains(p));
            } else {
                assert(p == (x, ys.last()) && ci_proper_suffix(ys.last(), x));
                assert(ys[ys.len() - 1] == p.1);
            }
        }
        if p.0 == x && exists|j: int|
            0 <= j < ys.len() && ys[j] == p.1 && ci_proper_suffix(#[trigger] ys[j], x) {
            let j = choose|j: int|
                0 <= j < ys.len() && ys[j] == p.1 && ci_proper_suffix(#[trigger] ys[j], x);
            if j < ys.len() - 1 {
                assert(ys.drop_last()[j] == ys[j]);
                assert(pre.contains(p));
                let t = choose|t: int| 0 <= t < pre.len() && pre[t] == p;
                assert(whole[t] == p);
            } else {
                assert(whole.last() == p);
            }
        }
    }
}

/// Membership in the suffix-pair list: `(x, y)` is reported exactly when
/// both names stand in the list and `y` is a non-empty, case-insensitive,
/// proper trailing part of `x`.
pub proof fn lemma_suffix_pairs_membership(items: Seq<Seq<char>>, p: (Seq<char>, Seq<char>))
    ensures
        spec_suffix_pairs(items).contains(p) <==> (items.contains(p.0) && items.contains(p.1)
            && ci_proper_suffix(p.1, p.0)),
{
    lemma_suffix_pairs_of_membership(items, items, p);
}

proof fn lemma_suffix_pairs_of_membership(
    xs: Seq<Seq<char>>,
    items: Seq<Seq<char>>,
    p: (Seq<char>, Seq<char>),
)
    ensures
        suffix_pairs_of(xs, items).contains(p) <==> (xs.contains(p.0) && items.contains(p.1)
            && ci_proper_suffix(p.1, p.0)),
    decreases xs.len(),
{
    if xs.len() > 0 {
        lemma_pairs_for_membership(xs.last(), items, p);
        lemma_suffix_pairs_of_membership(xs.drop_last(), items, p);
        let pre = suffix_pairs_of(xs.drop_last(), items);
        let own = pairs_for(xs.last(), items);
        let whole = suffix_pairs_of(xs, items);
        assert(forall|t: int| 0 <= t < pre.len() ==> whole[t] == #[trigger] pre[t]);
        assert(forall|t: int| 0 <= t < own.len() ==> whole[pre.len() + t] == #[trigger] own[t]);
        if whole.contains(p) {
            let t = choose|t: int| 0 <= t < whole.len() && whole[t] == p;
            if t < pre.len() {
                assert(pre.contains(p));
                assert(xs.drop_last().contains(p.0));
                let i = choose|i: int| 0 <= i < xs.drop_last().len() && xs.drop_last()[i] == p.0;
                assert(xs[i] == p.0);
            } else {
                assert(own[t - pre.len()] == p);
                assert(own.contains(p));
                assert(xs.contains(p.0)) by {
                    assert(xs[xs.len() - 1] == xs.last());
                }
            }
        }
        if xs.contains(p.0) && items.contains(p.1) && ci_proper_suffix(p.1, p.0) {
            let i = choose|i: int| 0 <= i < xs.len() && xs[i] == p.0;
            let j = choose|j: int| 0 <= j < items.len() && items[j] == p.1;
            if i < xs.len() - 1 {
                assert(xs.drop_last()[i] == p.0);
                assert(pre.contains(p));
                let t = choose|t: int| 0 <= t < pre.len() && pre[t] == p;
                assert(whole[t] == p);
            } else {
                assert(xs.last() == p.0);
                assert(ci_proper_suffix(items[j], p.0));
                assert(own.contains(p));
                let t = choose|t: int| 0 <= t < own.len() && own[t] == p;
                assert(whole[pre.len() + t] == p);
            }
            assert(whole.contains(p));
        }
    }
}

/// Finds all pairs of names where the second is a non-empty, case-insensitive
/// proper suffix of the first.
pub fn find_suffix_pairs(items: &Vec<String>) -> (r: Vec<(String, String)>)
    ensures
        pairs_view(r@) == spec_suffix_pairs(strings_view(items@)),
{
    let ghost iv = strings_view(items@);
    let mut r: Vec<(String, String)> = Vec::new();
    let mut i: usize = 0;
    while i < items.len()
        invariant
            0 <= i <= items.len(),
            iv == strings_view(items@),
            pairs_view(r@) == suffix_pairs_of(iv.take(i as int), iv),
        decreases items.len() - i,
    {
        let mut j: usize = 0;
        while j < items.len()
            invariant
                0 <= i < items.len(),
                0 <= j <= items.len(),
                iv == strings_view(items@),
                pairs_view(r@) == suffix_pairs_of(iv.take(i as int), iv) + pairs_for(
                    iv[i as int],
                    iv.take(j as int),
                ),
            decreases items.len() - j,
        {
            let ghost before = pairs_view(r@);
            if is_ci_proper_suffix(items[j].as_str(), items[i].as_str()) {
                r.push((items[i].clone(), items[j].clone()));
                proof {
                    assert(pairs_view(r@) =~= before.push((iv[i as int], iv[j as int])));
                }
            }
            proof {
                assert(iv.take(j + 1).drop_last() =~= iv.take(j as int));
                assert(pairs_view(r@) =~= suffix_pairs_of(iv.take(i as int), iv) + pairs_for(
                    iv[i as int],
                    iv.take(j + 1),
                ));
            }
            j = j + 1;
        }
        proof {
            assert(iv.take(items@.len() as int) =~= iv);
            assert(iv.take(i + 1).drop_last() =~= iv.take(i as int));
            assert(pairs_view(r@) =~= suffix_pairs_of(iv.take(i + 1), iv));
        }
        i = i + 1;
    }
    proof {
        assert(iv.take(items@.len() as int) =~= iv);
    }
    r
}

} // verus!
