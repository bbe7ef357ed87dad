//! Occurrence filters over lists of names: the first occurrences alone, or
//! the names that occur more than once.

use vstd::prelude::*;

use crate::text::strings_view;

verus! {

/// How often `x` occurs in `items`.
pub open spec fn count_in(items: Seq<Seq<char>>, x: Seq<char>) -> int
    decreases items.len(),
{
    if items.len() == 0 {
        0
    } else {
        count_in(items.drop_last(), x) + if items.last() == x {
            1int
        } else {
            0int
        }
    }
}

/// The first occurrence of every name, in order of first appearance.
pub open spec fn spec_unique(items: Seq<Seq<char>>) -> Seq<Seq<char>>
    decreases items.len(),
{
    if items.len() == 0 {
        Seq::empty()
    } else {
        spec_unique(items.drop_last()) + if count_in(items.drop_last(), items.last()) == 0 {
            seq![items.last()]
        } else {
            Seq::empty()
        }
    }
}

/// Every name that occurs at least twice, once, in order of second
/// appearance.
pub open spec fn spec_only_duplicates(items: Seq<Seq<char>>) -> Seq<Seq<char>>
    decreases items.len(),
{
    if items.len() == 0 {
        Seq::empty()
    } else {
        spec_only_duplicates(items.drop_last()) + if count_in(items.drop_last(), items.last())
            == 1 {
            seq![items.last()]
        } else {
            Seq::empty()
        }
    }
}

/// A name occurs at least once exactly when the list contains it.
proof fn lemma_count_contains(items: Seq<Seq<char>>, x: Seq<char>)
    ensures
        count_in(items, x) >= 1 <==> items.contains(x),
        count_in(items, x) >= 0,
    decreases items.len(),
{
    if items.len() > 0 {
        lemma_count_contains(items.drop_last(), x);
        if items.contains(x) {
            let i = choose|i: int| 0 <= i < items.len() && items[i] == x;
            if i < items.len() - 1 {
                assert(items.drop_last()[i] == x);
            }
        }
        if items.drop_last().contains(x) {
            let i = choose|i: int|
                0 <= i < items.drop_last().len() && items.drop_last()[i] == x;
            assert(items[i] == x);
        }
        assert(items.last() == items[items.len() - 1]);
    }
}

/// What the first-occurrence filter holds: exactly the names of the list,
/// each once.
pub proof fn lemma_unique_membership(items: Seq<Seq<char>>, x: Seq<char>)
    ensures
        spec_unique(items).contains(x) <==> items.contains(x),
        spec_unique(items).no_duplicates(),
    decreases items.len(),
{
    if items.len() > 0 {
        lemma_unique_membership(items.drop_last(), x);
        lemma_unique_membership(items.drop_last(), items.last());
        lemma_count_contains(items.drop_last(), items.last());
        let pre = spec_unique(items.drop_last());
        let whole = spec_unique(items);
        assert(forall|t: int| 0 <= t < pre.len() ==> whole[t] == #[trigger] pre[t]);
        if count_in(items.drop_last(), items.last()) == 0 {
            assert(whole.last() == items.last());
            assert(!pre.contains(items.last()));
            assert(forall|t: int|
                0 <= t < pre.len() ==> #[trigger] pre[t] != items.last()) by {
                if exists|t: int| 0 <= t < pre.len() && #[trigger] pre[t] == items.last() {
                    let t = choose|t: int| 0 <= t < pre.len() && pre[t] == items.last();
                    assert(pre.contains(items.last()));
                }
            }
        }
        if whole.contains(x) {
            let t = choose|t: int| 0 <= t < whole.len() && whole[t] == x;
            if t < pre.len() {
                assert(pre.contains(x));
                lemma_contains_extends(items, x);
            } else {
                assert(x == items.last());
                assert(items[items.len() - 1] == x);
            }
        }
        if items.contains(x) {
            let i = choose|i: int| 0 <= i < items.len() && items[i] == x;
            if i < items.len() - 1 {
                assert(items.drop_last()[i] == x);
                assert(pre.contains(x));
                let t = choose|t: int| 0 <= t < pre.len() && pre[t] == x;
                assert(whole[t] == x);
            } else {
                if count_in(items.drop_last(), x) == 0 {
                    assert(whole.last() == x);
                } else {
                    lemma_count_contains(items.drop_last(), x);
                    let t = choose|t: int| 0 <= t < pre.len() && pre[t] == x;
                    assert(whole[t] == x);
                }
            }
            assert(whole.contains(x));
        }
    }
}

/// Containment carries over from the list without its last entry.
proof fn lemma_contains_extends(items: Seq<Seq<char>>, x: Seq<char>)
    requires
        items.len() > 0,
        items.drop_last().contains(x),
    ensures
        items.contains(x),
{
    let i = choose|i: int| 0 <= i < items.drop_last().len() && items.drop_last()[i] == x;
    assert(items[i] == x);
}

/// What the duplicate filter holds: exactly the names occurring at least
/// twice, each once.
pub proof fn lemma_only_duplicates_membership(items: Seq<Seq<char>>, x: Seq<char>)
    ensures
        spec_only_duplicates(items).contains(x) <==> count_in(items, x) >= 2,
        spec_only_duplicates(items).no_duplicates(),
    decreases items.len(),
{
    if items.len() > 0 {
        lemma_only_duplicates_membership(items.drop_last(), x);
        lemma_only_duplicates_membership(items.drop_last(), items.last());
        lemma_count_contains(items.drop_last(), x);
        let pre = spec_only_duplicates(items.drop_last());
        let whole = spec_only_duplicates(items);
        assert(forall|t: int| 0 <= t < pre.len() ==> whole[t] == #[trigger] pre[t]);
        if count_in(items.drop_last(), items.last()) == 1 {
            assert(whole.last() == items.last());
            assert(!pre.contains(items.last()));
            assert(forall|t: int|
                0 <= t < pre.len() ==> #[trigger] pre[t] != items.last()) by {
                if exists|t: int| 0 <= t < pre.len() && #[trigger] pre[t] == items.last() {
                    let t = choose|t: int| 0 <= t < pre.len() && pre[t] == items.last();
                    assert(pre.contains(items.last()));
                }
            }
        }
        if whole.contains(x) {
            let t = choose|t: int| 0 <= t < whole.len() && whole[t] == x;
            if t < pre.len() {
                assert(pre.contains(x));
            } else {
                assert(x == items.last());
            }
        }
        if count_in(items, x) >= 2 {
            if items.last() == x {
                if count_in(items.drop_last(), x) == 1 {
                    assert(whole.last() == x);
                } else {
                    assert(count_in(items.drop_last(), x) >= 2);
                    let t = choose|t: int| 0 <= t < pre.len() && pre[t] == x;
                    assert(whole[t] == x);
                }
            } else {
                assert(count_in(items.drop_last(), x) >= 2);
                let t = choose|t: int| 0 <= t < pre.len() && pre[t] == x;
                assert(whole[t] == x);
            }
            assert(whole.contains(x));
        }
    }
}

/// Counts how often `x` occurs among the first `upto` entries of `items`.
fn count_prefix(items: &Vec<String>, x: &String, upto: usize) -> (r: usize)
    requires
        upto <= items@.len(),
    ensures
        r == count_in(strings_view(items@).take(upto as int), x@),
{
    let ghost iv = strings_view(items@);
    let mut r: usize = 0;
    let mut k: usize = 0;
    while k < upto
        invariant
            0 <= k <= upto <= items@.len(),
            iv == strings_view(items@),
            r <= k,
            r == count_in(iv.take(k as int), x@),
        decreases upto - k,
    {
        proof {
            assert(iv.take(k + 1).drop_last() =~= iv.take(k as int));
        }
        if items[k].eq(x) {
            r = r + 1;
        }
        k = k + 1;
    }
    r
}

/// Keeps the first occurrence of every name, in order of first appearance.
pub fn unique(items: &Vec<String>) -> (r: Vec<String>)
    ensures
        strings_view(r@) == spec_unique(strings_view(items@)),
{
    let ghost iv = strings_view(items@);
    let mut r: Vec<String> = Vec::new();
    let mut i: usize = 0;
    while i < items.len()
        invariant
            0 <= i <= items.len(),
            iv == strings_view(items@),
            strings_view(r@) == spec_unique(iv.take(i as int)),
        decreases items.len() - i,
    {
        let ghost before = strings_view(r@);
        proof {
            assert(iv.take(i + 1).drop_last() =~= iv.take(i as int));
        }
        if count_prefix(items, &items[i], i) == 0 {
            let item = items[i].clone();
            r.push(item);
            assert(strings_view(r@) =~= before.push(iv[i as int]));
        }
        assert(strings_view(r@) =~= spec_unique(iv.take(i + 1)));
        i = i + 1;
    }
    proof {
        assert(iv.take(items@.len() as int) =~= iv);
    }
    r
}

/// Keeps every name that occurs at least twice, once, at its second
/// appearance.
pub fn only_duplicates(items: &Vec<String>) -> (r: Vec<String>)
    ensures
        strings_view(r@) == spec_only_duplicates(strings_view(items@)),
{
    let ghost iv = strings_view(items@);
    let mut r: Vec<String> = Vec::new();
    let mut i: usize = 0;
    while i < items.len()
        invariant
            0 <= i <= items.len(),
            iv == strings_view(items@),
            strings_view(r@) == spec_only_duplicates(iv.take(i as int)),
        decreases items.len() - i,
    {
        let ghost before = strings_view(r@);
        proof {
            assert(iv.take(i + 1).drop_last() =~= iv.take(i as int));
        }
        if count_prefix(items, &items[i], i) == 1 {
            let item = items[i].clone();
            r.push(item);
            assert(strings_view(r@) =~= before.push(iv[i as int]));
        }
        assert(strings_view(r@) =~= spec_only_duplicates(iv.take(i + 1)));
        i = i + 1;
    }
    proof {
        assert(iv.take(items@.len() as int) =~= iv);
    }
    r
}

} // verus!
