//! Association lists keyed by strings: the shape in which the validator and
//! the comparator aggregate their findings. A map grown from nothing by
//! [`assoc_append`] keeps its keys in ascending order.

use vstd::prelude::*;

use crate::text::{lemma_str_lt_total, lemma_str_lt_trans, str_lt};

verus! {

/// The position of the first entry of `m` with key `key`, or `-1`.
pub open spec fn key_index<X>(m: Seq<(Seq<char>, X)>, key: Seq<char>) -> int
    decreases m.len(),
{
    if m.len() == 0 {
        -1
    } else if m[0].0 == key {
        0
    } else {
        let r = key_index(m.drop_first(), key);
        if r < 0 {
            -1
        } else {
            r + 1
        }
    }
}

pub proof fn lemma_key_index<X>(m: Seq<(Seq<char>, X)>, key: Seq<char>)
    ensures
        -1 <= key_index(m, key) < m.len(),
        key_index(m, key) >= 0 ==> m[key_index(m, key)].0 == key,
        forall|j: int| 0 <= j < key_index(m, key) ==> (#[trigger] m[j]).0 != key,
        key_index(m, key) == -1 ==> forall|j: int| 0 <= j < m.len() ==> (#[trigger] m[j]).0 != key,
    decreases m.len(),
{
    if m.len() > 0 && m[0].0 != key {
        lemma_key_index(m.drop_first(), key);
        assert(forall|j: int| 1 <= j < m.len() ==> #[trigger] m[j] == m.drop_first()[j - 1]);
    }
}

/// The position where `key` belongs in the key-ascending list `m`: the first
/// entry whose key orders after it, or the end.
pub open spec fn sorted_pos<X>(m: Seq<(Seq<char>, X)>, key: Seq<char>) -> int
    decreases m.len(),
{
    if m.len() == 0 {
        0
    } else if str_lt(key, m[0].0) {
        0
    } else {
        1 + sorted_pos(m.drop_first(), key)
    }
}

pub proof fn lemma_sorted_pos<X>(m: Seq<(Seq<char>, X)>, key: Seq<char>)
    ensures
        0 <= sorted_pos(m, key) <= m.len(),
        forall|j: int| 0 <= j < sorted_pos(m, key) ==> !str_lt(key, (#[trigger] m[j]).0),
        sorted_pos(m, key) < m.len() ==> str_lt(key, m[sorted_pos(m, key)].0),
    decreases m.len(),
{
    if m.len() > 0 && !str_lt(key, m[0].0) {
        lemma_sorted_pos(m.drop_first(), key);
        assert(forall|j: int| 1 <= j < m.len() ==> #[trigger] m[j] == m.drop_first()[j - 1]);
    }
}

/// `m` with `data` appended to the entry of `key`; a missing entry is made at
/// the key's ascending position, even for empty `data`, so that a map grown
/// from nothing by this operation stays in ascending key order.
pub open spec fn assoc_append<X>(
    m: Seq<(Seq<char>, Seq<X>)>,
    key: Seq<char>,
    data: Seq<X>,
) -> Seq<(Seq<char>, Seq<X>)> {
    let ki = key_index(m, key);
    if ki < 0 {
        m.insert(sorted_pos(m, key), (key, data))
    } else {
        m.update(ki, (key, m[ki].1 + data))
    }
}

/// Keys stand in strictly ascending order.
pub open spec fn keys_ascending<X>(m: Seq<(Seq<char>, X)>) -> bool {
    forall|i: int, j: int|
        0 <= i < j < m.len() ==> str_lt((#[trigger] m[i]).0, (#[trigger] m[j]).0)
}

/// Appending keeps the keys ascending: a present key is updated in place, a
/// new one enters at its ordered position.
pub proof fn lemma_assoc_append_ascending<X>(
    m: Seq<(Seq<char>, Seq<X>)>,
    key: Seq<char>,
    data: Seq<X>,
)
    requires
        keys_ascending(m),
    ensures
        keys_ascending(assoc_append(m, key, data)),
{
    lemma_key_index(m, key);
    lemma_sorted_pos(m, key);
    let ki = key_index(m, key);
    if ki < 0 {
        let sp = sorted_pos(m, key);
        let r = m.insert(sp, (key, data));
        m.insert_ensures(sp, (key, data));
        assert forall|i: int, j: int| 0 <= i < j < r.len() implies str_lt(
            (#[trigger] r[i]).0,
            (#[trigger] r[j]).0,
        ) by {
            if i < sp && j == sp {
                lemma_str_lt_total(m[i].0, key);
            } else if i == sp && j > sp {
                if j - 1 > sp {
                    lemma_str_lt_trans(key, m[sp].0, m[j - 1].0);
                }
            }
        }
    } else {
        let r = m.update(ki, (key, m[ki].1 + data));
        assert(m[ki].0 == key);
        assert forall|i: int, j: int| 0 <= i < j < r.len() implies str_lt(
            (#[trigger] r[i]).0,
            (#[trigger] r[j]).0,
        ) by {
            assert(r[i].0 == m[i].0);
            assert(r[j].0 == m[j].0);
        }
    }
}

/// Finds the first entry of `m` whose key equals `key`.
pub fn key_find<T>(m: &Vec<(String, T)>, key: &String) -> (r: Option<usize>)
    ensures
        match r {
            Some(i) => i < m@.len() && m@[i as int].0@ == key@ && forall|j: int|
                0 <= j < i ==> (#[trigger] m@[j]).0@ != key@,
            None => forall|j: int| 0 <= j < m@.len() ==> (#[trigger] m@[j]).0@ != key@,
        },
{
    let mut i: usize = 0;
    while i < m.len()
        invariant
            0 <= i <= m@.len(),
            forall|j: int| 0 <= j < i ==> (#[trigger] m@[j]).0@ != key@,
        decreases m@.len() - i,
    {
        if m[i].0.eq(key) {
            return Some(i);
        }
        i = i + 1;
    }
    None
}

} // verus!
