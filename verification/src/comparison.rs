//! Comparison of two parsed files: per section title, one row per property,
//! pairing the value each file gives it; a value absent from one file is
//! `None`, never an empty string. Same-titled sections within one file are
//! merged first, a later value overwriting an earlier one for the same name.

use vstd::prelude::*;

use crate::assoc::{key_find, key_index, lemma_key_index};
use crate::editorconfig::lexer::{LexError, LexErrorView};
use crate::editorconfig::{parse, sections_view, spec_parse, PropertyView, Section, SectionView};
use crate::similar::pairs_view;
use crate::validation::pair_map_view;
use crate::text::strings_view;

verus! {

/// One row of a section-level diff: a property name with the value each file
/// assigns it, absence as `None`.
#[derive(Debug, Clone, PartialEq, Eq)]
pub struct CompareItem {
    pub key: String,
    pub first_value: Option<String>,
    pub second_value: Option<String>,
}

/// The mathematical model of a [`CompareItem`].
pub struct CompareItemView {
    pub key: Seq<char>,
    pub first_value: Option<Seq<char>>,
    pub second_value: Option<Seq<char>>,
}

impl View for CompareItem {
    type V = CompareItemView;

    open spec fn view(&self) -> CompareItemView {
        CompareItemView {
            key: self.key@,
            first_value: match self.first_value {
                Some(ref v) => Some(v@),
                None => None,
            },
            second_value: match self.second_value {
                Some(ref v) => Some(v@),
                None => None,
            },
        }
    }
}

impl CompareItem {
    /// A row for a property that only the second file holds.
    pub fn only_second(key: &str, second_value: &str) -> (r: CompareItem)
        ensures
            r@.key == key@,
            r@.first_value is None,
            r@.second_value == Some(second_value@),
    {
        CompareItem {
            key: String::from_str(key),
            first_value: None,
            second_value: Some(String::from_str(second_value)),
        }
    }
}

pub open spec fn items_view(v: Seq<CompareItem>) -> Seq<CompareItemView> {
    v.map_values(|c: CompareItem| c@)
}

pub open spec fn rows_view(r: Seq<(String, Vec<CompareItem>)>) -> Seq<
    (Seq<char>, Seq<CompareItemView>),
> {
    r.map_values(|e: (String, Vec<CompareItem>)| (e.0@, items_view(e.1@)))
}

/// `ps` with `name` set to `value`: overwritten in place when present,
/// appended when not.
pub open spec fn props_set(
    ps: Seq<(Seq<char>, Seq<char>)>,
    name: Seq<char>,
    value: Seq<char>,
) -> Seq<(Seq<char>, Seq<char>)> {
    let ki = key_index(ps, name);
    if ki < 0 {
        ps.push((name, value))
    } else {
        ps.update(ki, (name, value))
    }
}

/// `ps` after setting every property in order: the later value wins.
pub open spec fn merge_props(
    ps: Seq<(Seq<char>, Seq<char>)>,
    props: Seq<PropertyView>,
) -> Seq<(Seq<char>, Seq<char>)>
    decreases props.len(),
{
    if props.len() == 0 {
        ps
    } else {
        props_set(merge_props(ps, props.drop_last()), props.last().name, props.last().value)
    }
}

/// The per-title property maps of a section list: same-titled sections merge,
/// in file order, later values overwriting earlier ones.
pub open spec fn section_map(ss: Seq<SectionView>) -> Seq<
    (Seq<char>, Seq<(Seq<char>, Seq<char>)>),
>
    decreases ss.len(),
{
    if ss.len() == 0 {
        Seq::empty()
    } else {
        let pre = section_map(ss.drop_last());
        let title = ss.last().title;
        let ki = key_index(pre, title);
        if ki < 0 {
            pre.push((title, merge_props(Seq::empty(), ss.last().properties)))
        } else {
            pre.update(ki, (title, merge_props(pre[ki].1, ss.last().properties)))
        }
    }
}

/// The value of `name` in `ps`, if any.
pub open spec fn lookup(ps: Seq<(Seq<char>, Seq<char>)>, name: Seq<char>) -> Option<Seq<char>> {
    let ki = key_index(ps, name);
    if ki < 0 {
        None
    } else {
        Some(ps[ki].1)
    }
}

/// One row per property of the first file, paired with the second file's
/// value when it has one.
pub open spec fn items_first(
    ps1: Seq<(Seq<char>, Seq<char>)>,
    ps2: Seq<(Seq<char>, Seq<char>)>,
) -> Seq<CompareItemView> {
    ps1.map_values(
        |p: (Seq<char>, Seq<char>)|
            CompareItemView { key: p.0, first_value: Some(p.1), second_value: lookup(ps2, p.0) },
    )
}

/// The properties of `ps2` that `ps1` does not hold.
pub open spec fn missing_in(
    ps1: Seq<(Seq<char>, Seq<char>)>,
    ps2: Seq<(Seq<char>, Seq<char>)>,
) -> Seq<(Seq<char>, Seq<char>)> {
    ps2.filter(|p: (Seq<char>, Seq<char>)| key_index(ps1, p.0) < 0)
}

/// Rows for properties that only the second file holds.
pub open spec fn only_second_items(ps: Seq<(Seq<char>, Seq<char>)>) -> Seq<CompareItemView> {
    ps.map_values(
        |p: (Seq<char>, Seq<char>)|
            CompareItemView { key: p.0, first_value: None, second_value: Some(p.1) },
    )
}

/// The full diff of one section title: the first file's rows, then rows for
/// properties the first file lacks.
pub open spec fn items_for(
    ps1: Seq<(Seq<char>, Seq<char>)>,
    ps2: Seq<(Seq<char>, Seq<char>)>,
) -> Seq<CompareItemView> {
    items_first(ps1, ps2) + only_second_items(missing_in(ps1, ps2))
}

/// The properties of `title` in the map `m`, empty when `m` lacks the title.
pub open spec fn lookup_props(
    m: Seq<(Seq<char>, Seq<(Seq<char>, Seq<char>)>)>,
    title: Seq<char>,
) -> Seq<(Seq<char>, Seq<char>)> {
    let ki = key_index(m, title);
    if ki < 0 {
        Seq::empty()
    } else {
        m[ki].1
    }
}

/// One row list per title of the first file, in its order.
pub open spec fn first_file_rows(
    m1: Seq<(Seq<char>, Seq<(Seq<char>, Seq<char>)>)>,
    m2: Seq<(Seq<char>, Seq<(Seq<char>, Seq<char>)>)>,
) -> Seq<(Seq<char>, Seq<CompareItemView>)> {
    m1.map_values(
        |e: (Seq<char>, Seq<(Seq<char>, Seq<char>)>)| (e.0, items_for(e.1, lookup_props(m2, e.0))),
    )
}

/// The titles of `m2part` that `m1` lacks entirely.
pub open spec fn extra_titles(
    m1: Seq<(Seq<char>, Seq<(Seq<char>, Seq<char>)>)>,
    m2part: Seq<(Seq<char>, Seq<(Seq<char>, Seq<char>)>)>,
) -> Seq<(Seq<char>, Seq<(Seq<char>, Seq<char>)>)> {
    m2part.filter(|e: (Seq<char>, Seq<(Seq<char>, Seq<char>)>)| key_index(m1, e.0) < 0)
}

/// One row list per title that only the second file has, every value a
/// second-file value.
pub open spec fn second_file_rows(
    m1: Seq<(Seq<char>, Seq<(Seq<char>, Seq<char>)>)>,
    m2part: Seq<(Seq<char>, Seq<(Seq<char>, Seq<char>)>)>,
) -> Seq<(Seq<char>, Seq<CompareItemView>)> {
    extra_titles(m1, m2part).map_values(
        |e: (Seq<char>, Seq<(Seq<char>, Seq<char>)>)| (e.0, only_second_items(e.1)),
    )
}

/// Only the rows with something in them: a title with no properties in
/// either file is never emitted.
pub open spec fn nonempty_rows(
    rows: Seq<(Seq<char>, Seq<CompareItemView>)>,
) -> Seq<(Seq<char>, Seq<CompareItemView>)> {
    rows.filter(|e: (Seq<char>, Seq<CompareItemView>)| e.1.len() > 0)
}

/// The whole diff: the first file's titles in order, then the titles only the
/// second file has, in its order — each title only with at least one row, so
/// a title with no properties in either file never appears.
pub open spec fn spec_compare_maps(
    m1: Seq<(Seq<char>, Seq<(Seq<char>, Seq<char>)>)>,
    m2: Seq<(Seq<char>, Seq<(Seq<char>, Seq<char>)>)>,
) -> Seq<(Seq<char>, Seq<CompareItemView>)> {
    nonempty_rows(first_file_rows(m1, m2)) + nonempty_rows(second_file_rows(m1, m2))
}

/// What comparing two texts yields: the diff, or the located error of the
/// first unlexable line, the first file's error first.
pub open spec fn spec_compare(c1: Seq<char>, c2: Seq<char>) -> Result<
    Seq<(Seq<char>, Seq<CompareItemView>)>,
    LexErrorView,
> {
    match spec_parse(c1) {
        Err(e) => Err(e),
        Ok(ss1) => match spec_parse(c2) {
            Err(e) => Err(e),
            Ok(ss2) => Ok(spec_compare_maps(section_map(ss1), section_map(ss2))),
        },
    }
}

/// Sets `name` to `value` in a property map, overwriting in place.
fn props_set_exec(ps: &mut Vec<(String, String)>, name: &String, value: &String)
    ensures
        pairs_view(final(ps)@) == props_set(pairs_view(old(ps)@), name@, value@),
{
    let ghost pv = pairs_view(ps@);
    proof {
        lemma_key_index(pv, name@);
    }
    match key_find(ps, name) {
        None => {
            proof {
                if key_index(pv, name@) >= 0 {
                    assert(pv[key_index(pv, name@)].0 == name@);
                }
            }
            ps.push((name.clone(), value.clone()));
            assert(pairs_view(ps@) =~= pv.push((name@, value@)));
        },
        Some(i) => {
            proof {
                assert(pv[i as int].0 == name@);
                assert(key_index(pv, name@) == i);
            }
            let entry = &mut ps[i];
            entry.1 = value.clone();
            assert(pairs_view(ps@) =~~= pv.update(i as int, (name@, value@)));
        },
    }
}

/// The merged property map of one section, name by name in file order.
pub fn map_properties(sec: &Section) -> (r: Vec<(String, String)>)
    ensures
        pairs_view(r@) == merge_props(Seq::empty(), sec@.properties),
{
    let mut r: Vec<(String, String)> = Vec::new();
    let mut k: usize = 0;
    while k < sec.properties.len()
        invariant
            0 <= k <= sec.properties@.len(),
            pairs_view(r@) == merge_props(Seq::empty(), sec@.properties.take(k as int)),
        decreases sec.properties@.len() - k,
    {
        proof {
            assert(sec@.properties.take(k + 1).drop_last() =~= sec@.properties.take(k as int));
        }
        props_set_exec(&mut r, &sec.properties[k].name, &sec.properties[k].value);
        k = k + 1;
    }
    proof {
        assert(sec@.properties.take(sec.properties@.len() as int) =~= sec@.properties);
    }
    r
}

/// Merges `props` into the map at position `i`, name by name.
fn merge_into(m: &mut Vec<(String, Vec<(String, String)>)>, i: usize, sec: &Section)
    requires
        i < old(m)@.len(),
    ensures
        pair_map_view(final(m)@) == pair_map_view(old(m)@).update(
            i as int,
            (old(m)@[i as int].0@, merge_props(pairs_view(old(m)@[i as int].1@), sec@.properties)),
        ),
{
    let ghost mv = pair_map_view(m@);
    let ghost title = m@[i as int].0@;
    let ghost base = pairs_view(m@[i as int].1@);
    let mut k: usize = 0;
    while k < sec.properties.len()
        invariant
            0 <= k <= sec.properties@.len(),
            i < m@.len(),
            m@.len() == mv.len(),
            m@[i as int].0@ == title,
            mv == pair_map_view(old(m)@),
            title == old(m)@[i as int].0@,
            base == pairs_view(old(m)@[i as int].1@),
            pair_map_view(m@) == mv.update(
                i as int,
                (title, merge_props(base, sec@.properties.take(k as int))),
            ),
        decreases sec.properties@.len() - k,
    {
        proof {
            assert(sec@.properties.take(k + 1).drop_last() =~= sec@.properties.take(k as int));
            assert(pair_map_view(m@)[i as int] == mv.update(
                i as int,
                (title, merge_props(base, sec@.properties.take(k as int))),
            )[i as int]);
            assert(pair_map_view(m@)[i as int].1 == pairs_view(m@[i as int].1@));
            assert(pairs_view(m@[i as int].1@) == merge_props(
                base,
                sec@.properties.take(k as int),
            ));
        }
        let ghost before = pair_map_view(m@);
        let entry = &mut m[i];
        props_set_exec(&mut entry.1, &sec.properties[k].name, &sec.properties[k].value);
        proof {
            assert(pair_map_view(m@) =~~= before.update(
                i as int,
                (title, merge_props(base, sec@.properties.take(k + 1))),
            ));
            assert(pair_map_view(m@) =~~= mv.update(
                i as int,
                (title, merge_props(base, sec@.properties.take(k + 1))),
            ));
        }
        k = k + 1;
    }
    proof {
        assert(sec@.properties.take(sec.properties@.len() as int) =~= sec@.properties);
    }
}

/// The per-title property maps of a section list: same-titled sections
/// merged in file order, later values overwriting earlier ones.
pub fn map_sections(sections: &Vec<Section>) -> (r: Vec<(String, Vec<(String, String)>)>)
    ensures
        pair_map_view(r@) == section_map(sections_view(sections@)),
{
    let ghost ssv = sections_view(sections@);
    let mut r: Vec<(String, Vec<(String, String)>)> = Vec::new();
    let mut i: usize = 0;
    while i < sections.len()
        invariant
            0 <= i <= sections@.len(),
            ssv == sections_view(sections@),
            pair_map_view(r@) == section_map(ssv.take(i as int)),
        decreases sections@.len() - i,
    {
        proof {
            assert(ssv.take(i + 1).drop_last() =~= ssv.take(i as int));
            assert(ssv.take(i + 1).last() == sections@[i as int]@);
        }
        let ghost pre = pair_map_view(r@);
        let sec = &sections[i];
        let ghost title = sec@.title;
        proof {
            lemma_key_index(pre, title);
        }
        match key_find(&r, &sec.title) {
            None => {
                proof {
                    if key_index(pre, title) >= 0 {
                        assert(pre[key_index(pre, title)].0 == title);
                    }
                }
                r.push((sec.title.clone(), map_properties(sec)));
                assert(pair_map_view(r@) =~= pre.push(
                    (title, merge_props(Seq::empty(), sec@.properties)),
                ));
            },
            Some(ki) => {
                proof {
                    assert(pre[ki as int].0 == title);
                    assert(key_index(pre, title) == ki);
                }
                merge_into(&mut r, ki, sec);
                assert(pair_map_view(r@) =~= pre.update(
                    ki as int,
                    (title, merge_props(pre[ki as int].1, sec@.properties)),
                ));
            },
        }
        i = i + 1;
    }
    proof {
        assert(ssv.take(sections@.len() as int) =~= ssv);
    }
    r
}

/// The value of `name` in `ps`, cloned, if any.
fn lookup_clone(ps: &Vec<(String, String)>, name: &String) -> (r: Option<String>)
    ensures
        match r {
            Some(v) => lookup(pairs_view(ps@), name@) == Some(v@),
            None => lookup(pairs_view(ps@), name@) is None,
        },
{
    let ghost pv = pairs_view(ps@);
    proof {
        lemma_key_index(pv, name@);
    }
    match key_find(ps, name) {
        None => {
            proof {
                if key_index(pv, name@) >= 0 {
                    assert(pv[key_index(pv, name@)].0 == name@);
                }
            }
            None
        },
        Some(i) => {
            proof {
                assert(pv[i as int].0 == name@);
                assert(key_index(pv, name@) == i);
            }
            Some(ps[i].1.clone())
        },
    }
}

/// The diff rows of one section title: the first file's properties in order,
/// then the second file's properties that the first lacks.
fn items_for_exec(ps1: &Vec<(String, String)>, ps2: &Vec<(String, String)>) -> (r: Vec<
    CompareItem,
>)
    ensures
        items_view(r@) == items_for(pairs_view(ps1@), pairs_view(ps2@)),
{
    let ghost p1 = pairs_view(ps1@);
    let ghost p2 = pairs_view(ps2@);
    let mut r: Vec<CompareItem> = Vec::new();
    let mut k: usize = 0;
    while k < ps1.len()
        invariant
            0 <= k <= ps1@.len(),
            p1 == pairs_view(ps1@),
            p2 == pairs_view(ps2@),
            items_view(r@) == items_first(p1.take(k as int), p2),
        decreases ps1@.len() - k,
    {
        let ghost before = items_view(r@);
        let second = lookup_clone(ps2, &ps1[k].0);
        r.push(
            CompareItem {
                key: ps1[k].0.clone(),
                first_value: Some(ps1[k].1.clone()),
                second_value: second,
            },
        );
        proof {
            assert(items_view(r@) =~= before.push(
                CompareItemView {
                    key: p1[k as int].0,
                    first_value: Some(p1[k as int].1),
                    second_value: lookup(p2, p1[k as int].0),
                },
            ));
            assert(items_first(p1.take(k + 1), p2) =~= items_first(p1.take(k as int), p2).push(
                CompareItemView {
                    key: p1[k as int].0,
                    first_value: Some(p1[k as int].1),
                    second_value: lookup(p2, p1[k as int].0),
                },
            ));
        }
        k = k + 1;
    }
    proof {
        assert(p1.take(ps1@.len() as int) =~= p1);
    }
    let mut k: usize = 0;
    while k < ps2.len()
        invariant
            0 <= k <= ps2@.len(),
            p1 == pairs_view(ps1@),
            p2 == pairs_view(ps2@),
            items_view(r@) == items_first(p1, p2) + only_second_items(
                missing_in(p1, p2.take(k as int)),
            ),
        decreases ps2@.len() - k,
    {
        let ghost before = items_view(r@);
        proof {
            lemma_key_index(p1, p2[k as int].0);
            assert(p2.take(k + 1).drop_last() =~= p2.take(k as int));
        }
        match key_find(ps1, &ps2[k].0) {
            Some(i) => {
                proof {
                    assert(p1[i as int].0 == p2[k as int].0);
                    if key_index(p1, p2[k as int].0) < 0 {
                        assert(false);
                    }
                    reveal(Seq::filter);
                    assert(missing_in(p1, p2.take(k + 1)) =~= missing_in(p1, p2.take(k as int)));
                }
            },
            None => {
                proof {
                    if key_index(p1, p2[k as int].0) >= 0 {
                        assert(p1[key_index(p1, p2[k as int].0)].0 == p2[k as int].0);
                    }
                }
                r.push(CompareItem::only_second(ps2[k].0.as_str(), ps2[k].1.as_str()));
                proof {
                    reveal(Seq::filter);
                    assert(items_view(r@) =~= before.push(
                        CompareItemView {
                            key: p2[k as int].0,
                            first_value: None,
                            second_value: Some(p2[k as int].1),
                        },
                    ));
                    assert(missing_in(p1, p2.take(k + 1)) =~= missing_in(
                        p1,
                        p2.take(k as int),
                    ).push(p2[k as int]));
                    assert(only_second_items(missing_in(p1, p2.take(k + 1))) =~= only_second_items(
                        missing_in(p1, p2.take(k as int)),
                    ).push(
                        CompareItemView {
                            key: p2[k as int].0,
                            first_value: None,
                            second_value: Some(p2[k as int].1),
                        },
                    ));
                }
            },
        }
        proof {
            assert(items_view(r@) =~= items_first(p1, p2) + only_second_items(
                missing_in(p1, p2.take(k + 1)),
            ));
        }
        k = k + 1;
    }
    proof {
        assert(p2.take(ps2@.len() as int) =~= p2);
    }
    r
}

/// The rows for the properties of a map that only the second file holds.
fn only_second_exec(ps: &Vec<(String, String)>) -> (r: Vec<CompareItem>)
    ensures
        items_view(r@) == only_second_items(pairs_view(ps@)),
{
    let ghost pv = pairs_view(ps@);
    let mut r: Vec<CompareItem> = Vec::new();
    let mut k: usize = 0;
    while k < ps.len()
        invariant
            0 <= k <= ps@.len(),
            pv == pairs_view(ps@),
            items_view(r@) == only_second_items(pv.take(k as int)),
        decreases ps@.len() - k,
    {
        let ghost before = items_view(r@);
        r.push(CompareItem::only_second(ps[k].0.as_str(), ps[k].1.as_str()));
        proof {
            assert(items_view(r@) =~= before.push(
                CompareItemView {
                    key: pv[k as int].0,
                    first_value: None,
                    second_value: Some(pv[k as int].1),
                },
            ));
            assert(only_second_items(pv.take(k + 1)) =~= only_second_items(pv.take(k as int)).push(
                CompareItemView {
                    key: pv[k as int].0,
                    first_value: None,
                    second_value: Some(pv[k as int].1),
                },
            ));
        }
        k = k + 1;
    }
    proof {
        assert(pv.take(ps@.len() as int) =~= pv);
    }
    r
}

/// Compares two texts: parses both under the strict policy and pairs, per
/// section title and property name, the value each file assigns. A title
/// with no properties in either file is never emitted. The first file's
/// unlexable line is reported before the second's.
pub fn compare(content1: &str, content2: &str) -> (r: Result<
    Vec<(String, Vec<CompareItem>)>,
    LexError,
>)
    ensures
        match r {
            Ok(rows) => spec_compare(content1@, content2@) == Ok::<_, LexErrorView>(
                rows_view(rows@),
            ),
            Err(e) => spec_compare(content1@, content2@) == Err::<
                Seq<(Seq<char>, Seq<CompareItemView>)>,
                _,
            >(e@),
        },
{
    let f1 = match parse(content1) {
        Ok(ss) => ss,
        Err(e) => {
            return Err(e);
        },
    };
    let f2 = match parse(content2) {
        Ok(ss) => ss,
        Err(e) => {
            return Err(e);
        },
    };
    let m1 = map_sections(&f1);
    let m2 = map_sections(&f2);
    let ghost m1v = pair_map_view(m1@);
    let ghost m2v = pair_map_view(m2@);
    let empty: Vec<(String, String)> = Vec::new();
    let mut rows: Vec<(String, Vec<CompareItem>)> = Vec::new();
    let mut k: usize = 0;
    while k < m1.len()
        invariant
            0 <= k <= m1@.len(),
            m1v == pair_map_view(m1@),
            m2v == pair_map_view(m2@),
            pairs_view(empty@) == Seq::<(Seq<char>, Seq<char>)>::empty(),
            rows_view(rows@) == nonempty_rows(first_file_rows(m1v.take(k as int), m2v)),
        decreases m1@.len() - k,
    {
        let ghost before = rows_view(rows@);
        proof {
            lemma_key_index(m2v, m1v[k as int].0);
        }
        let ps2 = match key_find(&m2, &m1[k].0) {
            Some(i) => {
                proof {
                    assert(m2v[i as int].0 == m1v[k as int].0);
                    assert(key_index(m2v, m1v[k as int].0) == i);
                }
                &m2[i].1
            },
            None => {
                proof {
                    if key_index(m2v, m1v[k as int].0) >= 0 {
                        assert(m2v[key_index(m2v, m1v[k as int].0)].0 == m1v[k as int].0);
                    }
                }
                &empty
            },
        };
        assert(pairs_view(ps2@) == lookup_props(m2v, m1v[k as int].0));
        let items = items_for_exec(&m1[k].1, ps2);
        let ghost row = (
            m1v[k as int].0,
            items_for(m1v[k as int].1, lookup_props(m2v, m1v[k as int].0)),
        );
        proof {
            assert(first_file_rows(m1v.take(k + 1), m2v) =~= first_file_rows(
                m1v.take(k as int),
                m2v,
            ).push(row));
            assert(first_file_rows(m1v.take(k + 1), m2v).drop_last() =~= first_file_rows(
                m1v.take(k as int),
                m2v,
            ));
        }
        if !items.is_empty() {
            rows.push((m1[k].0.clone(), items));
            assert(rows_view(rows@) =~= before.push(row));
        }
        proof {
            reveal(Seq::filter);
            assert(rows_view(rows@) =~= nonempty_rows(first_file_rows(m1v.take(k + 1), m2v)));
        }
        k = k + 1;
    }
    proof {
        assert(m1v.take(m1@.len() as int) =~= m1v);
    }
    let mut k: usize = 0;
    while k < m2.len()
        invariant
            0 <= k <= m2@.len(),
            m1v == pair_map_view(m1@),
            m2v == pair_map_view(m2@),
            rows_view(rows@) == nonempty_rows(first_file_rows(m1v, m2v)) + nonempty_rows(
                second_file_rows(m1v, m2v.take(k as int)),
            ),
        decreases m2@.len() - k,
    {
        let ghost before = rows_view(rows@);
        proof {
            lemma_key_index(m1v, m2v[k as int].0);
            assert(m2v.take(k + 1).drop_last() =~= m2v.take(k as int));
        }
        match key_find(&m1, &m2[k].0) {
            Some(i) => {
                proof {
                    assert(m1v[i as int].0 == m2v[k as int].0);
                    if key_index(m1v, m2v[k as int].0) < 0 {
                        assert(false);
                    }
                    reveal(Seq::filter);
                    assert(extra_titles(m1v, m2v.take(k + 1)) =~= extra_titles(
                        m1v,
                        m2v.take(k as int),
                    ));
                }
            },
            None => {
                proof {
                    if key_index(m1v, m2v[k as int].0) >= 0 {
                        assert(m1v[key_index(m1v, m2v[k as int].0)].0 == m2v[k as int].0);
                    }
                }
                let items = only_second_exec(&m2[k].1);
                let ghost row = (m2v[k as int].0, only_second_items(m2v[k as int].1));
                proof {
                    reveal(Seq::filter);
                    assert(extra_titles(m1v, m2v.take(k + 1)) =~= extra_titles(
                        m1v,
                        m2v.take(k as int),
                    ).push(m2v[k as int]));
                    assert(second_file_rows(m1v, m2v.take(k + 1)) =~= second_file_rows(
                        m1v,
                        m2v.take(k as int),
                    ).push(row));
                    assert(second_file_rows(m1v, m2v.take(k + 1)).drop_last()
                        =~= second_file_rows(m1v, m2v.take(k as int)));
                }
                if !items.is_empty() {
                    rows.push((m2[k].0.clone(), items));
                    assert(rows_view(rows@) =~= before.push(row));
                }
            },
        }
        proof {
            reveal(Seq::filter);
            assert(rows_view(rows@) =~= nonempty_rows(first_file_rows(m1v, m2v)) + nonempty_rows(
                second_file_rows(m1v, m2v.take(k + 1)),
            ));
        }
        k = k + 1;
    }
    proof {
        assert(m2v.take(m2@.len() as int) =~= m2v);
    }
    Ok(rows)
}

} // verus!
