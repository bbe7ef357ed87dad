//! Validation of one parsed file: duplicate section titles, duplicate and
//! suspiciously similar property names within a section, and duplicate or
//! similar properties between different sections whose glob expansions cover
//! the same concrete extension pattern.

use vstd::prelude::*;

use crate::assoc::{
    assoc_append, key_find, key_index, keys_ascending, lemma_assoc_append_ascending,
    lemma_key_index, lemma_sorted_pos, sorted_pos,
};
use crate::editorconfig::lexer::{LexError, LexErrorView};
use crate::editorconfig::{parse, sections_view, spec_parse, PropertyView, Section, SectionView};
use crate::enumerable::{only_duplicates, spec_only_duplicates, spec_unique, unique};
use crate::similar::{find_suffix_pairs, pairs_view, spec_suffix_pairs};
use crate::text::{lt_str, str_lt, strings_view};

verus! {

/// The findings for one concrete extension pattern: property names defined in
/// more than one of the sections that cover the pattern, and similar property
/// names that never share a section.
#[derive(Debug, Clone, PartialEq, Eq)]
pub struct ExtValidationResult {
    pub ext: String,
    pub duplicates: Vec<String>,
    pub similar: Vec<(String, String)>,
}

/// The mathematical model of an [`ExtValidationResult`].
pub struct ExtValidationResultView {
    pub ext: Seq<char>,
    pub duplicates: Seq<Seq<char>>,
    pub similar: Seq<(Seq<char>, Seq<char>)>,
}

impl View for ExtValidationResult {
    type V = ExtValidationResultView;

    open spec fn view(&self) -> ExtValidationResultView {
        ExtValidationResultView {
            ext: self.ext@,
            duplicates: strings_view(self.duplicates@),
            similar: pairs_view(self.similar@),
        }
    }
}

/// The full validation report for one file. The derived state is `Valid` when
/// every collection is empty, `Invalid` when some duplicate was found, and
/// `SomeProblems` when only similarity findings exist.
#[derive(Debug, Clone, PartialEq, Eq)]
pub struct ValidationResult {
    pub path: String,
    pub duplicate_sections: Vec<String>,
    pub duplicate_properties: Vec<(String, Vec<String>)>,
    pub similar_properties: Vec<(String, Vec<(String, String)>)>,
    pub ext_problems: Vec<ExtValidationResult>,
}

/// The mathematical model of a [`ValidationResult`].
pub struct ValidationResultView {
    pub path: Seq<char>,
    pub duplicate_sections: Seq<Seq<char>>,
    pub duplicate_properties: Seq<(Seq<char>, Seq<Seq<char>>)>,
    pub similar_properties: Seq<(Seq<char>, Seq<(Seq<char>, Seq<char>)>)>,
    pub ext_problems: Seq<ExtValidationResultView>,
}

/// The view of a map from section title to duplicate names.
pub open spec fn dup_map_view(m: Seq<(String, Vec<String>)>) -> Seq<(Seq<char>, Seq<Seq<char>>)> {
    m.map_values(|e: (String, Vec<String>)| (e.0@, strings_view(e.1@)))
}

/// The view of a map from a string key to a list of string pairs.
pub open spec fn pair_map_view(m: Seq<(String, Vec<(String, String)>)>) -> Seq<
    (Seq<char>, Seq<(Seq<char>, Seq<char>)>),
> {
    m.map_values(|e: (String, Vec<(String, String)>)| (e.0@, pairs_view(e.1@)))
}

impl View for ValidationResult {
    type V = ValidationResultView;

    open spec fn view(&self) -> ValidationResultView {
        ValidationResultView {
            path: self.path@,
            duplicate_sections: strings_view(self.duplicate_sections@),
            duplicate_properties: dup_map_view(self.duplicate_properties@),
            similar_properties: pair_map_view(self.similar_properties@),
            ext_problems: self.ext_problems@.map_values(|e: ExtValidationResult| e@),
        }
    }
}

/// How a validated file stands.
#[derive(Debug, Clone, Copy, PartialEq, Eq, Structural)]
pub enum ValidationState {
    /// No finding at all.
    Valid,
    /// Some duplicate section, duplicate property or cross-extension
    /// duplicate was found.
    Invalid,
    /// Only similarity findings exist.
    SomeProblems,
}

/// The property names of a section, in order.
pub open spec fn prop_names(sec: SectionView) -> Seq<Seq<char>> {
    sec.properties.map_values(|p: PropertyView| p.name)
}

/// The titles of a section list, in order.
pub open spec fn section_titles(ss: Seq<SectionView>) -> Seq<Seq<char>> {
    ss.map_values(|s: SectionView| s.title)
}

/// The map from section title to the duplicate property names of its
/// sections, keys ascending, findings appended in file order.
pub open spec fn dup_props_of(ss: Seq<SectionView>) -> Seq<(Seq<char>, Seq<Seq<char>>)>
    decreases ss.len(),
{
    if ss.len() == 0 {
        Seq::empty()
    } else {
        let pre = dup_props_of(ss.drop_last());
        let data = spec_only_duplicates(prop_names(ss.last()));
        if data.len() == 0 {
            pre
        } else {
            assoc_append(pre, ss.last().title, data)
        }
    }
}

/// The map from section title to the similar pairs among the unique property
/// names of its sections.
pub open spec fn sim_props_of(ss: Seq<SectionView>) -> Seq<
    (Seq<char>, Seq<(Seq<char>, Seq<char>)>),
>
    decreases ss.len(),
{
    if ss.len() == 0 {
        Seq::empty()
    } else {
        let pre = sim_props_of(ss.drop_last());
        let data = spec_suffix_pairs(spec_unique(prop_names(ss.last())));
        if data.len() == 0 {
            pre
        } else {
            assoc_append(pre, ss.last().title, data)
        }
    }
}

/// A section's properties as `(name, owning title)` pairs.
pub open spec fn sec_pairs(sec: SectionView) -> Seq<(Seq<char>, Seq<char>)> {
    sec.properties.map_values(|p: PropertyView| (p.name, sec.title))
}

/// Appends `pairs` to the bucket of every extension in `exts`, making
/// missing buckets at their ascending position.
pub open spec fn add_exts(
    b: Seq<(Seq<char>, Seq<(Seq<char>, Seq<char>)>)>,
    exts: Seq<Seq<char>>,
    pairs: Seq<(Seq<char>, Seq<char>)>,
) -> Seq<(Seq<char>, Seq<(Seq<char>, Seq<char>)>)>
    decreases exts.len(),
{
    if exts.len() == 0 {
        b
    } else {
        assoc_append(add_exts(b, exts.drop_last(), pairs), exts.last(), pairs)
    }
}

/// The per-extension buckets of a section list, ascending by extension: for
/// every section and every extension pattern it covers, the section's
/// `(name, title)` pairs.
pub open spec fn buckets_of(ss: Seq<SectionView>) -> Seq<
    (Seq<char>, Seq<(Seq<char>, Seq<char>)>),
>
    decreases ss.len(),
{
    if ss.len() == 0 {
        Seq::empty()
    } else {
        add_exts(buckets_of(ss.drop_last()), ss.last().extensions, sec_pairs(ss.last()))
    }
}

/// Within one bucket, the name is owned by more than one section: some
/// occurrence carries a title other than the first occurrence's.
pub open spec fn name_in_many(pairs: Seq<(Seq<char>, Seq<char>)>, n: Seq<char>) -> bool {
    let ki = key_index(pairs, n);
    ki >= 0 && exists|j: int|
        0 <= j < pairs.len() && (#[trigger] pairs[j]).0 == n && pairs[j].1 != pairs[ki].1
}

/// Within one bucket, no section owns both names.
pub open spec fn no_shared_section(
    pairs: Seq<(Seq<char>, Seq<char>)>,
    a: Seq<char>,
    b: Seq<char>,
) -> bool {
    forall|i: int, j: int|
        0 <= i < pairs.len() && 0 <= j < pairs.len() && (#[trigger] pairs[i]).0 == a && (
        #[trigger] pairs[j]).0 == b ==> pairs[i].1 != pairs[j].1
}

/// The names of a bucket's pairs, in order.
pub open spec fn bucket_names(pairs: Seq<(Seq<char>, Seq<char>)>) -> Seq<Seq<char>> {
    pairs.map_values(|p: (Seq<char>, Seq<char>)| p.0)
}

/// Of `uniq`, the names that more than one section owns in the bucket.
pub open spec fn dup_findings(
    pairs: Seq<(Seq<char>, Seq<char>)>,
    uniq: Seq<Seq<char>>,
) -> Seq<Seq<char>> {
    uniq.filter(|n: Seq<char>| name_in_many(pairs, n))
}

/// Of the suffix pairs `sims`, those whose two names never share a section.
pub open spec fn sim_findings(
    pairs: Seq<(Seq<char>, Seq<char>)>,
    sims: Seq<(Seq<char>, Seq<char>)>,
) -> Seq<(Seq<char>, Seq<char>)> {
    sims.filter(|pr: (Seq<char>, Seq<char>)| no_shared_section(pairs, pr.0, pr.1))
}

/// The findings for one extension bucket: names owned by several sections,
/// and similar name pairs that never share a section.
pub open spec fn spec_validate_extension(
    ext: Seq<char>,
    pairs: Seq<(Seq<char>, Seq<char>)>,
) -> ExtValidationResultView {
    let uniq = spec_unique(bucket_names(pairs));
    ExtValidationResultView {
        ext,
        duplicates: dup_findings(pairs, uniq),
        similar: sim_findings(pairs, spec_suffix_pairs(uniq)),
    }
}

pub open spec fn has_findings(e: ExtValidationResultView) -> bool {
    e.duplicates.len() > 0 || e.similar.len() > 0
}

/// Every bucket's findings, in bucket order.
pub open spec fn validated_buckets(
    b: Seq<(Seq<char>, Seq<(Seq<char>, Seq<char>)>)>,
) -> Seq<ExtValidationResultView> {
    b.map_values(
        |kv: (Seq<char>, Seq<(Seq<char>, Seq<char>)>)| spec_validate_extension(kv.0, kv.1),
    )
}

/// Only the findings with something to report.
pub open spec fn findings_filter(s: Seq<ExtValidationResultView>) -> Seq<ExtValidationResultView> {
    s.filter(|e: ExtValidationResultView| has_findings(e))
}

/// The extension findings of a section list: one entry per bucket with at
/// least one finding, ascending by extension.
pub open spec fn ext_problems_of(ss: Seq<SectionView>) -> Seq<ExtValidationResultView> {
    findings_filter(validated_buckets(buckets_of(ss)))
}

/// Adding a section's pairs keeps the buckets ascending.
proof fn lemma_add_exts_ascending(
    b: Seq<(Seq<char>, Seq<(Seq<char>, Seq<char>)>)>,
    exts: Seq<Seq<char>>,
    pairs: Seq<(Seq<char>, Seq<char>)>,
)
    requires
        keys_ascending(b),
    ensures
        keys_ascending(add_exts(b, exts, pairs)),
    decreases exts.len(),
{
    if exts.len() > 0 {
        lemma_add_exts_ascending(b, exts.drop_last(), pairs);
        lemma_assoc_append_ascending(add_exts(b, exts.drop_last(), pairs), exts.last(), pairs);
    }
}

/// The buckets of any section list come ascending by extension.
proof fn lemma_buckets_ascending(ss: Seq<SectionView>)
    ensures
        keys_ascending(buckets_of(ss)),
    decreases ss.len(),
{
    if ss.len() > 0 {
        lemma_buckets_ascending(ss.drop_last());
        lemma_add_exts_ascending(
            buckets_of(ss.drop_last()),
            ss.last().extensions,
            sec_pairs(ss.last()),
        );
    }
}

/// Every finding kept by the filter stays below an upper bound that every
/// finding of the unfiltered list observes.
proof fn lemma_findings_filter_bound(s: Seq<ExtValidationResultView>, x: Seq<char>)
    requires
        forall|t: int| 0 <= t < s.len() ==> str_lt((#[trigger] s[t]).ext, x),
    ensures
        forall|t: int|
            0 <= t < findings_filter(s).len() ==> str_lt(
                (#[trigger] findings_filter(s)[t]).ext,
                x,
            ),
    decreases s.len(),
{
    reveal(Seq::filter);
    if s.len() > 0 {
        assert(forall|t: int|
            0 <= t < s.drop_last().len() ==> str_lt((#[trigger] s.drop_last()[t]).ext, x));
        lemma_findings_filter_bound(s.drop_last(), x);
        let f = findings_filter(s);
        let fd = findings_filter(s.drop_last());
        if has_findings(s.last()) {
            assert(f =~= fd.push(s.last()));
            assert(s.last() == s[s.len() - 1]);
        }
    }
}

/// Filtering keeps the findings ascending by extension.
proof fn lemma_findings_filter_ascending(s: Seq<ExtValidationResultView>)
    requires
        forall|i: int, j: int|
            0 <= i < j < s.len() ==> str_lt((#[trigger] s[i]).ext, (#[trigger] s[j]).ext),
    ensures
        forall|i: int, j: int|
            0 <= i < j < findings_filter(s).len() ==> str_lt(
                (#[trigger] findings_filter(s)[i]).ext,
                (#[trigger] findings_filter(s)[j]).ext,
            ),
    decreases s.len(),
{
    reveal(Seq::filter);
    if s.len() > 0 {
        assert(forall|i: int, j: int|
            0 <= i < j < s.drop_last().len() ==> str_lt(
                (#[trigger] s.drop_last()[i]).ext,
                (#[trigger] s.drop_last()[j]).ext,
            ));
        lemma_findings_filter_ascending(s.drop_last());
        let f = findings_filter(s);
        let fd = findings_filter(s.drop_last());
        if has_findings(s.last()) {
            assert(f =~= fd.push(s.last()));
            assert(s.last() == s[s.len() - 1]);
            assert(forall|t: int|
                0 <= t < s.drop_last().len() ==> str_lt(
                    (#[trigger] s.drop_last()[t]).ext,
                    s.last().ext,
                ));
            lemma_findings_filter_bound(s.drop_last(), s.last().ext);
            assert forall|i: int, j: int| 0 <= i < j < f.len() implies str_lt(
                (#[trigger] f[i]).ext,
                (#[trigger] f[j]).ext,
            ) by {
                if j < fd.len() {
                    assert(f[i] == fd[i] && f[j] == fd[j]);
                } else {
                    assert(f[j] == s.last());
                    assert(f[i] == fd[i]);
                }
            }
        }
    }
}

/// Order of the extension findings: the report's extension strings strictly
/// ascend, so each extension appears at most once, in ascending order.
pub proof fn lemma_ext_problems_ascending(ss: Seq<SectionView>, i: int, j: int)
    requires
        0 <= i < j < ext_problems_of(ss).len(),
    ensures
        str_lt(ext_problems_of(ss)[i].ext, ext_problems_of(ss)[j].ext),
{
    lemma_buckets_ascending(ss);
    let b = buckets_of(ss);
    let vb = validated_buckets(b);
    assert(forall|t: int| 0 <= t < vb.len() ==> (#[trigger] vb[t]).ext == b[t].0);
    assert(forall|x: int, y: int|
        0 <= x < y < vb.len() ==> str_lt((#[trigger] vb[x]).ext, (#[trigger] vb[y]).ext));
    lemma_findings_filter_ascending(vb);
}

/// The whole validation report of a parsed section list.
pub open spec fn spec_validation(ss: Seq<SectionView>, path: Seq<char>) -> ValidationResultView {
    ValidationResultView {
        path,
        duplicate_sections: spec_only_duplicates(section_titles(ss)),
        duplicate_properties: dup_props_of(ss),
        similar_properties: sim_props_of(ss),
        ext_problems: ext_problems_of(ss),
    }
}

/// What validating a text yields: the report, or the located error of the
/// first unlexable line.
pub open spec fn spec_validate(content: Seq<char>, path: Seq<char>) -> Result<
    ValidationResultView,
    LexErrorView,
> {
    match spec_parse(content) {
        Ok(ss) => Ok(spec_validation(ss, path)),
        Err(e) => Err(e),
    }
}

impl ValidationResultView {
    /// No finding at all.
    pub open spec fn spec_is_ok(self) -> bool {
        self.duplicate_properties.len() == 0 && self.duplicate_sections.len() == 0
            && self.similar_properties.len() == 0 && self.ext_problems.len() == 0
    }

    /// Some duplicate finding exists.
    pub open spec fn spec_is_invalid(self) -> bool {
        self.duplicate_properties.len() > 0 || self.duplicate_sections.len() > 0 || exists|i: int|
            0 <= i < self.ext_problems.len() && (#[trigger] self.ext_problems[i]).duplicates.len()
                > 0
    }

    /// The state the report derives to; never stored.
    pub open spec fn spec_state(self) -> ValidationState {
        if self.spec_is_ok() {
            ValidationState::Valid
        } else if self.spec_is_invalid() {
            ValidationState::Invalid
        } else {
            ValidationState::SomeProblems
        }
    }
}

impl ValidationResult {
    /// Whether the report holds no finding at all.
    pub fn is_ok(&self) -> (r: bool)
        ensures
            r == self@.spec_is_ok(),
    {
        self.duplicate_properties.is_empty() && self.duplicate_sections.is_empty()
            && self.similar_properties.is_empty() && self.ext_problems.is_empty()
    }

    /// Whether some duplicate finding exists: a duplicate property, a
    /// duplicate section, or a cross-extension duplicate.
    pub fn is_invalid(&self) -> (r: bool)
        ensures
            r == self@.spec_is_invalid(),
    {
        assert(self@.duplicate_properties.len() == self.duplicate_properties@.len());
        assert(self@.duplicate_sections.len() == self.duplicate_sections@.len());
        if !self.duplicate_properties.is_empty() || !self.duplicate_sections.is_empty() {
            return true;
        }
        let mut i: usize = 0;
        while i < self.ext_problems.len()
            invariant
                0 <= i <= self.ext_problems@.len(),
                forall|j: int|
                    0 <= j < i ==> (#[trigger] self@.ext_problems[j]).duplicates.len() == 0,
        decreases self.ext_problems@.len() - i,
        {
            if !self.ext_problems[i].duplicates.is_empty() {
                assert(self@.ext_problems[i as int].duplicates.len() > 0);
                return true;
            }
            assert(self@.ext_problems[i as int].duplicates.len() == 0);
            i = i + 1;
        }
        false
    }

    /// The state of the report: `Valid` with no finding, `Invalid` with any
    /// duplicate finding, `SomeProblems` with similarity findings alone.
    pub fn state(&self) -> (r: ValidationState)
        ensures
            r == self@.spec_state(),
    {
        if self.is_ok() {
            ValidationState::Valid
        } else if self.is_invalid() {
            ValidationState::Invalid
        } else {
            ValidationState::SomeProblems
        }
    }
}

impl ValidationState {
    /// Whether the state reports a file free of findings.
    pub fn is_ok(&self) -> (r: bool)
        ensures
            r == (*self == ValidationState::Valid),
    {
        match self {
            ValidationState::Valid => true,
            _ => false,
        }
    }
}

/// Appends `data` to the entry of `key` in a title-to-names map, making the
/// entry when it is missing.
fn dup_map_append(m: &mut Vec<(String, Vec<String>)>, key: &String, data: Vec<String>)
    ensures
        dup_map_view(final(m)@) == assoc_append(dup_map_view(old(m)@), key@, strings_view(data@)),
{
    let ghost mv = dup_map_view(m@);
    let ghost dv = strings_view(data@);
    proof {
        lemma_key_index(mv, key@);
        lemma_sorted_pos(mv, key@);
    }
    match key_find(m, key) {
        None => {
            proof {
                if key_index(mv, key@) >= 0 {
                    assert(mv[key_index(mv, key@)].0 == key@);
                    assert(mv[key_index(mv, key@)].0 == m@[key_index(mv, key@)].0@);
                }
            }
            let mut pos: usize = 0;
            loop
                invariant
                    0 <= pos <= m@.len(),
                    mv == dup_map_view(m@),
                    forall|j: int| 0 <= j < pos ==> !str_lt(key@, (#[trigger] mv[j]).0),
                ensures
                    pos <= m@.len(),
                    forall|j: int| 0 <= j < pos ==> !str_lt(key@, (#[trigger] mv[j]).0),
                    pos < m@.len() ==> str_lt(key@, mv[pos as int].0),
                decreases m@.len() - pos,
            {
                if pos == m.len() {
                    break ;
                }
                if lt_str(key, &m[pos].0) {
                    break ;
                }
                pos = pos + 1;
            }
            assert(pos == sorted_pos(mv, key@));
            let ghost before = m@;
            m.insert(pos, (key.clone(), data));
            proof {
                before.insert_ensures(pos as int, m@[pos as int]);
                mv.insert_ensures(pos as int, (key@, dv));
                assert(dup_map_view(m@) =~~= mv.insert(pos as int, (key@, dv)));
            }
        },
        Some(i) => {
            proof {
                assert(mv[i as int].0 == key@);
                assert(forall|j: int| 0 <= j < i ==> (#[trigger] mv[j]).0 != key@);
                assert(key_index(mv, key@) == i);
            }
            let ghost old_entry = mv[i as int];
            let mut data = data;
            let entry = &mut m[i];
            entry.1.append(&mut data);
            assert(strings_view(m@[i as int].1@) =~= old_entry.1 + dv);
            assert(dup_map_view(m@) =~~= mv.update(i as int, (key@, old_entry.1 + dv)));
        },
    }
}

/// Appends `data` to the entry of `key` in a key-to-pairs map, making the
/// entry when it is missing.
fn pair_map_append(
    m: &mut Vec<(String, Vec<(String, String)>)>,
    key: &String,
    data: Vec<(String, String)>,
)
    ensures
        pair_map_view(final(m)@) == assoc_append(pair_map_view(old(m)@), key@, pairs_view(data@)),
{
    let ghost mv = pair_map_view(m@);
    let ghost dv = pairs_view(data@);
    proof {
        lemma_key_index(mv, key@);
        lemma_sorted_pos(mv, key@);
    }
    match key_find(m, key) {
        None => {
            proof {
                if key_index(mv, key@) >= 0 {
                    assert(mv[key_index(mv, key@)].0 == key@);
                    assert(mv[key_index(mv, key@)].0 == m@[key_index(mv, key@)].0@);
                }
            }
            let mut pos: usize = 0;
            loop
                invariant
                    0 <= pos <= m@.len(),
                    mv == pair_map_view(m@),
                    forall|j: int| 0 <= j < pos ==> !str_lt(key@, (#[trigger] mv[j]).0),
                ensures
                    pos <= m@.len(),
                    forall|j: int| 0 <= j < pos ==> !str_lt(key@, (#[trigger] mv[j]).0),
                    pos < m@.len() ==> str_lt(key@, mv[pos as int].0),
                decreases m@.len() - pos,
            {
                if pos == m.len() {
                    break ;
                }
                if lt_str(key, &m[pos].0) {
                    break ;
                }
                pos = pos + 1;
            }
            assert(pos == sorted_pos(mv, key@));
            let ghost before = m@;
            m.insert(pos, (key.clone(), data));
            proof {
                before.insert_ensures(pos as int, m@[pos as int]);
                mv.insert_ensures(pos as int, (key@, dv));
                assert(pair_map_view(m@) =~~= mv.insert(pos as int, (key@, dv)));
            }
        },
        Some(i) => {
            proof {
                assert(mv[i as int].0 == key@);
                assert(forall|j: int| 0 <= j < i ==> (#[trigger] mv[j]).0 != key@);
                assert(key_index(mv, key@) == i);
            }
            let ghost old_entry = mv[i as int];
            let mut data = data;
            let entry = &mut m[i];
            entry.1.append(&mut data);
            assert(pairs_view(m@[i as int].1@) =~= old_entry.1 + dv);
            assert(pair_map_view(m@) =~~= mv.update(i as int, (key@, old_entry.1 + dv)));
        },
    }
}

/// The property names of a section, cloned in order.
fn section_names(sec: &Section) -> (r: Vec<String>)
    ensures
        strings_view(r@) == prop_names(sec@),
{
    let mut r: Vec<String> = Vec::new();
    let mut k: usize = 0;
    while k < sec.properties.len()
        invariant
            0 <= k <= sec.properties@.len(),
            strings_view(r@) == prop_names(sec@).take(k as int),
        decreases sec.properties@.len() - k,
    {
        let ghost before = strings_view(r@);
        r.push(sec.properties[k].name.clone());
        proof {
            assert(strings_view(r@) =~= before.push(sec@.properties[k as int].name));
            assert(prop_names(sec@).take(k + 1) =~= prop_names(sec@).take(k as int).push(
                sec@.properties[k as int].name,
            ));
        }
        k = k + 1;
    }
    proof {
        assert(prop_names(sec@).take(sec.properties@.len() as int) =~= prop_names(sec@));
    }
    r
}

/// The properties of a section as `(name, title)` pairs, cloned in order.
fn section_pairs(sec: &Section) -> (r: Vec<(String, String)>)
    ensures
        pairs_view(r@) == sec_pairs(sec@),
{
    let mut r: Vec<(String, String)> = Vec::new();
    let mut k: usize = 0;
    while k < sec.properties.len()
        invariant
            0 <= k <= sec.properties@.len(),
            pairs_view(r@) == sec_pairs(sec@).take(k as int),
        decreases sec.properties@.len() - k,
    {
        let ghost before = pairs_view(r@);
        r.push((sec.properties[k].name.clone(), sec.title.clone()));
        proof {
            assert(pairs_view(r@) =~= before.push((sec@.properties[k as int].name, sec@.title)));
            assert(sec_pairs(sec@).take(k + 1) =~= sec_pairs(sec@).take(k as int).push(
                (sec@.properties[k as int].name, sec@.title),
            ));
        }
        k = k + 1;
    }
    proof {
        assert(sec_pairs(sec@).take(sec.properties@.len() as int) =~= sec_pairs(sec@));
    }
    r
}

fn clone_pairs(v: &Vec<(String, String)>) -> (r: Vec<(String, String)>)
    ensures
        pairs_view(r@) == pairs_view(v@),
{
    let mut r: Vec<(String, String)> = Vec::new();
    let mut k: usize = 0;
    while k < v.len()
        invariant
            0 <= k <= v@.len(),
            pairs_view(r@) == pairs_view(v@).take(k as int),
        decreases v@.len() - k,
    {
        let ghost before = pairs_view(r@);
        r.push((v[k].0.clone(), v[k].1.clone()));
        proof {
            assert(pairs_view(r@) =~= before.push(pairs_view(v@)[k as int]));
            assert(pairs_view(v@).take(k + 1) =~= pairs_view(v@).take(k as int).push(
                pairs_view(v@)[k as int],
            ));
        }
        k = k + 1;
    }
    proof {
        assert(pairs_view(v@).take(v@.len() as int) =~= pairs_view(v@));
    }
    r
}

/// Decides whether, within one bucket, more than one section owns `n`.
fn name_owned_by_many(pairs: &Vec<(String, String)>, n: &String) -> (r: bool)
    ensures
        r == name_in_many(pairs_view(pairs@), n@),
{
    let ghost pv = pairs_view(pairs@);
    proof {
        lemma_key_index(pv, n@);
    }
    let mut fi: usize = 0;
    loop
        invariant
            0 <= fi <= pairs@.len(),
            pv == pairs_view(pairs@),
            forall|j: int| 0 <= j < fi ==> (#[trigger] pv[j]).0 != n@,
        ensures
            fi <= pairs@.len(),
            forall|j: int| 0 <= j < fi ==> (#[trigger] pv[j]).0 != n@,
            fi < pairs@.len() ==> pv[fi as int].0 == n@,
        decreases pairs@.len() - fi,
    {
        if fi == pairs.len() {
            break ;
        }
        if pairs[fi].0.eq(n) {
            break ;
        }
        fi = fi + 1;
    }
    if fi == pairs.len() {
        proof {
            if key_index(pv, n@) >= 0 {
                assert(pv[key_index(pv, n@)].0 == n@);
            }
        }
        return false;
    }
    proof {
        assert(key_index(pv, n@) == fi);
    }
    let mut j: usize = 0;
    while j < pairs.len()
        invariant
            0 <= j <= pairs@.len(),
            0 <= fi < pairs@.len(),
            pv == pairs_view(pairs@),
            pv[fi as int].0 == n@,
            fi == key_index(pv, n@),
            forall|t: int|
                0 <= t < j ==> !((#[trigger] pv[t]).0 == n@ && pv[t].1 != pv[fi as int].1),
        decreases pairs@.len() - j,
    {
        if pairs[j].0.eq(n) && !pairs[j].1.eq(&pairs[fi].1) {
            assert(pv[j as int].0 == n@ && pv[j as int].1 != pv[fi as int].1);
            return true;
        }
        j = j + 1;
    }
    false
}

/// Decides whether no section of the bucket owns both `a` and `b`.
fn sections_disjoint(pairs: &Vec<(String, String)>, a: &String, b: &String) -> (r: bool)
    ensures
        r == no_shared_section(pairs_view(pairs@), a@, b@),
{
    let ghost pv = pairs_view(pairs@);
    let mut i: usize = 0;
    while i < pairs.len()
        invariant
            0 <= i <= pairs@.len(),
            pv == pairs_view(pairs@),
            forall|x: int, y: int|
                0 <= x < i && 0 <= y < pairs@.len() && (#[trigger] pv[x]).0 == a@ && (
                #[trigger] pv[y]).0 == b@ ==> pv[x].1 != pv[y].1,
        decreases pairs@.len() - i,
    {
        if pairs[i].0.eq(a) {
            let mut j: usize = 0;
            while j < pairs.len()
                invariant
                    0 <= j <= pairs@.len(),
                    0 <= i < pairs@.len(),
                    pv == pairs_view(pairs@),
                    pv[i as int].0 == a@,
                    forall|x: int, y: int|
                        0 <= x < i && 0 <= y < pairs@.len() && (#[trigger] pv[x]).0 == a@ && (
                        #[trigger] pv[y]).0 == b@ ==> pv[x].1 != pv[y].1,
                    forall|y: int|
                        0 <= y < j && (#[trigger] pv[y]).0 == b@ ==> pv[i as int].1 != pv[y].1,
                decreases pairs@.len() - j,
            {
                if pairs[j].0.eq(b) && pairs[j].1.eq(&pairs[i].1) {
                    let ghost jj = j as int;
                    assert(pv[i as int].0 == a@ && pv[jj].0 == b@ && pv[i as int].1 == pv[jj].1);
                    return false;
                }
                j = j + 1;
            }
        }
        i = i + 1;
    }
    true
}

/// Computes the findings for one extension bucket: the property names owned
/// by more than one of its sections, and the suffix-similar pairs among its
/// unique names whose two names never share a section.
pub fn validate_extension(ext: String, pairs: &Vec<(String, String)>) -> (r: ExtValidationResult)
    ensures
        r@ == spec_validate_extension(ext@, pairs_view(pairs@)),
{
    let ghost pv = pairs_view(pairs@);
    let mut names: Vec<String> = Vec::new();
    let mut k: usize = 0;
    while k < pairs.len()
        invariant
            0 <= k <= pairs@.len(),
            pv == pairs_view(pairs@),
            strings_view(names@) == bucket_names(pv).take(k as int),
        decreases pairs@.len() - k,
    {
        let ghost before = strings_view(names@);
        names.push(pairs[k].0.clone());
        proof {
            assert(strings_view(names@) =~= before.push(pv[k as int].0));
            assert(bucket_names(pv).take(k + 1) =~= bucket_names(pv).take(k as int).push(
                pv[k as int].0,
            ));
        }
        k = k + 1;
    }
    proof {
        assert(bucket_names(pv).take(pairs@.len() as int) =~= bucket_names(pv));
    }
    let uniq = unique(&names);
    let ghost uv = spec_unique(bucket_names(pv));
    let mut dups: Vec<String> = Vec::new();
    let mut k: usize = 0;
    while k < uniq.len()
        invariant
            0 <= k <= uniq@.len(),
            pv == pairs_view(pairs@),
            uv == strings_view(uniq@),
            strings_view(dups@) == dup_findings(pv, uv.take(k as int)),
        decreases uniq@.len() - k,
    {
        let ghost before = strings_view(dups@);
        proof {
            assert(uv.take(k + 1).drop_last() =~= uv.take(k as int));
        }
        if name_owned_by_many(pairs, &uniq[k]) {
            dups.push(uniq[k].clone());
            assert(strings_view(dups@) =~= before.push(uv[k as int]));
        }
        proof {
            reveal(Seq::filter);
            assert(strings_view(dups@) =~= dup_findings(pv, uv.take(k + 1)));
        }
        k = k + 1;
    }
    proof {
        assert(uv.take(uniq@.len() as int) =~= uv);
    }
    let sims = find_suffix_pairs(&uniq);
    let ghost sp = spec_suffix_pairs(uv);
    let mut similar: Vec<(String, String)> = Vec::new();
    let mut k: usize = 0;
    while k < sims.len()
        invariant
            0 <= k <= sims@.len(),
            pv == pairs_view(pairs@),
            sp == pairs_view(sims@),
            pairs_view(similar@) == sim_findings(pv, sp.take(k as int)),
        decreases sims@.len() - k,
    {
        let ghost before = pairs_view(similar@);
        proof {
            assert(sp.take(k + 1).drop_last() =~= sp.take(k as int));
        }
        if sections_disjoint(pairs, &sims[k].0, &sims[k].1) {
            similar.push((sims[k].0.clone(), sims[k].1.clone()));
            assert(pairs_view(similar@) =~= before.push(sp[k as int]));
        }
        proof {
            reveal(Seq::filter);
            assert(pairs_view(similar@) =~= sim_findings(pv, sp.take(k + 1)));
        }
        k = k + 1;
    }
    proof {
        assert(sp.take(sims@.len() as int) =~= sp);
    }
    ExtValidationResult { ext, duplicates: dups, similar }
}

/// Validates a text: parses it under the strict policy and reports duplicate
/// sections, duplicate and similar properties per section, and duplicate and
/// similar properties across sections sharing a concrete extension pattern.
/// The first unlexable line is returned as a located error instead.
pub fn validate(content: &str, path: &str) -> (r: Result<ValidationResult, LexError>)
    ensures
        match r {
            Ok(v) => spec_validate(content@, path@) == Ok::<_, LexErrorView>(v@),
            Err(e) => spec_validate(content@, path@) == Err::<ValidationResultView, _>(e@),
        },
{
    let sections = match parse(content) {
        Ok(ss) => ss,
        Err(e) => {
            return Err(e);
        },
    };
    let ghost ssv = sections_view(sections@);
    let mut titles: Vec<String> = Vec::new();
    let mut dup_props: Vec<(String, Vec<String>)> = Vec::new();
    let mut sim_props: Vec<(String, Vec<(String, String)>)> = Vec::new();
    let mut buckets: Vec<(String, Vec<(String, String)>)> = Vec::new();
    let mut i: usize = 0;
    while i < sections.len()
        invariant
            0 <= i <= sections@.len(),
            ssv == sections_view(sections@),
            strings_view(titles@) == section_titles(ssv.take(i as int)),
            dup_map_view(dup_props@) == dup_props_of(ssv.take(i as int)),
            pair_map_view(sim_props@) == sim_props_of(ssv.take(i as int)),
            pair_map_view(buckets@) == buckets_of(ssv.take(i as int)),
        decreases sections@.len() - i,
    {
        proof {
            assert(ssv.take(i + 1).drop_last() =~= ssv.take(i as int));
            assert(ssv.take(i + 1).last() == sections@[i as int]@);
        }
        let ghost pre_take = ssv.take(i as int);
        let sec = &sections[i];
        let ghost sv = sec@;
        let names = section_names(sec);
        let dups = only_duplicates(&names);
        if !dups.is_empty() {
            dup_map_append(&mut dup_props, &sec.title, dups);
        }
        let uniq = unique(&names);
        let sims = find_suffix_pairs(&uniq);
        if !sims.is_empty() {
            pair_map_append(&mut sim_props, &sec.title, sims);
        }
        let ghost old_titles = strings_view(titles@);
        titles.push(sec.title.clone());
        proof {
            assert(strings_view(titles@) =~= old_titles.push(sv.title));
            assert(section_titles(ssv.take(i + 1)) =~= section_titles(pre_take).push(sv.title));
        }
        let pairs = section_pairs(sec);
        let mut e: usize = 0;
        while e < sec.extensions.len()
            invariant
                0 <= e <= sec.extensions@.len(),
                sv == sec@,
                pairs_view(pairs@) == sec_pairs(sv),
                pair_map_view(buckets@) == add_exts(
                    buckets_of(pre_take),
                    sv.extensions.take(e as int),
                    sec_pairs(sv),
                ),
            decreases sec.extensions@.len() - e,
        {
            let data = clone_pairs(&pairs);
            pair_map_append(&mut buckets, &sec.extensions[e], data);
            proof {
                assert(sv.extensions.take(e + 1).drop_last() =~= sv.extensions.take(e as int));
                assert(sv.extensions.take(e + 1).last() == sv.extensions[e as int]);
            }
            e = e + 1;
        }
        proof {
            assert(sv.extensions.take(sec.extensions@.len() as int) =~= sv.extensions);
        }
        i = i + 1;
    }
    proof {
        assert(ssv.take(sections@.len() as int) =~= ssv);
    }
    let ghost bv = pair_map_view(buckets@);
    let mut problems: Vec<ExtValidationResult> = Vec::new();
    let mut k: usize = 0;
    while k < buckets.len()
        invariant
            0 <= k <= buckets@.len(),
            bv == pair_map_view(buckets@),
            problems@.map_values(|x: ExtValidationResult| x@) == findings_filter(
                validated_buckets(bv.take(k as int)),
            ),
        decreases buckets@.len() - k,
    {
        let ghost before = problems@.map_values(|x: ExtValidationResult| x@);
        proof {
            assert(bv.take(k + 1).drop_last() =~= bv.take(k as int));
            assert(validated_buckets(bv.take(k + 1)) =~= validated_buckets(bv.take(k as int)).push(
                spec_validate_extension(bv[k as int].0, bv[k as int].1),
            ));
            assert(validated_buckets(bv.take(k + 1)).drop_last() =~= validated_buckets(
                bv.take(k as int),
            ));
        }
        let found = validate_extension(buckets[k].0.clone(), &buckets[k].1);
        let has = !found.duplicates.is_empty() || !found.similar.is_empty();
        if has {
            assert(has_findings(found@));
            problems.push(found);
            assert(problems@.map_values(|x: ExtValidationResult| x@) =~= before.push(
                spec_validate_extension(bv[k as int].0, bv[k as int].1),
            ));
        } else {
            assert(!has_findings(found@));
        }
        proof {
            reveal(Seq::filter);
            assert(problems@.map_values(|x: ExtValidationResult| x@) =~= findings_filter(
                validated_buckets(bv.take(k + 1)),
            ));
        }
        k = k + 1;
    }
    proof {
        assert(bv.take(buckets@.len() as int) =~= bv);
    }
    let result = ValidationResult {
        path: String::from_str(path),
        duplicate_sections: only_duplicates(&titles),
        duplicate_properties: dup_props,
        similar_properties: sim_props,
        ext_problems: problems,
    };
    assert(result@ == spec_validation(ssv, path@));
    Ok(result)
}

} // verus!
