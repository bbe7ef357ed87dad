//! Parsing of configuration text into an ordered list of sections.
//!
//! A `Head` token starts a new section, whose extensions are the glob
//! expansion of its title; a `Pair` token joins the most recently started
//! section, with a synthetic root section (empty title, the expansion of `*`)
//! made for pairs that precede every head; comments carry no meaning. The
//! resulting list keeps the file's order exactly, repeated titles included.

pub mod lexer;

use vstd::prelude::*;

use crate::glob;
use crate::glob::spec_glob_or_empty;
use lexer::{
    spec_tokenize, spec_tokenize_lenient, tokenize, tokens_view, LexError, LexErrorView, Token,
    TokenView,
};

verus! {

/// A name/value pair owned by a section.
#[derive(Debug, Clone, PartialEq, Eq)]
pub struct Property {
    pub name: String,
    pub value: String,
}

/// The mathematical model of a [`Property`].
pub struct PropertyView {
    pub name: Seq<char>,
    pub value: Seq<char>,
}

impl View for Property {
    type V = PropertyView;

    open spec fn view(&self) -> PropertyView {
        PropertyView { name: self.name@, value: self.value@ }
    }
}

/// A named group of properties: the raw header text (empty for the synthetic
/// root section), the concrete patterns its title expands to, and its
/// properties in file order.
#[derive(Debug, Clone, PartialEq, Eq)]
pub struct Section {
    pub title: String,
    pub extensions: Vec<String>,
    pub properties: Vec<Property>,
}

/// The mathematical model of a [`Section`].
pub struct SectionView {
    pub title: Seq<char>,
    pub extensions: Seq<Seq<char>>,
    pub properties: Seq<PropertyView>,
}

impl View for Section {
    type V = SectionView;

    open spec fn view(&self) -> SectionView {
        SectionView {
            title: self.title@,
            extensions: crate::text::strings_view(self.extensions@),
            properties: self.properties@.map_values(|p: Property| p@),
        }
    }
}

pub open spec fn sections_view(ss: Seq<Section>) -> Seq<SectionView> {
    ss.map_values(|s: Section| s@)
}

/// The title pattern of the synthetic root section.
pub open spec fn star() -> Seq<char> {
    seq!['*']
}

/// The extensions of the synthetic root section: the expansion of `*`.
pub open spec fn root_extensions() -> Seq<Seq<char>> {
    spec_glob_or_empty(star())
}

/// The section list that a token stream builds, folded left to right.
pub open spec fn spec_build(ts: Seq<TokenView>) -> Seq<SectionView>
    decreases ts.len(),
{
    if ts.len() == 0 {
        Seq::empty()
    } else {
        let pre = spec_build(ts.drop_last());
        match ts.last() {
            TokenView::Head(h) => pre.push(
                SectionView {
                    title: h,
                    extensions: spec_glob_or_empty(h),
                    properties: Seq::empty(),
                },
            ),
            TokenView::Pair(k, v) => {
                let p = PropertyView { name: k, value: v };
                if pre.len() == 0 {
                    seq![
                        SectionView {
                            title: Seq::empty(),
                            extensions: root_extensions(),
                            properties: seq![p],
                        },
                    ]
                } else {
                    let n = pre.len() - 1;
                    pre.update(
                        n as int,
                        SectionView {
                            title: pre.last().title,
                            extensions: pre.last().extensions,
                            properties: pre.last().properties.push(p),
                        },
                    )
                }
            },
            TokenView::Comment(_) => pre,
        }
    }
}

/// What parsing a whole text yields under the strict lexing policy.
pub open spec fn spec_parse(s: Seq<char>) -> Result<Seq<SectionView>, LexErrorView> {
    match spec_tokenize(s) {
        Ok(ts) => Ok(spec_build(ts)),
        Err(e) => Err(e),
    }
}

/// What parsing a whole text yields under the lenient lexing policy.
pub open spec fn spec_parse_lenient(s: Seq<char>) -> Seq<SectionView> {
    spec_build(spec_tokenize_lenient(s))
}

/// Builds the section list of a token stream.
pub(crate) fn build_sections(tokens: &Vec<Token>) -> (r: Vec<Section>)
    ensures
        sections_view(r@) == spec_build(tokens_view(tokens@)),
{
    let ghost tv = tokens_view(tokens@);
    let mut r: Vec<Section> = Vec::new();
    let mut i: usize = 0;
    while i < tokens.len()
        invariant
            0 <= i <= tokens.len(),
            tv == tokens_view(tokens@),
            sections_view(r@) == spec_build(tv.take(i as int)),
        decreases tokens.len() - i,
    {
        proof {
            assert(tv.take(i + 1).drop_last() =~= tv.take(i as int));
            assert(tv.take(i + 1).last() == tokens@[i as int]@);
        }
        let ghost pre = sections_view(r@);
        match &tokens[i] {
            Token::Head(h) => {
                let section = Section {
                    title: h.clone(),
                    extensions: glob::parse(h.as_str()),
                    properties: Vec::new(),
                };
                let ghost sv = section@;
                r.push(section);
                assert(sections_view(r@) =~= pre.push(sv));
                assert(sv.properties =~= Seq::<PropertyView>::empty());
            },
            Token::Pair(k, v) => {
                let prop = Property { name: k.clone(), value: v.clone() };
                if r.len() == 0 {
                    proof {
                        reveal_strlit("*");
                        assert("*"@ =~= star());
                    }
                    let section = Section {
                        title: String::new(),
                        extensions: glob::parse("*"),
                        properties: vec![prop],
                    };
                    let ghost sv = section@;
                    r.push(section);
                    assert(sections_view(r@) =~= seq![sv]);
                    assert(sv.properties =~= seq![PropertyView { name: k@, value: v@ }]);
                } else {
                    let ghost pv = prop@;
                    let mut section = match r.pop() {
                        Some(s) => s,
                        None => {
                            assert(false);
                            Section {
                                title: String::new(),
                                extensions: Vec::new(),
                                properties: Vec::new(),
                            }
                        },
                    };
                    let ghost old_sv = section@;
                    section.properties.push(prop);
                    assert(section@.properties =~= old_sv.properties.push(pv));
                    let ghost sv = section@;
                    r.push(section);
                    proof {
                        assert(old_sv == pre.last());
                        assert(sections_view(r@) =~= pre.update(
                            pre.len() - 1,
                            SectionView {
                                title: pre.last().title,
                                extensions: pre.last().extensions,
                                properties: pre.last().properties.push(pv),
                            },
                        ));
                    }
                }
            },
            Token::Comment(_) => {},
        }
        i = i + 1;
    }
    proof {
        assert(tv.take(tokens@.len() as int) =~= tv);
    }
    r
}

/// Parses a text into its ordered section list under the strict policy: the
/// first line that lexes to no token is reported as a located error.
pub fn parse(content: &str) -> (r: Result<Vec<Section>, LexError>)
    ensures
        match r {
            Ok(ss) => spec_parse(content@) == Ok::<_, LexErrorView>(sections_view(ss@)),
            Err(e) => spec_parse(content@) == Err::<Seq<SectionView>, _>(e@),
        },
{
    match tokenize(content) {
        Ok(ts) => Ok(build_sections(&ts)),
        Err(e) => Err(e),
    }
}

/// Parsing is a function of the text alone: any two results of parsing the
/// same content are structurally equal — same outcome, same section count,
/// same titles in the same order, same property sequence per section — so a
/// second parse repeats the first.
pub proof fn lemma_parse_deterministic(
    c: Seq<char>,
    r1: Result<Seq<SectionView>, LexErrorView>,
    r2: Result<Seq<SectionView>, LexErrorView>,
)
    requires
        r1 == spec_parse(c),
        r2 == spec_parse(c),
    ensures
        r1 == r2,
{
}

/// The titles of the Head tokens of a stream, in order.
pub open spec fn head_titles(ts: Seq<TokenView>) -> Seq<Seq<char>>
    decreases ts.len(),
{
    if ts.len() == 0 {
        Seq::empty()
    } else {
        head_titles(ts.drop_last()) + match ts.last() {
            TokenView::Head(h) => seq![h],
            _ => Seq::empty(),
        }
    }
}

/// The pairs of a stream as properties, in order.
pub open spec fn all_pairs(ts: Seq<TokenView>) -> Seq<PropertyView>
    decreases ts.len(),
{
    if ts.len() == 0 {
        Seq::empty()
    } else {
        all_pairs(ts.drop_last()) + match ts.last() {
            TokenView::Pair(k, v) => seq![PropertyView { name: k, value: v }],
            _ => Seq::empty(),
        }
    }
}

/// Whether building the stream synthesizes a root section: some pair arrives
/// while no section exists yet.
pub open spec fn makes_root(ts: Seq<TokenView>) -> bool
    decreases ts.len(),
{
    if ts.len() == 0 {
        false
    } else {
        makes_root(ts.drop_last()) || (ts.last() is Pair && spec_build(ts.drop_last()).len() == 0)
    }
}

pub open spec fn titles(ss: Seq<SectionView>) -> Seq<Seq<char>> {
    ss.map_values(|s: SectionView| s.title)
}

/// The properties of a section list, concatenated in section order.
pub open spec fn all_props(ss: Seq<SectionView>) -> Seq<PropertyView>
    decreases ss.len(),
{
    if ss.len() == 0 {
        Seq::empty()
    } else {
        all_props(ss.drop_last()) + ss.last().properties
    }
}

/// Order preservation, titles: the section list keeps exactly the head titles
/// of the stream, in file order, repeated titles as distinct entries — with
/// the synthetic root's empty title in front when a pair precedes every head.
pub proof fn lemma_title_order(ts: Seq<TokenView>)
    ensures
        titles(spec_build(ts)) == if makes_root(ts) {
            seq![Seq::<char>::empty()] + head_titles(ts)
        } else {
            head_titles(ts)
        },
    decreases ts.len(),
{
    if ts.len() > 0 {
        lemma_title_order(ts.drop_last());
        let pre = spec_build(ts.drop_last());
        match ts.last() {
            TokenView::Head(h) => {
                assert(titles(pre.push(spec_build(ts).last())) =~= titles(pre).push(h));
                if makes_root(ts) {
                    assert(titles(spec_build(ts)) =~= (seq![Seq::<char>::empty()] + head_titles(
                        ts.drop_last(),
                    )).push(h));
                    assert((seq![Seq::<char>::empty()] + head_titles(ts.drop_last())).push(h)
                        =~= seq![Seq::<char>::empty()] + head_titles(ts));
                } else {
                    assert(titles(spec_build(ts)) =~= head_titles(ts.drop_last()).push(h));
                    assert(head_titles(ts.drop_last()).push(h) =~= head_titles(ts));
                }
            },
            TokenView::Pair(k, v) => {
                assert(head_titles(ts) =~= head_titles(ts.drop_last()));
                if pre.len() == 0 {
                    assert(titles(spec_build(ts)) =~= seq![Seq::<char>::empty()]);
                    assert(head_titles(ts.drop_last()).len() == 0) by {
                        lemma_no_sections_no_heads(ts.drop_last());
                    }
                    assert(titles(spec_build(ts)) =~= seq![Seq::<char>::empty()] + head_titles(ts));
                } else {
                    assert(titles(spec_build(ts)) =~= titles(pre));
                }
            },
            TokenView::Comment(_) => {
                assert(head_titles(ts) =~= head_titles(ts.drop_last()));
            },
        }
    }
}

/// A stream that built no section holds no head.
proof fn lemma_no_sections_no_heads(ts: Seq<TokenView>)
    requires
        spec_build(ts).len() == 0,
    ensures
        head_titles(ts).len() == 0,
        all_pairs(ts).len() == 0,
    decreases ts.len(),
{
    if ts.len() > 0 {
        match ts.last() {
            TokenView::Head(_) => {
                assert(false);
            },
            TokenView::Pair(_, _) => {
                assert(false);
            },
            TokenView::Comment(_) => {
                lemma_no_sections_no_heads(ts.drop_last());
            },
        }
    }
}

/// Order preservation, properties: reading the built sections in order and
/// each section's properties in order yields exactly the stream's pairs in
/// file order.
pub proof fn lemma_property_order(ts: Seq<TokenView>)
    ensures
        all_props(spec_build(ts)) == all_pairs(ts),
    decreases ts.len(),
{
    if ts.len() > 0 {
        lemma_property_order(ts.drop_last());
        let pre = spec_build(ts.drop_last());
        match ts.last() {
            TokenView::Head(h) => {
                assert(spec_build(ts).drop_last() =~= pre);
                assert(all_props(spec_build(ts)) =~= all_pairs(ts.drop_last()));
                assert(all_pairs(ts) =~= all_pairs(ts.drop_last()));
            },
            TokenView::Pair(k, v) => {
                let p = PropertyView { name: k, value: v };
                if pre.len() == 0 {
                    lemma_no_sections_no_heads(ts.drop_last());
                    let built = spec_build(ts);
                    assert(built.drop_last() =~= Seq::<SectionView>::empty());
                    assert(all_props(built.drop_last()) =~= Seq::<PropertyView>::empty());
                    assert(all_props(built) =~= built.last().properties);
                    assert(all_props(spec_build(ts)) =~= seq![p]);
                    assert(all_pairs(ts) =~= seq![p]);
                } else {
                    let built = spec_build(ts);
                    assert(built.drop_last() =~= pre.drop_last());
                    assert(built.last().properties =~= pre.last().properties.push(p));
                    assert(all_props(built) =~= all_props(pre.drop_last()) + pre.last(
                    ).properties.push(p));
                    assert(all_props(pre.drop_last()) + pre.last().properties.push(p) =~= (
                    all_props(pre.drop_last()) + pre.last().properties).push(p));
                    assert(all_pairs(ts) =~= all_pairs(ts.drop_last()).push(p));
                }
            },
            TokenView::Comment(_) => {
                assert(all_props(spec_build(ts)) =~= all_pairs(ts.drop_last()));
                assert(all_pairs(ts) =~= all_pairs(ts.drop_last()));
            },
        }
    }
}

/// Root synthesis: when the first token that is no comment is a pair, the
/// built list starts with the synthetic root section — empty title, and
/// extensions that are exactly the expansion of `*`.
pub proof fn lemma_root_synthesis(ts: Seq<TokenView>, k: int)
    requires
        0 <= k < ts.len(),
        ts[k] is Pair,
        forall|j: int| 0 <= j < k ==> ts[j] is Comment,
    ensures
        spec_build(ts).len() > 0,
        spec_build(ts)[0].title == Seq::<char>::empty(),
        spec_build(ts)[0].extensions == root_extensions(),
    decreases ts.len(),
{
    if ts.len() - 1 == k {
        lemma_all_comments_build_nothing(ts.drop_last());
    } else {
        lemma_root_synthesis(ts.drop_last(), k);
        let pre = spec_build(ts.drop_last());
        match ts.last() {
            TokenView::Head(_) => {},
            TokenView::Pair(_, _) => {
                assert(spec_build(ts)[0].title == pre[0].title);
                assert(spec_build(ts)[0].extensions == pre[0].extensions);
            },
            TokenView::Comment(_) => {},
        }
    }
}

/// Extensions follow titles: every built section carries exactly the glob
/// expansion of its own title — the empty list for a title outside the
/// grammar, which is how a malformed header is tolerated while the section
/// and its properties stay — except the synthetic root, whose title is empty
/// and whose extensions are the expansion of `*`.
pub proof fn lemma_extensions_follow_title(ts: Seq<TokenView>, i: int)
    requires
        0 <= i < spec_build(ts).len(),
    ensures
        spec_build(ts)[i].extensions == spec_glob_or_empty(spec_build(ts)[i].title) || (spec_build(
            ts,
        )[i].title == Seq::<char>::empty() && spec_build(ts)[i].extensions == root_extensions()),
    decreases ts.len(),
{
    if ts.len() > 0 {
        let pre = spec_build(ts.drop_last());
        match ts.last() {
            TokenView::Head(h) => {
                if i < pre.len() {
                    lemma_extensions_follow_title(ts.drop_last(), i);
                }
            },
            TokenView::Pair(_, _) => {
                if pre.len() > 0 {
                    lemma_extensions_follow_title(ts.drop_last(), i);
                }
            },
            TokenView::Comment(_) => {
                lemma_extensions_follow_title(ts.drop_last(), i);
            },
        }
    }
}

/// The concatenated properties of a section list begin with the first
/// section's.
proof fn lemma_first_section_props_prefix(ss: Seq<SectionView>)
    requires
        ss.len() > 0,
    ensures
        ss[0].properties.is_prefix_of(all_props(ss)),
    decreases ss.len(),
{
    if ss.len() == 1 {
        assert(all_props(ss.drop_last()) =~= Seq::<PropertyView>::empty());
        assert(all_props(ss) =~= ss[0].properties);
    } else {
        lemma_first_section_props_prefix(ss.drop_last());
        let p = ss[0].properties;
        let pre = all_props(ss.drop_last());
        assert(ss.drop_last()[0] == ss[0]);
        assert(all_props(ss) =~= pre + ss.last().properties);
        assert((pre + ss.last().properties).subrange(0, p.len() as int) =~= pre.subrange(
            0,
            p.len() as int,
        ));
    }
}

/// Root synthesis, properties: under the hypotheses of
/// [`lemma_root_synthesis`] the synthetic root holds the file's leading
/// pairs — its properties stand first among the stream's pairs, which by
/// [`lemma_property_order`] fill the sections in file order.
pub proof fn lemma_root_holds_leading_pairs(ts: Seq<TokenView>, k: int)
    requires
        0 <= k < ts.len(),
        ts[k] is Pair,
        forall|j: int| 0 <= j < k ==> ts[j] is Comment,
    ensures
        spec_build(ts)[0].properties.is_prefix_of(all_pairs(ts)),
{
    lemma_root_synthesis(ts, k);
    lemma_property_order(ts);
    lemma_first_section_props_prefix(spec_build(ts));
}

/// A stream of comments alone builds no section.
proof fn lemma_all_comments_build_nothing(ts: Seq<TokenView>)
    requires
        forall|j: int| 0 <= j < ts.len() ==> ts[j] is Comment,
    ensures
        spec_build(ts).len() == 0,
    decreases ts.len(),
{
    if ts.len() > 0 {
        assert(ts.last() is Comment);
        lemma_all_comments_build_nothing(ts.drop_last());
    }
}

} // verus!
