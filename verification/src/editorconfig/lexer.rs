//! The lexer for the line-oriented configuration syntax.
//!
//! Input text is split into physical lines (`\n` or `\r\n` terminated, with a
//! final line that needs no terminator). Each non-empty line is read, in
//! order, as a section head, a key/value pair, or a comment; a line of no such
//! form is a lexing error. Two policies exist for such a line: the strict
//! tokenizer stops with a located error, the lenient one drops the line and
//! goes on.

use vstd::prelude::*;
use vstd::string::StringSliceAdditionalSpecFns;
use vstd::utf8::encode_utf8;

use crate::text::{
    class_contains, class_member, last_pos, lemma_last_pos, lemma_spec_scan, rfind_char, scan,
    spec_scan, spec_trim, trim, CharClass,
};

verus! {

/// One lexical token of the configuration syntax.
#[derive(Debug, Clone, PartialEq, Eq)]
pub enum Token {
    /// A section head: the text between the opening `[` and the last `]` of
    /// the line, kept verbatim.
    Head(String),
    /// A key/value pair, both sides trimmed of surrounding whitespace.
    Pair(String, String),
    /// A comment, marker character included, kept verbatim.
    Comment(String),
}

/// The mathematical model of a [`Token`].
pub enum TokenView {
    Head(Seq<char>),
    Pair(Seq<char>, Seq<char>),
    Comment(Seq<char>),
}

impl View for Token {
    type V = TokenView;

    open spec fn view(&self) -> TokenView {
        match self {
            Token::Head(h) => TokenView::Head(h@),
            Token::Pair(k, v) => TokenView::Pair(k@, v@),
            Token::Comment(c) => TokenView::Comment(c@),
        }
    }
}

pub open spec fn tokens_view(ts: Seq<Token>) -> Seq<TokenView> {
    ts.map_values(|t: Token| t@)
}

/// Why a line lexes to no token.
#[derive(Debug, Clone, Copy, PartialEq, Eq, Structural)]
pub enum LexCause {
    /// The line opens a section head but no `]` closes it.
    UnclosedHead,
    /// The line is neither head, nor key/value pair, nor comment.
    UnrecognizedLine,
}

impl LexCause {
    /// A short description of the cause.
    pub fn message(&self) -> (r: String)
        ensures
            r@ == self.spec_message(),
    {
        match self {
            LexCause::UnclosedHead => String::from_str("section head has no closing bracket"),
            LexCause::UnrecognizedLine => String::from_str(
                "line is no section head, key value pair or comment",
            ),
        }
    }

    pub open spec fn spec_message(&self) -> Seq<char> {
        match self {
            LexCause::UnclosedHead => "section head has no closing bracket"@,
            LexCause::UnrecognizedLine => "line is no section head, key value pair or comment"@,
        }
    }
}

/// A lexing error, locating the offending line inside the input text.
#[derive(Debug, Clone, PartialEq, Eq)]
pub struct LexError {
    /// Byte offset of the line's first byte in the UTF-8 input.
    pub offset: usize,
    /// Length of the line in bytes, terminator excluded.
    pub length: usize,
    /// Why the line was refused.
    pub cause: LexCause,
}

/// The mathematical model of a [`LexError`].
pub struct LexErrorView {
    pub offset: int,
    pub length: int,
    pub cause: LexCause,
}

impl View for LexError {
    type V = LexErrorView;

    open spec fn view(&self) -> LexErrorView {
        LexErrorView { offset: self.offset as int, length: self.length as int, cause: self.cause }
    }
}

/// What lexing one line yields.
pub enum LineLex {
    /// An empty line: no token.
    Skip,
    /// The line's tokens: one head, pair or comment, possibly followed by an
    /// inline comment.
    Toks(Seq<TokenView>),
    /// The line lexes to no token.
    Fail(LexCause),
}

/// Whether the trailing text `s.skip(from)` counts as an inline comment: it
/// must start with a marker, and the lenient policy also wants at least one
/// character after the marker.
pub open spec fn trailing_comment(s: Seq<char>, from: int, strict: bool) -> bool {
    from < s.len() && class_contains(CharClass::Marker, s[from]) && (strict || s.len() - from >= 2)
}

/// Lexes a section head line: `l` starts with `[`. The head's text runs from
/// after the `[` to the last `]` before any comment marker; text after that
/// `]` is dropped, a trailing comment is kept as a token of its own.
pub open spec fn head_lex(l: Seq<char>, strict: bool) -> LineLex {
    let run_end = spec_scan(l, 1, CharClass::Marker);
    if run_end == 1 {
        LineLex::Fail(LexCause::UnrecognizedLine)
    } else {
        let p = last_pos(l, ']', run_end);
        if p < 0 {
            LineLex::Fail(LexCause::UnclosedHead)
        } else {
            let head = TokenView::Head(l.subrange(1, p));
            if trailing_comment(l, run_end, strict) {
                LineLex::Toks(seq![head, TokenView::Comment(l.subrange(run_end, l.len() as int))])
            } else {
                LineLex::Toks(seq![head])
            }
        }
    }
}

/// Lexes a key/value line: `l[ne]` is the first `=`, `;` or `#` of the line
/// and is an `=`. The value runs to the next `=`, `;` or `#`; only the strict
/// policy accepts a line that ends right after the `=`.
pub open spec fn pair_lex(l: Seq<char>, ne: int, strict: bool) -> LineLex {
    let name = spec_trim(l.subrange(0, ne));
    if ne + 1 == l.len() {
        if strict {
            LineLex::Toks(seq![TokenView::Pair(name, Seq::empty())])
        } else {
            LineLex::Fail(LexCause::UnrecognizedLine)
        }
    } else {
        let ve = spec_scan(l, ne + 1, CharClass::PairStop);
        if ve == ne + 1 {
            LineLex::Fail(LexCause::UnrecognizedLine)
        } else {
            let pair = TokenView::Pair(name, spec_trim(l.subrange(ne + 1, ve)));
            if trailing_comment(l, ve, strict) {
                LineLex::Toks(seq![pair, TokenView::Comment(l.subrange(ve, l.len() as int))])
            } else {
                LineLex::Toks(seq![pair])
            }
        }
    }
}

/// Lexes one line, already stripped of its terminator.
pub open spec fn line_lex(l: Seq<char>, strict: bool) -> LineLex {
    if l.len() == 0 {
        LineLex::Skip
    } else if l[0] == '[' {
        head_lex(l, strict)
    } else {
        let ne = spec_scan(l, 0, CharClass::PairStop);
        if 0 < ne < l.len() && l[ne] == '=' {
            pair_lex(l, ne, strict)
        } else if class_contains(CharClass::Marker, l[0]) && (strict || l.len() >= 2) {
            LineLex::Toks(seq![TokenView::Comment(l)])
        } else {
            LineLex::Fail(LexCause::UnrecognizedLine)
        }
    }
}

/// Where the line starting at `i` ends: the position of the next `\n`, or the
/// end of the text.
pub open spec fn next_nl(s: Seq<char>, i: int) -> int {
    spec_scan(s, i, CharClass::Newline)
}

/// The line starting at `i`, with its terminator (and a `\r` before the `\n`)
/// stripped.
pub open spec fn line_end(s: Seq<char>, i: int) -> int {
    let j = next_nl(s, i);
    if j > i && s[j - 1] == '\r' {
        j - 1
    } else {
        j
    }
}

pub open spec fn line_at(s: Seq<char>, i: int) -> Seq<char> {
    s.subrange(i, line_end(s, i))
}

/// The token stream of the text from position `i` on. Under the strict policy
/// the first unlexable line is the error, located by the byte offset and byte
/// length of the line in the UTF-8 input; under the lenient policy such lines
/// are dropped.
pub open spec fn spec_tokenize_from(s: Seq<char>, i: int, strict: bool) -> Result<
    Seq<TokenView>,
    LexErrorView,
>
    recommends
        0 <= i,
    decreases s.len() - i,
{
    if i < 0 || i >= s.len() {
        Ok(Seq::empty())
    } else {
        let j = next_nl(s, i);
        let l = line_at(s, i);
        let tail = if j >= s.len() {
            Ok(Seq::<TokenView>::empty())
        } else {
            proof {
                lemma_spec_scan(s, i, CharClass::Newline);
            }
            spec_tokenize_from(s, j + 1, strict)
        };
        match line_lex(l, strict) {
            LineLex::Skip => tail,
            LineLex::Toks(ts) => match tail {
                Ok(rs) => Ok(ts + rs),
                Err(e) => Err(e),
            },
            LineLex::Fail(c) => if strict {
                Err(
                    LexErrorView {
                        offset: encode_utf8(s.subrange(0, i)).len() as int,
                        length: encode_utf8(l).len() as int,
                        cause: c,
                    },
                )
            } else {
                tail
            },
        }
    }
}

/// The token stream of a whole text under the strict policy.
pub open spec fn spec_tokenize(s: Seq<char>) -> Result<Seq<TokenView>, LexErrorView> {
    spec_tokenize_from(s, 0, true)
}

/// The token stream of a whole text under the lenient policy.
pub open spec fn spec_tokenize_lenient(s: Seq<char>) -> Seq<TokenView> {
    match spec_tokenize_from(s, 0, false) {
        Ok(ts) => ts,
        Err(_) => Seq::empty(),
    }
}

/// The lenient policy refuses no input.
proof fn lemma_lenient_is_total(s: Seq<char>, i: int)
    requires
        0 <= i,
    ensures
        spec_tokenize_from(s, i, false) is Ok,
    decreases s.len() - i,
{
    if i < s.len() {
        let j = next_nl(s, i);
        if j < s.len() {
            lemma_spec_scan(s, i, CharClass::Newline);
            lemma_lenient_is_total(s, j + 1);
        }
    }
}

/// What lexing one line yields, as executable data.
enum LineOut {
    Skip,
    Toks(Vec<Token>),
    Fail(LexCause),
}

/// Lexes one terminator-free line under the given policy.
fn lex_line(l: &str, strict: bool) -> (r: LineOut)
    ensures
        match r {
            LineOut::Skip => line_lex(l@, strict) == LineLex::Skip,
            LineOut::Toks(ts) => line_lex(l@, strict) == LineLex::Toks(tokens_view(ts@)),
            LineOut::Fail(c) => line_lex(l@, strict) == LineLex::Fail(c),
        },
{
    let n = l.unicode_len();
    if n == 0 {
        return LineOut::Skip;
    }
    let c0 = l.get_char(0);
    if c0 == '[' {
        let run_end = scan(l, 1, CharClass::Marker);
        if run_end == 1 {
            return LineOut::Fail(LexCause::UnrecognizedLine);
        }
        match rfind_char(l, ']', run_end) {
            None => LineOut::Fail(LexCause::UnclosedHead),
            Some(p) => {
                proof {
                    lemma_last_pos(l@, ']', run_end as int);
                }
                let mut ts: Vec<Token> = Vec::new();
                ts.push(Token::Head(String::from_str(l.substring_char(1, p))));
                if run_end < n && (strict || n - run_end >= 2) {
                    proof {
                        lemma_spec_scan(l@, 1, CharClass::Marker);
                    }
                    ts.push(Token::Comment(String::from_str(l.substring_char(run_end, n))));
                    assert(tokens_view(ts@) =~= seq![
                        TokenView::Head(l@.subrange(1, p as int)),
                        TokenView::Comment(l@.subrange(run_end as int, l@.len() as int)),
                    ]);
                } else {
                    assert(tokens_view(ts@) =~= seq![TokenView::Head(l@.subrange(1, p as int))]);
                }
                LineOut::Toks(ts)
            },
        }
    } else {
        let ne = scan(l, 0, CharClass::PairStop);
        if 0 < ne && ne < n && l.get_char(ne) == '=' {
            let name = trim(l.substring_char(0, ne));
            if ne + 1 == n {
                if strict {
                    let ts: Vec<Token> = vec![Token::Pair(name, String::new())];
                    assert(tokens_view(ts@) =~= seq![
                        TokenView::Pair(spec_trim(l@.subrange(0, ne as int)), Seq::<char>::empty()),
                    ]);
                    LineOut::Toks(ts)
                } else {
                    LineOut::Fail(LexCause::UnrecognizedLine)
                }
            } else {
                let ve = scan(l, ne + 1, CharClass::PairStop);
                if ve == ne + 1 {
                    LineOut::Fail(LexCause::UnrecognizedLine)
                } else {
                    let value = trim(l.substring_char(ne + 1, ve));
                    let mut ts: Vec<Token> = Vec::new();
                    let ghost pair = TokenView::Pair(
                        spec_trim(l@.subrange(0, ne as int)),
                        spec_trim(l@.subrange(ne as int + 1, ve as int)),
                    );
                    ts.push(Token::Pair(name, value));
                    if ve < n && class_member(CharClass::Marker, l.get_char(ve)) && (strict || n
                        - ve >= 2) {
                        ts.push(Token::Comment(String::from_str(l.substring_char(ve, n))));
                        assert(tokens_view(ts@) =~= seq![
                            pair,
                            TokenView::Comment(l@.subrange(ve as int, l@.len() as int)),
                        ]);
                    } else {
                        assert(tokens_view(ts@) =~= seq![pair]);
                    }
                    LineOut::Toks(ts)
                }
            }
        } else if class_member(CharClass::Marker, c0) && (strict || n >= 2) {
            let ts: Vec<Token> = vec![Token::Comment(String::from_str(l))];
            assert(tokens_view(ts@) =~= seq![TokenView::Comment(l@)]);
            LineOut::Toks(ts)
        } else {
            LineOut::Fail(LexCause::UnrecognizedLine)
        }
    }
}

/// Joins the tokens already produced with the stream still to come.
pub open spec fn combine(pre: Seq<TokenView>, rest: Result<Seq<TokenView>, LexErrorView>) -> Result<
    Seq<TokenView>,
    LexErrorView,
> {
    match rest {
        Ok(ts) => Ok(pre + ts),
        Err(e) => Err(e),
    }
}

fn tokenize_impl(s: &str, strict: bool) -> (r: Result<Vec<Token>, LexError>)
    ensures
        match r {
            Ok(ts) => spec_tokenize_from(s@, 0, strict) == Ok::<_, LexErrorView>(tokens_view(ts@)),
            Err(e) => spec_tokenize_from(s@, 0, strict) == Err::<Seq<TokenView>, _>(e@),
        },
{
    let n = s.unicode_len();
    let mut i: usize = 0;
    let mut acc: Vec<Token> = Vec::new();
    loop
        invariant
            0 <= i <= n,
            n == s@.len(),
            combine(tokens_view(acc@), spec_tokenize_from(s@, i as int, strict))
                == spec_tokenize_from(s@, 0, strict),
        ensures
            i == n,
            combine(tokens_view(acc@), spec_tokenize_from(s@, i as int, strict))
                == spec_tokenize_from(s@, 0, strict),
        decreases n - i,
    {
        if i == n {
            break ;
        }
        let j = scan(s, i, CharClass::Newline);
        proof {
            lemma_spec_scan(s@, i as int, CharClass::Newline);
        }
        let e = if j > i && s.get_char(j - 1) == '\r' {
            j - 1
        } else {
            j
        };
        let line = s.substring_char(i, e);
        assert(line@ == line_at(s@, i as int));
        let ghost prev = acc@;
        let ghost rest_after = if j >= n {
            Ok(Seq::<TokenView>::empty())
        } else {
            spec_tokenize_from(s@, j as int + 1, strict)
        };
        match lex_line(line, strict) {
            LineOut::Skip => {},
            LineOut::Toks(mut ts) => {
                let ghost produced = tokens_view(ts@);
                acc.append(&mut ts);
                assert(tokens_view(acc@) =~= tokens_view(prev) + produced);
                proof {
                    if rest_after is Ok {
                        assert((tokens_view(prev) + produced) + rest_after->Ok_0 =~= tokens_view(
                            prev,
                        ) + (produced + rest_after->Ok_0));
                    }
                }
            },
            LineOut::Fail(c) => {
                if strict {
                    let prefix = s.substring_char(0, i);
                    assert(prefix.spec_bytes() == encode_utf8(s@.subrange(0, i as int)));
                    assert(line.spec_bytes() == encode_utf8(line_at(s@, i as int)));
                    let err = LexError {
                        offset: prefix.as_bytes().len(),
                        length: line.as_bytes().len(),
                        cause: c,
                    };
                    assert(spec_tokenize_from(s@, 0, strict) == Err::<Seq<TokenView>, _>(err@));
                    return Err(err);
                }
            },
        }
        if j == n {
            i = n;
        } else {
            i = j + 1;
        }
    }
    assert(spec_tokenize_from(s@, i as int, strict) == Ok::<_, LexErrorView>(Seq::<TokenView>::empty()));
    assert(tokens_view(acc@) + Seq::<TokenView>::empty() =~= tokens_view(acc@));
    Ok(acc)
}

/// Splits input text into tokens under the strict policy: the first line that
/// lexes to no token is reported as a located error and nothing is returned.
pub fn tokenize(input: &str) -> (r: Result<Vec<Token>, LexError>)
    ensures
        match r {
            Ok(ts) => spec_tokenize(input@) == Ok::<_, LexErrorView>(tokens_view(ts@)),
            Err(e) => spec_tokenize(input@) == Err::<Seq<TokenView>, _>(e@),
        },
{
    tokenize_impl(input, true)
}

/// Splits input text into tokens under the lenient policy: a line that lexes
/// to no token is dropped and lexing goes on with the next line.
pub fn tokenize_lenient(input: &str) -> (r: Vec<Token>)
    ensures
        tokens_view(r@) == spec_tokenize_lenient(input@),
{
    proof {
        lemma_lenient_is_total(input@, 0);
    }
    match tokenize_impl(input, false) {
        Ok(ts) => ts,
        Err(_) => {
            assert(false);
            Vec::new()
        },
    }
}

} // verus!
