//! The lenient entry into parsing: lines that lex to no token are dropped
//! rather than reported, and the rest of the file is still assembled into its
//! ordered section list.

use vstd::prelude::*;

use crate::editorconfig::lexer::tokenize_lenient;
use crate::editorconfig::{build_sections, sections_view, spec_parse_lenient, Section};

verus! {

/// Parses a text into its ordered section list, dropping lines that lex to no
/// token.
pub fn parse(content: &str) -> (r: Vec<Section>)
    ensures
        sections_view(r@) == spec_parse_lenient(content@),
{
    let tokens = tokenize_lenient(content);
    build_sections(&tokens)
}

} // verus!
