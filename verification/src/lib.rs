//! Analysis of `.editorconfig`-style configuration text.
//!
//! The crate lexes the line-oriented syntax into tokens, assembles ordered
//! sections of properties, expands section-title glob patterns into concrete
//! extension patterns, and runs two analyses over the parsed structure: a
//! validator that reports duplicate and suspiciously similar entries, and a
//! comparator that produces a structured diff of two files.

use vstd::prelude::*;

pub mod assoc;
pub mod comparison;
pub mod editorconfig;
pub mod editorconfig_parser;
pub mod enumerable;
pub mod glob;
pub mod sect;
pub mod similar;
pub mod text;
pub mod validation;

pub use comparison::{compare, map_properties, map_sections, spec_compare, CompareItem};
pub use validation::{
    spec_validate, validate, validate_extension, ExtValidationResult, ValidationResult,
    ValidationState,
};

verus! {

/// An error sink: receives the path of a file that could not be handled and a
/// message saying why.
pub trait Errorer {
    fn error(&self, path: &str, err: &str);
}

/// A renderer of validation reports, one report per validated file.
pub trait ValidationFormatter {
    fn format(&self, result: &ValidationResult);
}

/// A renderer of comparison results: one list of rows per section title.
pub trait ComparisonFormatter {
    fn format(&self, result: &Vec<(String, Vec<CompareItem>)>);
}

} // verus!
