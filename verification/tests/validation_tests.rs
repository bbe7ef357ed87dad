use editorconfiger::editorconfig::lexer::LexCause;
use editorconfiger::{validate, validate_extension, ValidationResult, ValidationState};

fn check(content: &str, path: &str) -> ValidationResult {
    validate(content, path).expect("validation failed to parse")
}

#[test]
fn validate_success() {
    let config = "\nroot = true\n[*]\na = b\nc = d\n\n[*.md]\ne = f";

    let r = validate(config, "");

    assert!(r.is_ok());
    let result = r.expect("validation failed to parse");
    assert!(result.is_ok());
    assert_eq!(result.state(), ValidationState::Valid);
}

#[test]
fn validate_success_brackets_in_section_name() {
    let config = "\n[[*]]\na = b\nc = d\n";

    let r = validate(config, "");

    assert!(r.is_ok());
    let result = r.expect("validation failed to parse");
    assert!(result.is_ok());
    assert_eq!(result.state(), ValidationState::Valid);
}

#[test]
fn validate_success_inline_comments() {
    let config = "\n[*]\na = b # comment 1\nc = d # comment 2\n";

    let r = validate(config, "");

    assert!(r.is_ok());
    let result = r.expect("validation failed to parse");
    assert!(result.is_ok());
    assert_eq!(result.state(), ValidationState::Valid);
}

#[test]
fn validate_fail_duplicate_keys_in_not_root() {
    let config = "\nroot = true\n[*]\na = b\na = e\nc = d\n\n[*.md]\ne = f";

    let r = validate(config, "");

    assert!(r.is_ok());
    let result = r.expect("validation failed to parse");
    assert!(!result.duplicate_properties.is_empty());
    assert!(result.duplicate_sections.is_empty());
    assert!(result.similar_properties.is_empty());
    assert_eq!(result.state(), ValidationState::Invalid);
}

#[test]
fn validate_fail_similar_keys_in_not_root() {
    let config = "\nroot = true\n[*]\nab = b\ndab = e\nc = d\n\n[*.md]\ne = f";

    let r = validate(config, "");

    assert!(r.is_ok());
    let result = r.expect("validation failed to parse");
    assert!(result.duplicate_properties.is_empty());
    assert!(result.duplicate_sections.is_empty());
    assert!(!result.similar_properties.is_empty());
    assert!(result.ext_problems.is_empty());
    assert_eq!(result.state(), ValidationState::SomeProblems);
}

#[test]
fn validate_fail_duplicate_keys_in_root() {
    let config = "\nroot = true\nroot = false\n\n[*]\na = b\nc = d\n\n[*.md]\ne = f";

    let r = validate(config, "");

    assert!(r.is_ok());
    let result = r.expect("validation failed to parse");
    assert!(!result.duplicate_properties.is_empty());
    assert!(result.duplicate_sections.is_empty());
    assert!(result.similar_properties.is_empty());
    assert!(result.ext_problems.is_empty());
    assert_eq!(result.state(), ValidationState::Invalid);
}

#[test]
fn validate_fail_duplicate_keys_ext_across_different_sections() {
    let config = "\n[*.{md,txt}]\na = b\nc = d\n\n[*.md]\na = d\n";

    let r = validate(config, "");

    assert!(r.is_ok());
    let result = r.expect("validation failed to parse");
    assert!(result.duplicate_properties.is_empty());
    assert!(result.duplicate_sections.is_empty());
    assert!(result.similar_properties.is_empty());
    assert_eq!(result.ext_problems.len(), 1);
    assert_eq!(result.state(), ValidationState::Invalid);
}

#[test]
fn validate_fail_similar_keys_ext_across_different_sections() {
    let config = "\n[*.{md,txt}]\na_b_c = b\nx = d\n\n[*.md]\nd_a_b_c = d\n";

    let r = validate(config, "");

    assert!(r.is_ok());
    let result = r.expect("validation failed to parse");
    assert!(result.duplicate_properties.is_empty());
    assert!(result.duplicate_sections.is_empty());
    assert!(result.similar_properties.is_empty());
    assert_eq!(result.ext_problems.len(), 1);
    assert_eq!(result.state(), ValidationState::SomeProblems);
}

#[test]
fn validate_fail_duplicate_sections() {
    let config = "\nroot = true\n\n[*]\na = b\nc = d\n\n[*]\ne = f";

    let r = validate(config, "");

    assert!(r.is_ok());
    let result = r.expect("validation failed to parse");
    assert!(result.duplicate_properties.is_empty());
    assert!(!result.duplicate_sections.is_empty());
    assert!(result.similar_properties.is_empty());
    assert_eq!(result.state(), ValidationState::Invalid);
}

#[test]
fn validate_reports_exact_duplicate_property() {
    let result = check("[*]\na=b\na=c", "x");

    assert_eq!(result.path, "x");
    assert_eq!(result.duplicate_properties.len(), 1);
    assert_eq!(result.duplicate_properties[0].0, "*");
    assert_eq!(result.duplicate_properties[0].1, vec!["a".to_string()]);
    assert!(result.duplicate_sections.is_empty());
    assert!(result.similar_properties.is_empty());
    assert_eq!(result.state(), ValidationState::Invalid);
}

#[test]
fn validate_reports_exact_similar_property() {
    let result = check("[*]\nab=1\ndab=2", "");

    assert!(result.duplicate_properties.is_empty());
    assert!(result.duplicate_sections.is_empty());
    assert_eq!(result.similar_properties.len(), 1);
    assert_eq!(result.similar_properties[0].0, "*");
    assert_eq!(
        result.similar_properties[0].1,
        vec![("dab".to_string(), "ab".to_string())],
    );
    assert_eq!(result.state(), ValidationState::SomeProblems);
}

#[test]
fn validate_reports_exact_cross_extension_duplicate() {
    let result = check("[*.{md,txt}]\na=b\n\n[*.md]\na=d", "");

    assert_eq!(result.ext_problems.len(), 1);
    assert_eq!(result.ext_problems[0].ext, "*.md");
    assert_eq!(result.ext_problems[0].duplicates, vec!["a".to_string()]);
    assert!(result.ext_problems[0].similar.is_empty());
    assert_eq!(result.state(), ValidationState::Invalid);
}

#[test]
fn validate_surfaces_lexer_error() {
    let err = validate("[*]\nbroken line", "p").expect_err("an error was expected");
    assert_eq!(err.offset, 4);
    assert_eq!(err.length, 11);
    assert_eq!(err.cause, LexCause::UnrecognizedLine);
}

#[test]
fn validate_extension_detects_cross_section_duplicates() {
    let pairs = vec![
        ("a".to_string(), "s1".to_string()),
        ("a".to_string(), "s2".to_string()),
        ("b".to_string(), "s1".to_string()),
    ];

    let result = validate_extension("*.md".to_string(), &pairs);

    assert_eq!(result.ext, "*.md");
    assert_eq!(result.duplicates, vec!["a".to_string()]);
    assert!(result.similar.is_empty());
}

#[test]
fn validate_extension_skips_similar_pairs_sharing_a_section() {
    let same_section = vec![
        ("ab".to_string(), "s1".to_string()),
        ("dab".to_string(), "s1".to_string()),
    ];
    let result = validate_extension("*.md".to_string(), &same_section);
    assert!(result.duplicates.is_empty());
    assert!(result.similar.is_empty());

    let across = vec![
        ("ab".to_string(), "s1".to_string()),
        ("dab".to_string(), "s2".to_string()),
    ];
    let result = validate_extension("*.md".to_string(), &across);
    assert!(result.duplicates.is_empty());
    assert_eq!(result.similar, vec![("dab".to_string(), "ab".to_string())]);
}

#[test]
fn validate_orders_findings_by_key_ascending() {
    let config = "[*.{b,a}]\nk = 1\n\n[*.a]\nk = 2\n\n[*.b]\nk = 3";

    let result = check(config, "");

    assert_eq!(result.ext_problems.len(), 2);
    assert_eq!(result.ext_problems[0].ext, "*.a");
    assert_eq!(result.ext_problems[1].ext, "*.b");

    let config = "[b]\nx = 1\nx = 2\n[a]\ny = 1\ny = 2";
    let result = check(config, "");
    assert_eq!(result.duplicate_properties.len(), 2);
    assert_eq!(result.duplicate_properties[0].0, "a");
    assert_eq!(result.duplicate_properties[1].0, "b");
}

#[test]
fn validate_arbitrary() {
    let content = "S=\u{1b}\u{1b}\u{1e}_=\u{1b}\n\u{1b},\u{1b}s=\u{1b}\u{0}\u{0}\u{1b}\u{1b}1L";
    let path = "\n*\u{1b}\u{1b}";

    let r = validate(content, path);

    assert!(r.is_ok());
    let result = r.expect("validation failed to parse");
    assert!(!result.is_ok());
    assert_eq!(result.state(), ValidationState::SomeProblems);
}

#[test]
fn is_ok_tests() {
    assert!(ValidationState::Valid.is_ok());
    assert!(!ValidationState::Invalid.is_ok());
    assert!(!ValidationState::SomeProblems.is_ok());
}
