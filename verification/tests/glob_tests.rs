use editorconfiger::glob;
use editorconfiger::sect;

fn expand(input: &str) -> Vec<String> {
    glob::parse(input)
}

#[test]
fn glob_parse_cases() {
    let cases: Vec<(&str, Vec<&str>)> = vec![
        ("22", vec!["22"]),
        ("*.e1", vec!["*.e1"]),
        ("**.e1", vec!["**.e1"]),
        ("*.{e1}", vec!["*.e1"]),
        ("*.[ch]", vec!["*.c", "*.h"]),
        ("f.e1", vec!["f.e1"]),
        ("f1", vec!["f1"]),
        ("*.*", vec!["*.*"]),
        ("*", vec!["*"]),
        ("**", vec!["**"]),
        ("*.{e1,e2}", vec!["*.e1", "*.e2"]),
        ("*.{e1,e2,f1.e1}", vec!["*.e1", "*.e2", "*.f1.e1"]),
        ("{f1.e1,{f1.e2, f1.e3}}", vec!["f1.e1", "f1.e2", "f1.e3"]),
        ("{f1.e1,{f1.e2, {f1.e3, f1.e4}}}", vec!["f1.e1", "f1.e2", "f1.e3", "f1.e4"]),
        ("{f1.e1,{f1.e2, *.{f1.e3, f1.e4}}}", vec!["f1.e1", "f1.e2", "*.f1.e3", "*.f1.e4"]),
        ("{f1.e1,f1.[ch]}", vec!["f1.e1", "f1.c", "f1.h"]),
        ("{*.e1,*.e2}", vec!["*.e1", "*.e2"]),
        ("{f1,f2}.e1", vec!["f1.e1", "f2.e1"]),
        ("{f1,f2}", vec!["f1", "f2"]),
        ("{f1,.f2}", vec!["f1", ".f2"]),
        ("{f1.e1,*.e1}", vec!["f1.e1", "*.e1"]),
        ("{f1.e1,*.f1.e1}", vec!["f1.e1", "*.f1.e1"]),
        ("{f1.e1,.f1.e1}", vec!["f1.e1", ".f1.e1"]),
        ("test/*.{e1, e2}", vec!["test/*.e1", "test/*.e2"]),
        ("test/*", vec!["test/*"]),
        ("test/**/*", vec!["test/**/*"]),
        ("test/{p1,p2}/*", vec!["test/p1/*", "test/p2/*"]),
    ];

    for (input, expected) in cases {
        let actual = expand(input);
        let actual: Vec<&str> = actual.iter().map(|s| s.as_str()).collect();
        assert_eq!(actual, expected, "pattern: {}", input);
    }
}

#[test]
fn glob_parse_malformed_yields_empty() {
    assert!(expand("*.[ch").is_empty());
    assert!(expand("").is_empty());
    assert!(expand("{a,b").is_empty());
    assert!(expand("a}b").is_empty());
    assert!(expand("[]").is_empty());
    assert!(expand("a]b").is_empty());
    assert!(expand("{}").is_empty());
}

#[test]
fn sect_parse_success() {
    assert!(!sect::parse("22").is_empty());
    assert!(!sect::parse("*.e1").is_empty());
    assert!(!sect::parse("**.e1").is_empty());
    assert!(!sect::parse("*.{e1}").is_empty());
    assert!(!sect::parse("*.[ch]").is_empty());
    assert!(!sect::parse("f.e1").is_empty());
    assert!(!sect::parse("f1").is_empty());
    assert!(!sect::parse("*.*").is_empty());
    assert!(!sect::parse("*").is_empty());
    assert!(!sect::parse("**").is_empty());
    assert!(!sect::parse("*.{e1,e2}").is_empty());
    assert!(!sect::parse("*.{e1,e2,f1.e1}").is_empty());
    assert!(!sect::parse("{*.e1,*.e2}").is_empty());
    assert!(!sect::parse("{f1,f2}.e1").is_empty());
    assert!(!sect::parse("{f1,f2}").is_empty());
    assert!(!sect::parse("{f1,.f2}").is_empty());
    assert!(!sect::parse("{f1.e1,*.e1}").is_empty());
    assert!(!sect::parse("{f1.e1,*.f1.e1}").is_empty());
    assert!(!sect::parse("{f1.e1,.f1.e1}").is_empty());
    assert!(!sect::parse("test/*").is_empty());
    assert!(!sect::parse("test/**/*").is_empty());
    assert!(!sect::parse("test/{p1,p2}/*").is_empty());
}

#[test]
fn sect_parse_get_data_single() {
    let result = sect::parse("*.{e1}");

    assert_eq!(1, result.len());
    assert_eq!("*.e1", result[0]);
}

#[test]
fn sect_parse_get_data_many() {
    let result = sect::parse("*.{e1, e2}");

    assert_eq!(2, result.len());
    assert_eq!("*.e1", result[0]);
    assert_eq!("*.e2", result[1]);
}

#[test]
fn sect_parse_path_get_data_many() {
    let result = sect::parse("test/*.{e1, e2}");

    assert_eq!(2, result.len());
    assert_eq!("test/*.e1", result[0]);
    assert_eq!("test/*.e2", result[1]);
}

#[test]
fn sect_parse_get_data_many_ext() {
    let result = sect::parse("*.[ch]");

    assert_eq!(2, result.len());
    assert_eq!("*.c", result[0]);
    assert_eq!("*.h", result[1]);
}

#[test]
fn sect_parse_path_get_data_many_mixed() {
    let result = sect::parse("{f1.e1,*.f1.e1}");

    assert_eq!(2, result.len());
    assert_eq!("f1.e1", result[0]);
    assert_eq!("*.f1.e1", result[1]);
}

#[test]
fn sect_parse_path_get_data_many_only_list_full_wild() {
    let result = sect::parse("{*.e1,*.e2}");

    assert_eq!(2, result.len());
    assert_eq!("*.e1", result[0]);
    assert_eq!("*.e2", result[1]);
}

#[test]
fn sect_parse_path_get_data_many_only_list_fulls() {
    let result = sect::parse("{f1.e1,.f1.e1}");

    assert_eq!(2, result.len());
    assert_eq!("f1.e1", result[0]);
    assert_eq!(".f1.e1", result[1]);
}

#[test]
fn sect_parse_path_get_data_many_composite_fulls() {
    let result = sect::parse("{f1,f2}.e1");

    assert_eq!(2, result.len());
    assert_eq!("f1.e1", result[0]);
    assert_eq!("f2.e1", result[1]);
}

#[test]
fn sect_parse_ignores_trailing_slashes() {
    assert_eq!(sect::parse("test/"), vec!["test".to_string()]);
    assert_eq!(sect::parse("a//"), vec!["a".to_string()]);
    assert!(sect::parse("/").is_empty());
    assert!(sect::parse("").is_empty());
}

#[test]
fn sect_parse_keeps_directory_prefix_verbatim() {
    let result = sect::parse("test/{p1,p2}/*");

    assert_eq!(result, vec!["test/{p1,p2}/*".to_string()]);
}
