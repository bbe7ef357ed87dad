use editorconfiger::editorconfig;
use editorconfiger::editorconfig::lexer::{tokenize, tokenize_lenient, LexCause, Token};
use editorconfiger::editorconfig::Section;
use editorconfiger::editorconfig_parser;

fn head(s: &str) -> Token {
    Token::Head(s.to_string())
}

fn pair(k: &str, v: &str) -> Token {
    Token::Pair(k.to_string(), v.to_string())
}

fn comment(s: &str) -> Token {
    Token::Comment(s.to_string())
}

fn titles(sections: &[Section]) -> Vec<&str> {
    sections.iter().map(|s| s.title.as_str()).collect()
}

#[test]
fn mod_map_several_sections_len_and_content_as_expected() {
    let config = "\nroot = true\n[*]\na = b\nc = d\n\n[*.md]\ne = f";

    let contents = editorconfig::parse(config).expect("Parsing failed");

    assert_eq!(contents.len(), 3);
    assert_eq!(titles(&contents), vec!["", "*", "*.md"]);
}

#[test]
fn mod_map_test_properties_len_as_expected() {
    let config = "\n[*]\na = b\nc = d";

    let contents = editorconfig::parse(config).expect("Parsing failed");

    assert_eq!(contents.len(), 1);
    assert_eq!(contents[0].properties.len(), 2);
}

#[test]
fn editorconfig_parser_map_several_sections_len_and_content_as_expected() {
    let config = "\nroot = true\n[*]\na = b\nc = d\n\n[*.md]\ne = f";

    let contents = editorconfig_parser::parse(config);

    assert_eq!(contents.len(), 3);
    assert_eq!(titles(&contents), vec!["", "*", "*.md"]);
}

#[test]
fn editorconfig_parser_map_test_properties_len_as_expected() {
    let config = "\n[*]\na = b\nc = d";

    let contents = editorconfig_parser::parse(config);

    assert_eq!(contents.len(), 1);
    assert_eq!(contents[0].properties.len(), 2);
}

#[test]
fn editorconfig_lexer_parse_test() {
    let cases: Vec<(&str, Vec<Token>)> = vec![
        ("", vec![]),
        ("[*.md]", vec![head("*.md")]),
        ("[*.md] ; test", vec![head("*.md"), comment("; test")]),
        ("[*.[md]]", vec![head("*.[md]")]),
        ("[*.[md]", vec![head("*.[md")]),
        ("[ *.[md] ]", vec![head(" *.[md] ")]),
        ("[a]\n[b]", vec![head("a"), head("b")]),
        ("[a]\r\n[b]", vec![head("a"), head("b")]),
        ("[a]\n\n[b]", vec![head("a"), head("b")]),
        ("[a]", vec![head("a")]),
        ("[a]\r\n", vec![head("a")]),
        ("[a]\nk=v", vec![head("a"), pair("k", "v")]),
        ("[a]\nk=v ; test", vec![head("a"), pair("k", "v"), comment("; test")]),
        (
            "[a]\nk=v ; test\n[b]",
            vec![head("a"), pair("k", "v"), comment("; test"), head("b")],
        ),
        ("[a]\nk=v; test", vec![head("a"), pair("k", "v"), comment("; test")]),
        ("[a]\nk=v\n[b]", vec![head("a"), pair("k", "v"), head("b")]),
        (
            "[a]\n# test\nk=v\n[b]",
            vec![head("a"), comment("# test"), pair("k", "v"), head("b")],
        ),
        (
            "[a]\n; test\nk=v\n[b]",
            vec![head("a"), comment("; test"), pair("k", "v"), head("b")],
        ),
        (
            "[a]\n# test\nk = v \n[b]",
            vec![head("a"), comment("# test"), pair("k", "v"), head("b")],
        ),
        ("[a\n# test\nk = v \n[b]", vec![comment("# test"), pair("k", "v"), head("b")]),
        ("[a\n# test\nk =  \n[b]", vec![comment("# test"), pair("k", ""), head("b")]),
        ("[a\n# test\nk = v \n[b]test", vec![comment("# test"), pair("k", "v"), head("b")]),
    ];

    for (case, expected) in cases {
        println!("parse_test case: {}", case);
        let result = tokenize_lenient(case);
        assert_eq!(expected, result);
    }
}

#[test]
fn editorconfig_lexer_parse_real_file() {
    let s = "# Editor configuration, see http://editorconfig.org\nroot = true\n\n[*]\ncharset = utf-8\nindent_style = space\nindent_size = 2\ninsert_final_newline = true\ntrim_trailing_whitespace = true : error\n\n[*.md]\nmax_line_length = off\ntrim_trailing_whitespace = false\n";

    let result = tokenize_lenient(s);

    let expected = vec![
        comment("# Editor configuration, see http://editorconfig.org"),
        pair("root", "true"),
        head("*"),
        pair("charset", "utf-8"),
        pair("indent_style", "space"),
        pair("indent_size", "2"),
        pair("insert_final_newline", "true"),
        pair("trim_trailing_whitespace", "true : error"),
        head("*.md"),
        pair("max_line_length", "off"),
        pair("trim_trailing_whitespace", "false"),
    ];
    assert_eq!(result, expected);
}

#[test]
fn tokenize_real_file() {
    let s = "# Editor configuration, see http://editorconfig.org\nroot = true\n\n[*]\ncharset = utf-8\nindent_style = space\nindent_size = 2\ninsert_final_newline = true\ntrim_trailing_whitespace = true : error\n\n[*.md]\nmax_line_length = off\ntrim_trailing_whitespace = false\n";

    let result = tokenize(s).expect("tokenizing failed");

    let expected = vec![
        comment("# Editor configuration, see http://editorconfig.org"),
        pair("root", "true"),
        head("*"),
        pair("charset", "utf-8"),
        pair("indent_style", "space"),
        pair("indent_size", "2"),
        pair("insert_final_newline", "true"),
        pair("trim_trailing_whitespace", "true : error"),
        head("*.md"),
        pair("max_line_length", "off"),
        pair("trim_trailing_whitespace", "false"),
    ];
    assert_eq!(result, expected);
}

#[test]
fn tokenize_pair_with_empty_value() {
    assert_eq!(tokenize("[a]\nk=").expect("tokenizing failed"), vec![head("a"), pair("k", "")]);
    assert_eq!(tokenize("[a]\nk= ").expect("tokenizing failed"), vec![head("a"), pair("k", "")]);
    assert_eq!(tokenize("#").expect("tokenizing failed"), vec![comment("#")]);
}

#[test]
fn tokenize_reports_unclosed_head() {
    let err = tokenize("[a]\nk=v\n[oops\nx=y").expect_err("an error was expected");
    assert_eq!(err.offset, 8);
    assert_eq!(err.length, 5);
    assert_eq!(err.cause, LexCause::UnclosedHead);
}

#[test]
fn tokenize_reports_unrecognized_line() {
    let err = tokenize("just text").expect_err("an error was expected");
    assert_eq!(err.offset, 0);
    assert_eq!(err.length, 9);
    assert_eq!(err.cause, LexCause::UnrecognizedLine);
    assert!(!err.cause.message().is_empty());
}

#[test]
fn tokenize_locates_errors_in_bytes() {
    let err = tokenize("\u{e9}=1\n[oops").expect_err("an error was expected");
    assert_eq!(err.offset, 5);
    assert_eq!(err.length, 5);
    assert_eq!(err.cause, LexCause::UnclosedHead);
}

#[test]
fn parse_twice_yields_equal_sections() {
    let config = "\nroot = true\n[*]\na = b\nc = d\n\n[*.{md,txt}]\ne = f";

    let first = editorconfig::parse(config).expect("Parsing failed");
    let second = editorconfig::parse(config).expect("Parsing failed");

    assert_eq!(first, second);
}

#[test]
fn parse_keeps_file_order_with_repeated_titles() {
    let config = "[b]\nx = 1\n[a]\ny = 2\n[b]\nz = 3";

    let contents = editorconfig::parse(config).expect("Parsing failed");

    assert_eq!(titles(&contents), vec!["b", "a", "b"]);
    assert_eq!(contents[0].properties[0].name, "x");
    assert_eq!(contents[1].properties[0].name, "y");
    assert_eq!(contents[2].properties[0].name, "z");
}

#[test]
fn parse_synthesizes_root_section() {
    let config = "root = true\nindent_size = 2\n[*]\na = b";

    let contents = editorconfig::parse(config).expect("Parsing failed");

    assert_eq!(contents.len(), 2);
    assert_eq!(contents[0].title, "");
    assert_eq!(contents[0].extensions, vec!["*".to_string()]);
    assert_eq!(contents[0].properties.len(), 2);
    assert_eq!(contents[0].properties[0].name, "root");
    assert_eq!(contents[0].properties[1].name, "indent_size");
}

#[test]
fn parse_keeps_malformed_title_with_empty_extensions() {
    let config = "[*.[ch]\na = b";

    let contents = editorconfig::parse(config).expect("Parsing failed");

    assert_eq!(contents.len(), 1);
    assert_eq!(contents[0].title, "*.[ch");
    assert!(contents[0].extensions.is_empty());
    assert_eq!(contents[0].properties.len(), 1);
    assert_eq!(contents[0].properties[0].name, "a");
    assert_eq!(contents[0].properties[0].value, "b");
}

#[test]
fn lenient_parse_drops_bad_lines() {
    let config = "[oops\na = b\nnot a line\nc = d";

    let contents = editorconfig_parser::parse(config);

    assert_eq!(contents.len(), 1);
    assert_eq!(contents[0].title, "");
    assert_eq!(contents[0].properties.len(), 2);
}
