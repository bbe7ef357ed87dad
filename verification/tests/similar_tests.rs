use editorconfiger::enumerable::{only_duplicates, unique};
use editorconfiger::similar::find_suffix_pairs;
use editorconfiger::text::trim;

fn strings(items: &[&str]) -> Vec<String> {
    items.iter().map(|s| s.to_string()).collect()
}

fn pairs(items: &[(&str, &str)]) -> Vec<(String, String)> {
    items.iter().map(|(a, b)| (a.to_string(), b.to_string())).collect()
}

#[test]
fn find_suffix_pairs_cases() {
    let cases: Vec<(Vec<&str>, Vec<(&str, &str)>)> = vec![
        (vec!["a_b_c_d", "b_c_e"], vec![]),
        (vec!["b_c", "a_b_c"], vec![("a_b_c", "b_c")]),
        (vec!["aab", "aaab", "b"], vec![("aab", "b"), ("aaab", "aab"), ("aaab", "b")]),
        (vec!["a_b_c", "a_b"], vec![]),
        (vec!["ab", "aba", "b"], vec![("ab", "b")]),
    ];

    for (items, expected) in cases {
        let actual = find_suffix_pairs(&strings(&items));
        assert_eq!(actual, pairs(&expected), "items: {:?}", items);
    }
}

#[test]
fn find_suffix_pairs_is_case_insensitive() {
    let actual = find_suffix_pairs(&strings(&["AB", "dab"]));
    assert_eq!(actual, pairs(&[("dab", "AB")]));

    let equal_up_to_case = find_suffix_pairs(&strings(&["ab", "AB"]));
    assert!(equal_up_to_case.is_empty());
}

#[test]
fn only_duplicates_tests() {
    let cases: Vec<(Vec<&str>, Vec<&str>)> = vec![
        (vec!["a", "b", "b", "a"], vec!["b", "a"]),
        (vec!["a", "b", "b", "a", "a"], vec!["b", "a"]),
        (vec!["a", "b", "b", "a", "a", "a"], vec!["b", "a"]),
        (vec!["a", "b", "b"], vec!["b"]),
        (vec!["a", "b"], vec![]),
        (vec![], vec![]),
    ];

    for (items, expected) in cases {
        let result = only_duplicates(&strings(&items));
        assert_eq!(result, strings(&expected), "items: {:?}", items);
    }
}

#[test]
fn only_unique_tests() {
    let cases: Vec<(Vec<&str>, Vec<&str>)> = vec![
        (vec!["a", "a", "b", "b", "c"], vec!["a", "b", "c"]),
        (vec!["a", "b", "b"], vec!["a", "b"]),
        (vec!["a", "b"], vec!["a", "b"]),
        (vec![], vec![]),
    ];

    for (items, expected) in cases {
        let result = unique(&strings(&items));
        assert_eq!(result, strings(&expected), "items: {:?}", items);
    }
}

#[test]
fn trim_removes_surrounding_whitespace() {
    assert_eq!(trim("  test  "), "test");
    assert_eq!(trim("  test test  "), "test test");
    assert_eq!(trim("\t x \t"), "x");
    assert_eq!(trim("   "), "");
    assert_eq!(trim(""), "");
    assert_eq!(trim("\u{a0}k\u{a0}"), "k");
    assert_eq!(trim("\u{2003}x\u{3000}"), "x");
}
