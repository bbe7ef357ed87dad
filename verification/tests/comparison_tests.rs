use editorconfiger::{compare, CompareItem};

fn get<'a>(res: &'a [(String, Vec<CompareItem>)], key: &str) -> Option<&'a Vec<CompareItem>> {
    res.iter().find(|e| e.0 == key).map(|e| &e.1)
}

fn contains_key(res: &[(String, Vec<CompareItem>)], key: &str) -> bool {
    get(res, key).is_some()
}

#[test]
fn compare_plain() {
    let config1 = "\n[*]\na = b\nc = d\n";
    let config2 = "\n[*]\na = b1\nc = d2\n";

    let r = compare(config1, config2);

    assert!(r.is_ok());
    let res = r.expect("comparison failed to parse");
    assert_eq!(1, res.len());
    assert_eq!(get(&res, "*").expect("section missing").len(), 2);
}

#[test]
fn compare_plain_with_general() {
    let config1 = "\nroot = true\n\n[*]\na = b\nc = d\n";
    let config2 = "\nroot = true\n\n[*]\na = b1\nc = d2\n";

    let r = compare(config1, config2);

    assert!(r.is_ok());
    let res = r.expect("comparison failed to parse");
    assert_eq!(2, res.len());
    assert!(contains_key(&res, "*"));
    assert_eq!(get(&res, "*").expect("section missing").len(), 2);
    assert!(contains_key(&res, ""));
    assert_eq!(get(&res, "").expect("section missing").len(), 1);
}

#[test]
fn compare_keys_different() {
    let config1 = "\n[*]\na = b\nc = d\n";
    let config2 = "\n[*]\na = b1\nd = d2\n";

    let r = compare(config1, config2);

    assert!(r.is_ok());
    let res = r.expect("comparison failed to parse");
    assert_eq!(1, res.len());
    assert_eq!(get(&res, "*").expect("section missing").len(), 3);
}

#[test]
fn compare_sections_different() {
    let config1 = "\n[x]\na = b\nc = d\n";
    let config2 = "\n[y]\na = b1\nd = d2\n";

    let r = compare(config1, config2);

    assert!(r.is_ok());
    let res = r.expect("comparison failed to parse");
    assert_eq!(2, res.len());
    assert_eq!(get(&res, "x").expect("section missing").len(), 2);
    assert_eq!(get(&res, "y").expect("section missing").len(), 2);
}

#[test]
fn compare_several_sections_with_same_name() {
    let config1 = "\n[*]\na = 1\nc = 2\n\n[*]\nb = 3\nd = 4\n";
    let config2 = "\n[*]\na = 5\nc = 6\n\n[*]\nb = 7\nd = 8\n";

    let r = compare(config1, config2);

    assert!(r.is_ok());
    let res = r.expect("comparison failed to parse");
    assert_eq!(1, res.len());
    assert_eq!(get(&res, "*").expect("section missing").len(), 4);
}

#[test]
fn compare_pairs_values_and_marks_absence() {
    let res = compare("[*]\na = b", "[*]\na = b1\nd = d2").expect("comparison failed to parse");

    assert_eq!(1, res.len());
    let items = get(&res, "*").expect("section missing");
    assert_eq!(items.len(), 2);
    assert_eq!(items[0].key, "a");
    assert_eq!(items[0].first_value, Some("b".to_string()));
    assert_eq!(items[0].second_value, Some("b1".to_string()));
    assert_eq!(items[1].key, "d");
    assert_eq!(items[1].first_value, None);
    assert_eq!(items[1].second_value, Some("d2".to_string()));
}

#[test]
fn compare_last_value_wins_within_a_file() {
    let res = compare("[*]\na = 1\na = 2", "[*]\na = 3").expect("comparison failed to parse");

    let items = get(&res, "*").expect("section missing");
    assert_eq!(items.len(), 1);
    assert_eq!(items[0].first_value, Some("2".to_string()));
    assert_eq!(items[0].second_value, Some("3".to_string()));
}

#[test]
fn compare_never_emits_empty_rows() {
    assert!(compare("[x]", "").expect("comparison failed to parse").is_empty());
    assert!(compare("", "[z]").expect("comparison failed to parse").is_empty());
    assert!(compare("[x]", "[x]").expect("comparison failed to parse").is_empty());

    let res = compare("[x]\na = 1\n[y]", "").expect("comparison failed to parse");
    assert_eq!(res.len(), 1);
    assert_eq!(res[0].0, "x");
    assert_eq!(res[0].1.len(), 1);
}

#[test]
fn compare_reports_first_file_error_first() {
    let err = compare("bad line", "also bad").expect_err("an error was expected");
    assert_eq!(err.offset, 0);
    assert_eq!(err.length, 8);
}

#[test]
fn only_second_leaves_first_value_absent() {
    let item = CompareItem::only_second("key", "value");

    assert_eq!(item.key, "key");
    assert_eq!(item.first_value, None);
    assert_eq!(item.second_value, Some("value".to_string()));
}
