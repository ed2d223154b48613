use cctx::history::{forget_source, items_from, MergeHistory};
use cctx::json::{find_member, put_member, Json};
use cctx::lists::merge_lists;
use cctx::text::{contains_char, contains_text, has_prefix, has_suffix, same_text, tagged};

fn text(s: &str) -> Json {
    Json::Text(s.to_string())
}

fn strings(items: &[&str]) -> Vec<String> {
    items.iter().map(|s| s.to_string()).collect()
}

fn record(source: &str, items: &[&str], full_merge: bool) -> MergeHistory {
    MergeHistory {
        source: source.to_string(),
        timestamp: "t".to_string(),
        merged_items: strings(items),
        full_merge,
    }
}

#[test]
fn get_finds_the_first_member() {
    let document = Json::Object(vec![
        ("a".to_string(), text("1")),
        ("b".to_string(), text("2")),
        ("a".to_string(), text("3")),
    ]);
    assert_eq!(document.get("a"), Some(&text("1")));
    assert_eq!(document.get("b"), Some(&text("2")));
    assert_eq!(document.get("c"), None);
    assert_eq!(text("a").get("a"), None);
    assert_eq!(Json::Null.get("a"), None);
}

#[test]
fn put_member_replaces_or_appends() {
    let mut members = vec![("a".to_string(), text("1")), ("b".to_string(), text("2"))];
    assert_eq!(find_member(&members, "b"), Some(1));
    assert_eq!(find_member(&members, "c"), None);
    put_member(&mut members, "a", text("x"));
    assert_eq!(members, vec![("a".to_string(), text("x")), ("b".to_string(), text("2"))]);
    put_member(&mut members, "c", Json::Null);
    assert_eq!(
        members,
        vec![("a".to_string(), text("x")), ("b".to_string(), text("2")), ("c".to_string(), Json::Null)]
    );
}

#[test]
fn clone_copies_the_whole_document() {
    let document = Json::Object(vec![
        ("n".to_string(), Json::Number(serde_json::Number::from(-7))),
        ("f".to_string(), Json::Number(serde_json::Number::from_f64(1.5).unwrap())),
        ("l".to_string(), Json::List(vec![Json::Bool(true), Json::Null, text("x")])),
        ("o".to_string(), Json::Object(vec![("k".to_string(), text("v"))])),
    ]);
    assert_eq!(document.clone(), document);
}

#[test]
fn merge_lists_keeps_the_order_of_first_mention() {
    let have = vec![text("b"), text("a"), Json::Bool(true), text("b")];
    let offered = vec![text("c"), text("a"), Json::Null, text("d"), text("c")];
    let (merged, new) = merge_lists(&have, &offered);
    assert_eq!(merged, vec![text("b"), text("a"), text("c"), text("d")]);
    assert_eq!(new, strings(&["c", "d"]));
}

#[test]
fn items_from_collects_by_source_and_kind() {
    let history = vec![
        record("s", &["allow:a"], false),
        record("o", &["allow:b"], false),
        record("s", &["theme", "env:A"], true),
        record("s", &[], true),
    ];
    assert_eq!(items_from(&history, "s", false), strings(&["allow:a", "theme", "env:A"]));
    assert_eq!(items_from(&history, "s", true), strings(&["theme", "env:A"]));
    assert_eq!(items_from(&history, "o", true), Vec::<String>::new());
    assert_eq!(items_from(&history, "x", false), Vec::<String>::new());
}

#[test]
fn forget_source_keeps_the_other_records_in_order() {
    let mut history = vec![
        record("s", &["allow:a"], false),
        record("o", &["allow:b"], false),
        record("s", &["theme"], true),
        record("p", &[], true),
    ];
    forget_source(&mut history, "s");
    assert_eq!(history, vec![record("o", &["allow:b"], false), record("p", &[], true)]);
    forget_source(&mut history, "s");
    assert_eq!(history, vec![record("o", &["allow:b"], false), record("p", &[], true)]);
}

#[test]
fn record_clone_is_equal() {
    let original = record("s", &["allow:a", "deny:b"], true);
    assert_eq!(original.clone(), original);
}

#[test]
fn text_operations() {
    assert!(same_text("abc", "abc"));
    assert!(!same_text("abc", "abd"));
    assert_eq!(tagged("allow:", "Bash(ls)"), "allow:Bash(ls)");
    assert_eq!(tagged("", ""), "");
    assert!(has_prefix("env:A", "env:"));
    assert!(has_prefix("env:", "env:"));
    assert!(!has_prefix("env", "env:"));
    assert!(has_prefix("\u{e9}t\u{e9}", "\u{e9}"));
    assert!(has_suffix("a.json", ".json"));
    assert!(!has_suffix("json", ".json"));
    assert!(has_suffix("\u{e9}.json", ".json"));
    assert!(contains_char("a/b", '/'));
    assert!(!contains_char("ab", '/'));
    assert!(contains_text(&strings(&["a", "b"]), "b"));
    assert!(!contains_text(&strings(&["a", "b"]), "c"));
}
