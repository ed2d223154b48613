use std::path::PathBuf;

use cctx::document::{parse_document, print_document, MergeFailure};
use cctx::history::MergeHistory;
use cctx::json::Json;
use cctx::merge::{MergeError, MergeManager};

fn text(s: &str) -> Json {
    Json::Text(s.to_string())
}

fn object(members: Vec<(&str, Json)>) -> Json {
    Json::Object(members.into_iter().map(|(k, v)| (k.to_string(), v)).collect())
}

fn manager() -> MergeManager {
    MergeManager::new(PathBuf::from("/tmp/contexts"))
}

#[test]
fn parse_reads_every_kind_of_value() {
    let document = parse_document(r#"{"b": [1, true, null, "x", -2.5], "a": {"k": "v"}}"#).unwrap();
    assert_eq!(
        document,
        object(vec![
            ("a", object(vec![("k", text("v"))])),
            (
                "b",
                Json::List(vec![
                    Json::Number(serde_json::Number::from(1)),
                    Json::Bool(true),
                    Json::Null,
                    text("x"),
                    Json::Number(serde_json::Number::from_f64(-2.5).unwrap()),
                ]),
            ),
        ])
    );
    assert_eq!(parse_document("null").unwrap(), Json::Null);
}

#[test]
fn parse_refuses_what_is_no_json() {
    let refused = parse_document("{\"a\": ").unwrap_err();
    assert!(!refused.message.is_empty());
    assert!(parse_document("").is_err());
}

#[test]
fn print_indents_by_two_spaces() {
    let document = object(vec![
        ("a", Json::List(vec![Json::Number(serde_json::Number::from(1)), Json::Bool(true)])),
        ("b", object(vec![])),
        ("c", text("x")),
    ]);
    assert_eq!(
        print_document(&document).unwrap(),
        "{\n  \"a\": [\n    1,\n    true\n  ],\n  \"b\": {},\n  \"c\": \"x\"\n}"
    );
    assert_eq!(print_document(&object(vec![])).unwrap(), "{}");
}

#[test]
fn print_keeps_the_first_of_two_members_with_one_key() {
    let document = object(vec![("a", text("first")), ("a", text("second"))]);
    assert_eq!(print_document(&document).unwrap(), "{\n  \"a\": \"first\"\n}");
}

#[test]
fn print_then_parse_gives_the_document_back() {
    let document = object(vec![
        ("env", object(vec![("A", text("1"))])),
        ("permissions", object(vec![("allow", Json::List(vec![text("r")]))])),
    ]);
    assert_eq!(parse_document(&print_document(&document).unwrap()).unwrap(), document);
}

#[test]
fn merge_texts_merges_permissions() {
    let (merged, record) = manager()
        .merge_texts("{}", r#"{"permissions":{"allow":["Bash(ls)"],"deny":[]}}"#, "teamA", false)
        .unwrap();
    assert_eq!(
        merged,
        "{\n  \"permissions\": {\n    \"allow\": [\n      \"Bash(ls)\"\n    ],\n    \"deny\": []\n  }\n}"
    );
    assert_eq!(record.source, "teamA");
    assert_eq!(record.merged_items, vec!["allow:Bash(ls)".to_string()]);
    assert!(!record.full_merge);
}

#[test]
fn merge_texts_merges_everything() {
    let (merged, record) = manager()
        .merge_texts(r#"{"theme":"dark"}"#, r#"{"theme":"light","env":{"X":"1"}}"#, "s", true)
        .unwrap();
    assert_eq!(merged, "{\n  \"env\": {\n    \"X\": \"1\"\n  },\n  \"theme\": \"dark\"\n}");
    assert_eq!(record.merged_items, vec!["env:X".to_string()]);
    assert!(record.full_merge);
}

#[test]
fn merge_texts_reports_the_target_first() {
    let outcome = manager().merge_texts("{", "[", "s", false);
    assert!(matches!(outcome, Err(MergeFailure::MalformedTarget(_))));
    let outcome = manager().merge_texts("{}", "[", "s", true);
    assert!(matches!(outcome, Err(MergeFailure::MalformedSource(_))));
}

#[test]
fn merge_texts_reports_a_refused_merge() {
    let outcome = manager().merge_texts(
        r#"{"permissions":{"allow":1}}"#,
        r#"{"permissions":{"allow":["a"]}}"#,
        "s",
        false,
    );
    assert_eq!(outcome, Err(MergeFailure::Refused(MergeError::AllowNotArray)));
    let outcome = manager().merge_texts("[]", "{}", "s", false);
    assert_eq!(outcome, Err(MergeFailure::Refused(MergeError::NotAnObject)));
}

#[test]
fn unmerge_texts_takes_back_by_the_history() {
    let record = MergeHistory {
        source: "s".to_string(),
        timestamp: "t".to_string(),
        merged_items: vec!["allow:a".to_string(), "theme".to_string()],
        full_merge: true,
    };
    let target = r#"{"theme":"light","permissions":{"allow":["a","b"]}}"#;

    let mut history = vec![record.clone()];
    let left = manager().unmerge_texts(target, &mut history, "s", false).unwrap();
    assert_eq!(
        left,
        "{\n  \"permissions\": {\n    \"allow\": [\n      \"b\"\n    ]\n  },\n  \"theme\": \"light\"\n}"
    );
    assert!(history.is_empty());

    let mut history = vec![record.clone()];
    let left = manager().unmerge_texts(target, &mut history, "s", true).unwrap();
    assert_eq!(left, "{\n  \"permissions\": {\n    \"allow\": [\n      \"b\"\n    ]\n  }\n}");
    assert!(history.is_empty());

    let mut history = vec![record.clone()];
    let outcome = manager().unmerge_texts("{", &mut history, "s", true);
    assert!(matches!(outcome, Err(MergeFailure::MalformedTarget(_))));
    assert_eq!(history, vec![record]);
}
