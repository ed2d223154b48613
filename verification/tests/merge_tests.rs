use std::path::PathBuf;

use cctx::history::MergeHistory;
use cctx::json::Json;
use cctx::merge::{MergeError, MergeManager};

fn text(s: &str) -> Json {
    Json::Text(s.to_string())
}

fn list(items: &[&str]) -> Json {
    Json::List(items.iter().map(|s| text(s)).collect())
}

fn object(members: Vec<(&str, Json)>) -> Json {
    Json::Object(members.into_iter().map(|(k, v)| (k.to_string(), v)).collect())
}

fn permissions(allow: &[&str], deny: &[&str]) -> Json {
    object(vec![("allow", list(allow)), ("deny", list(deny))])
}

fn manager() -> MergeManager {
    MergeManager::new(PathBuf::from("/tmp/contexts"))
}

fn strings(items: &[&str]) -> Vec<String> {
    items.iter().map(|s| s.to_string()).collect()
}

#[test]
fn merge_permissions_into_empty_target() {
    let mut target = object(vec![]);
    let source = object(vec![("permissions", permissions(&["Bash(ls)"], &[]))]);
    let record = manager().merge_permissions(&mut target, &source, "teamA").unwrap();
    assert_eq!(target, object(vec![("permissions", permissions(&["Bash(ls)"], &[]))]));
    assert_eq!(record.merged_items, strings(&["allow:Bash(ls)"]));
    assert!(!record.full_merge);
    assert_eq!(record.source, "teamA");
}

#[test]
fn unmerge_permissions_after_merge_empties_lists_and_history() {
    let mut target = object(vec![]);
    let source = object(vec![("permissions", permissions(&["Bash(ls)"], &[]))]);
    let record = manager().merge_permissions(&mut target, &source, "teamA").unwrap();
    let mut history = vec![record];
    manager().unmerge_permissions(&mut target, &mut history, "teamA");
    assert_eq!(target, object(vec![("permissions", permissions(&[], &[]))]));
    assert!(history.is_empty());
}

#[test]
fn merge_full_target_wins() {
    let mut target = object(vec![("theme", text("dark"))]);
    let source = object(vec![
        ("theme", text("light")),
        ("env", object(vec![("X", text("1"))])),
    ]);
    let record = manager().merge_full(&mut target, &source, "other").unwrap();
    assert_eq!(target.get("theme"), Some(&text("dark")));
    assert_eq!(target.get("env"), Some(&object(vec![("X", text("1"))])));
    assert_eq!(
        target,
        object(vec![("theme", text("dark")), ("env", object(vec![("X", text("1"))]))])
    );
    assert_eq!(record.merged_items, strings(&["env:X"]));
    assert!(record.full_merge);
}

#[test]
fn merge_permissions_twice_adds_nothing() {
    let mut target = object(vec![("permissions", permissions(&["a", "b"], &["x"]))]);
    let source = object(vec![("permissions", permissions(&["b", "c"], &["x", "y"]))]);
    let first = manager().merge_permissions(&mut target, &source, "s").unwrap();
    assert_eq!(first.merged_items, strings(&["allow:c", "deny:y"]));
    let after_first = target.clone();
    let second = manager().merge_permissions(&mut target, &source, "s").unwrap();
    assert_eq!(target, after_first);
    assert!(second.merged_items.is_empty());
}

#[test]
fn merge_full_twice_adds_nothing() {
    let mut target = object(vec![("model", text("m"))]);
    let source = object(vec![
        ("env", object(vec![("A", text("1")), ("B", text("2"))])),
        ("permissions", permissions(&["r"], &["d"])),
        ("theme", text("light")),
    ]);
    let first = manager().merge_full(&mut target, &source, "s").unwrap();
    assert_eq!(
        first.merged_items,
        strings(&["env:A", "env:B", "permissions.allow:r", "permissions.deny:d", "theme"])
    );
    let after_first = target.clone();
    let second = manager().merge_full(&mut target, &source, "s").unwrap();
    assert_eq!(target, after_first);
    assert!(second.merged_items.is_empty());
}

#[test]
fn merged_list_has_one_item_for_each_different_string() {
    let mut target = object(vec![("permissions", permissions(&["a", "b", "a"], &[]))]);
    let source = object(vec![("permissions", permissions(&["b", "c", "c", "d"], &[]))]);
    manager().merge_permissions(&mut target, &source, "s").unwrap();
    assert_eq!(
        target,
        object(vec![("permissions", permissions(&["a", "b", "c", "d"], &[]))])
    );
}

#[test]
fn merge_drops_what_is_no_string_from_a_merged_list() {
    let mut target = object(vec![(
        "permissions",
        object(vec![
            ("allow", Json::List(vec![text("a"), Json::Bool(true), Json::Null])),
            ("deny", Json::List(vec![Json::Bool(false)])),
        ]),
    )]);
    let source = object(vec![(
        "permissions",
        object(vec![("allow", Json::List(vec![Json::Bool(true), text("b")]))]),
    )]);
    let record = manager().merge_permissions(&mut target, &source, "s").unwrap();
    assert_eq!(record.merged_items, strings(&["allow:b"]));
    assert_eq!(
        target,
        object(vec![(
            "permissions",
            object(vec![("allow", list(&["a", "b"])), ("deny", Json::List(vec![Json::Bool(false)]))]),
        )])
    );
}

#[test]
fn merge_permissions_keeps_other_members() {
    let mut target = object(vec![
        ("theme", text("dark")),
        ("permissions", object(vec![("mode", text("strict")), ("allow", list(&[])), ("deny", list(&[]))])),
    ]);
    let source = object(vec![("theme", text("light")), ("permissions", permissions(&["a"], &["b"]))]);
    let record = manager().merge_permissions(&mut target, &source, "s").unwrap();
    assert_eq!(record.merged_items, strings(&["allow:a", "deny:b"]));
    assert_eq!(
        target,
        object(vec![
            ("theme", text("dark")),
            (
                "permissions",
                object(vec![("mode", text("strict")), ("allow", list(&["a"])), ("deny", list(&["b"]))]),
            ),
        ])
    );
}

#[test]
fn merge_permissions_of_source_without_permissions_gives_defaults() {
    let mut target = object(vec![]);
    let source = object(vec![("theme", text("light"))]);
    let record = manager().merge_permissions(&mut target, &source, "s").unwrap();
    assert!(record.merged_items.is_empty());
    assert_eq!(target, object(vec![("permissions", permissions(&[], &[]))]));
}

#[test]
fn merge_permissions_into_null_makes_an_object() {
    let mut target = Json::Null;
    let source = object(vec![("permissions", permissions(&[], &["d"]))]);
    let record = manager().merge_permissions(&mut target, &source, "s").unwrap();
    assert_eq!(record.merged_items, strings(&["deny:d"]));
    assert_eq!(target, object(vec![("permissions", permissions(&[], &["d"]))]));
}

#[test]
fn merge_permissions_refuses_allow_that_is_no_list() {
    let before = object(vec![("permissions", object(vec![("allow", text("all")), ("deny", list(&[]))]))]);
    let mut target = before.clone();
    let source = object(vec![("permissions", permissions(&["a"], &["b"]))]);
    let outcome = manager().merge_permissions(&mut target, &source, "s");
    assert_eq!(outcome, Err(MergeError::AllowNotArray));
    assert_eq!(target, before);
}

#[test]
fn merge_permissions_refuses_deny_that_is_no_list() {
    let before = object(vec![("permissions", object(vec![("allow", list(&[])), ("deny", Json::Null)]))]);
    let mut target = before.clone();
    let source = object(vec![("permissions", permissions(&["a"], &["b"]))]);
    let outcome = manager().merge_permissions(&mut target, &source, "s");
    assert_eq!(outcome, Err(MergeError::DenyNotArray));
    assert_eq!(target, before);
}

#[test]
fn merge_permissions_takes_an_absent_list_as_empty() {
    let mut target = object(vec![("permissions", object(vec![("deny", list(&[]))]))]);
    let source = object(vec![("permissions", object(vec![("allow", list(&["a"]))]))]);
    let record = manager().merge_permissions(&mut target, &source, "s").unwrap();
    assert_eq!(record.merged_items, strings(&["allow:a"]));
    assert_eq!(
        target,
        object(vec![("permissions", object(vec![("deny", list(&[])), ("allow", list(&["a"]))]))])
    );
    assert_eq!(target.get("permissions").unwrap().get("allow"), Some(&list(&["a"])));
    assert_eq!(target.get("permissions").unwrap().get("deny"), Some(&list(&[])));

    let mut target = object(vec![("permissions", object(vec![]))]);
    let source = object(vec![("permissions", permissions(&["a", "a"], &["b"]))]);
    let record = manager().merge_permissions(&mut target, &source, "s").unwrap();
    assert_eq!(record.merged_items, strings(&["allow:a", "deny:b"]));
    assert_eq!(target, object(vec![("permissions", permissions(&["a"], &["b"]))]));
}

#[test]
fn merge_full_takes_an_absent_list_as_empty() {
    let mut target = object(vec![("permissions", object(vec![("mode", text("strict"))]))]);
    let source = object(vec![("permissions", object(vec![("deny", list(&["d"]))]))]);
    let record = manager().merge_full(&mut target, &source, "s").unwrap();
    assert_eq!(record.merged_items, strings(&["permissions.deny:d"]));
    assert_eq!(
        target,
        object(vec![(
            "permissions",
            object(vec![("mode", text("strict")), ("deny", list(&["d"]))]),
        )])
    );
}

#[test]
fn merge_permissions_refuses_permissions_that_are_null() {
    let before = object(vec![("permissions", Json::Null)]);
    let mut target = before.clone();
    let source = object(vec![("permissions", permissions(&[], &["b"]))]);
    let outcome = manager().merge_permissions(&mut target, &source, "s");
    assert_eq!(outcome, Err(MergeError::AllowNotArray));
    assert_eq!(target, before);
}

#[test]
fn merge_permissions_refuses_permissions_that_are_no_object() {
    let before = object(vec![("permissions", Json::Bool(true))]);
    let mut target = before.clone();
    let source = object(vec![("permissions", permissions(&["a"], &[]))]);
    let outcome = manager().merge_permissions(&mut target, &source, "s");
    assert_eq!(outcome, Err(MergeError::AllowNotArray));
    assert_eq!(target, before);
}

#[test]
fn merge_permissions_refuses_target_that_is_no_object() {
    let mut target = list(&["a"]);
    let source = object(vec![("permissions", permissions(&["a"], &[]))]);
    let outcome = manager().merge_permissions(&mut target, &source, "s");
    assert_eq!(outcome, Err(MergeError::NotAnObject));
    assert_eq!(target, list(&["a"]));
}

#[test]
fn merge_permissions_without_offer_accepts_any_permissions() {
    let before = object(vec![("permissions", object(vec![("allow", text("all"))]))]);
    let mut target = before.clone();
    let source = object(vec![("permissions", object(vec![("allow", text("none"))]))]);
    let record = manager().merge_permissions(&mut target, &source, "s").unwrap();
    assert!(record.merged_items.is_empty());
    assert_eq!(target, before);
}

#[test]
fn merge_full_refused_leaves_target() {
    let before = object(vec![("permissions", object(vec![("allow", list(&[])), ("deny", Json::Null)]))]);
    let mut target = before.clone();
    let source = object(vec![
        ("a", text("1")),
        ("permissions", permissions(&["r"], &["d"])),
    ]);
    let outcome = manager().merge_full(&mut target, &source, "s");
    assert_eq!(outcome, Err(MergeError::DenyNotArray));
    assert_eq!(target, before);
}

#[test]
fn merge_full_of_what_is_no_object_changes_nothing() {
    let mut target = list(&["a"]);
    let source = object(vec![("a", text("1"))]);
    let record = manager().merge_full(&mut target, &source, "s").unwrap();
    assert!(record.merged_items.is_empty());
    assert!(record.full_merge);
    assert_eq!(target, list(&["a"]));

    let mut target = object(vec![("a", text("1"))]);
    let record = manager().merge_full(&mut target, &Json::Null, "s").unwrap();
    assert!(record.merged_items.is_empty());
    assert_eq!(target, object(vec![("a", text("1"))]));
}

#[test]
fn merge_full_never_replaces_a_variable() {
    let mut target = object(vec![("env", object(vec![("A", text("mine"))]))]);
    let source = object(vec![("env", object(vec![("A", text("theirs")), ("B", text("2"))]))]);
    let record = manager().merge_full(&mut target, &source, "s").unwrap();
    assert_eq!(record.merged_items, strings(&["env:B"]));
    assert_eq!(
        target,
        object(vec![("env", object(vec![("A", text("mine")), ("B", text("2"))]))])
    );
}

#[test]
fn merge_full_skips_env_that_is_no_object() {
    let mut target = object(vec![("env", text("none"))]);
    let source = object(vec![("env", object(vec![("A", text("1"))]))]);
    let record = manager().merge_full(&mut target, &source, "s").unwrap();
    assert!(record.merged_items.is_empty());
    assert_eq!(target, object(vec![("env", text("none"))]));

    let mut target = object(vec![]);
    let source = object(vec![("env", text("none"))]);
    let record = manager().merge_full(&mut target, &source, "s").unwrap();
    assert!(record.merged_items.is_empty());
    assert_eq!(target, object(vec![]));
}

#[test]
fn merge_full_gives_default_permissions() {
    let mut target = object(vec![]);
    let source = object(vec![("permissions", text("none"))]);
    let record = manager().merge_full(&mut target, &source, "s").unwrap();
    assert!(record.merged_items.is_empty());
    assert_eq!(target, object(vec![("permissions", permissions(&[], &[]))]));
}

#[test]
fn merge_full_copies_numbers_and_nested_values() {
    let nested = object(vec![
        ("n", Json::Number(serde_json::Number::from(42))),
        ("list", Json::List(vec![Json::Bool(true), Json::Null, text("x")])),
    ]);
    let mut target = object(vec![]);
    let source = object(vec![("nested", nested.clone())]);
    let record = manager().merge_full(&mut target, &source, "s").unwrap();
    assert_eq!(record.merged_items, strings(&["nested"]));
    assert_eq!(target, object(vec![("nested", nested)]));
}

#[test]
fn merge_at_keeps_the_timestamp() {
    let mut target = object(vec![]);
    let source = object(vec![("a", text("1"))]);
    let record = manager()
        .merge_full_at(&mut target, &source, "s", "2024-01-02T03:04:05+00:00".to_string())
        .unwrap();
    assert_eq!(
        record,
        MergeHistory {
            source: "s".to_string(),
            timestamp: "2024-01-02T03:04:05+00:00".to_string(),
            merged_items: strings(&["a"]),
            full_merge: true,
        }
    );
    let record = manager()
        .merge_permissions_at(&mut target, &source, "t", "2024-01-02T03:04:05+00:00".to_string())
        .unwrap();
    assert_eq!(
        record,
        MergeHistory {
            source: "t".to_string(),
            timestamp: "2024-01-02T03:04:05+00:00".to_string(),
            merged_items: vec![],
            full_merge: false,
        }
    );
}

#[test]
fn merge_stamps_the_record_with_a_time() {
    let mut target = object(vec![]);
    let source = object(vec![]);
    let record = manager().merge_permissions(&mut target, &source, "s").unwrap();
    assert!(chrono::DateTime::parse_from_rfc3339(&record.timestamp).is_ok());
    let record = manager().merge_full(&mut target, &source, "s").unwrap();
    assert!(chrono::DateTime::parse_from_rfc3339(&record.timestamp).is_ok());
}

#[test]
fn unmerge_full_after_merge_full_takes_back_what_came_in() {
    let before = object(vec![
        ("model", text("m")),
        ("env", object(vec![("A", text("mine"))])),
        ("permissions", permissions(&["a"], &[])),
    ]);
    let mut target = before.clone();
    let source = object(vec![
        ("env", object(vec![("A", text("theirs")), ("B", text("2"))])),
        ("model", text("other")),
        ("permissions", permissions(&["a", "r"], &["d"])),
        ("theme", text("light")),
    ]);
    let record = manager().merge_full(&mut target, &source, "fresh").unwrap();
    assert_eq!(
        record.merged_items,
        strings(&["env:B", "permissions.allow:r", "permissions.deny:d", "theme"])
    );
    let mut history = vec![record];
    manager().unmerge_full(&mut target, &mut history, "fresh");
    assert_eq!(target, before);
    assert!(history.is_empty());
}

#[test]
fn unmerge_full_leaves_the_defaults_that_the_merge_gave() {
    let mut target = object(vec![]);
    let source = object(vec![
        ("env", object(vec![("B", text("2"))])),
        ("permissions", permissions(&["r"], &[])),
    ]);
    let record = manager().merge_full(&mut target, &source, "fresh").unwrap();
    let mut history = vec![record];
    manager().unmerge_full(&mut target, &mut history, "fresh");
    assert_eq!(
        target,
        object(vec![("env", object(vec![])), ("permissions", permissions(&[], &[]))])
    );
}

#[test]
fn unmerge_of_unknown_source_changes_nothing() {
    let before = object(vec![
        ("theme", text("dark")),
        ("env", object(vec![("A", text("1"))])),
        ("permissions", permissions(&["a"], &["d"])),
    ]);
    let record = MergeHistory {
        source: "known".to_string(),
        timestamp: "t".to_string(),
        merged_items: strings(&["allow:a", "deny:d", "theme", "env:A"]),
        full_merge: true,
    };
    let mut target = before.clone();
    let mut history = vec![record.clone()];
    manager().unmerge_permissions(&mut target, &mut history, "unknown");
    assert_eq!(target, before);
    assert_eq!(history, vec![record.clone()]);
    manager().unmerge_full(&mut target, &mut history, "unknown");
    assert_eq!(target, before);
    assert_eq!(history, vec![record]);
}

#[test]
fn unmerge_permissions_drops_every_record_of_the_source() {
    let mut target = object(vec![
        ("theme", text("light")),
        ("permissions", permissions(&["a", "b", "c"], &["d", "e"])),
    ]);
    let scoped = MergeHistory {
        source: "s".to_string(),
        timestamp: "t1".to_string(),
        merged_items: strings(&["allow:b", "deny:e"]),
        full_merge: false,
    };
    let full = MergeHistory {
        source: "s".to_string(),
        timestamp: "t2".to_string(),
        merged_items: strings(&["theme", "permissions.allow:c"]),
        full_merge: true,
    };
    let other = MergeHistory {
        source: "o".to_string(),
        timestamp: "t3".to_string(),
        merged_items: strings(&["allow:a"]),
        full_merge: false,
    };
    let mut history = vec![scoped, other.clone(), full];
    manager().unmerge_permissions(&mut target, &mut history, "s");
    assert_eq!(
        target,
        object(vec![
            ("theme", text("light")),
            ("permissions", permissions(&["a", "c"], &["d"])),
        ])
    );
    assert_eq!(history, vec![other]);
}

#[test]
fn unmerge_full_also_takes_back_merges_of_permissions() {
    let mut target = object(vec![
        ("theme", text("light")),
        ("env", object(vec![("A", text("1")), ("B", text("2"))])),
        ("permissions", permissions(&["a", "b", "c"], &["d", "e"])),
    ]);
    let scoped = MergeHistory {
        source: "s".to_string(),
        timestamp: "t1".to_string(),
        merged_items: strings(&["allow:b", "deny:e", "env:A"]),
        full_merge: false,
    };
    let full = MergeHistory {
        source: "s".to_string(),
        timestamp: "t2".to_string(),
        merged_items: strings(&["theme", "permissions.allow:c", "env:B"]),
        full_merge: true,
    };
    let mut history = vec![scoped, full];
    manager().unmerge_full(&mut target, &mut history, "s");
    assert_eq!(
        target,
        object(vec![
            ("env", object(vec![("A", text("1"))])),
            ("permissions", permissions(&["a"], &["d"])),
        ])
    );
    assert!(history.is_empty());
}

#[test]
fn unmerge_keeps_what_is_no_string() {
    let mut target = object(vec![(
        "permissions",
        object(vec![("allow", Json::List(vec![Json::Bool(true), text("a")]))]),
    )]);
    let record = MergeHistory {
        source: "s".to_string(),
        timestamp: "t".to_string(),
        merged_items: strings(&["allow:a", "allow:true"]),
        full_merge: false,
    };
    let mut history = vec![record];
    manager().unmerge_permissions(&mut target, &mut history, "s");
    assert_eq!(
        target,
        object(vec![("permissions", object(vec![("allow", Json::List(vec![Json::Bool(true)]))]))])
    );
}

#[test]
fn history_path_lies_in_the_settings_directory() {
    let path = manager().get_history_path("work");
    assert_eq!(path, PathBuf::from("/tmp/contexts/.work-merge-history.json"));
}

#[test]
fn merge_error_is_told_apart() {
    assert_ne!(MergeError::AllowNotArray, MergeError::DenyNotArray);
    assert_ne!(MergeError::NotAnObject, MergeError::DenyNotArray);
}

#[test]
fn round_trip_keeps_what_the_target_had() {
    let before = object(vec![
        ("model", text("m")),
        ("env", object(vec![("A", text("mine")), ("B", Json::Bool(true))])),
        ("permissions", object(vec![("allow", list(&["a", "b"])), ("mode", text("strict"))])),
    ]);
    let mut target = before.clone();
    let source = object(vec![
        ("env", object(vec![("B", text("theirs")), ("C", text("3"))])),
        ("extra", Json::Null),
        ("permissions", permissions(&["b", "c"], &["d"])),
    ]);
    let record = manager().merge_full(&mut target, &source, "fresh").unwrap();
    assert_eq!(
        record.merged_items,
        strings(&["env:C", "extra", "permissions.allow:c", "permissions.deny:d"])
    );
    let mut history = vec![record];
    manager().unmerge_full(&mut target, &mut history, "fresh");
    assert_eq!(target.get("model"), before.get("model"));
    assert_eq!(target.get("env"), before.get("env"));
    assert_eq!(target.get("extra"), None);
    let rules = target.get("permissions").unwrap();
    assert_eq!(rules.get("allow"), Some(&list(&["a", "b"])));
    assert_eq!(rules.get("deny"), Some(&list(&[])));
    assert_eq!(rules.get("mode"), Some(&text("strict")));
}

#[test]
fn round_trip_loses_a_variable_that_a_key_of_the_source_names() {
    let mut target = object(vec![("env", object(vec![("A", text("1"))]))]);
    let source = object(vec![("env:A", text("x"))]);
    let record = manager().merge_full(&mut target, &source, "fresh").unwrap();
    assert_eq!(record.merged_items, strings(&["env:A"]));
    let mut history = vec![record];
    manager().unmerge_full(&mut target, &mut history, "fresh");
    assert_eq!(target, object(vec![("env", object(vec![]))]));
}
