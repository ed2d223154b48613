use std::path::PathBuf;

use cctx::context::{
    check_create, check_rename, check_switch, classify_source, context_of_file, history_context,
    is_valid_name, summarize, targets_current, ContextError, ContextManager,
    SettingsLevel, SourceKind,
};

fn strings(items: &[&str]) -> Vec<String> {
    items.iter().map(|s| s.to_string()).collect()
}

#[test]
fn user_level_lies_in_the_home_directory() {
    let manager = ContextManager::new(PathBuf::from("/home/u/.tool"), PathBuf::from("/work/p/.tool"));
    assert_eq!(manager.settings_level, SettingsLevel::User);
    assert_eq!(manager.claude_settings_path, PathBuf::from("/home/u/.tool/settings.json"));
    assert_eq!(manager.contexts_dir, PathBuf::from("/home/u/.tool/settings"));
    assert_eq!(manager.state_path, PathBuf::from("/home/u/.tool/settings/.cctx-state.json"));
}

#[test]
fn project_level_lies_in_the_current_directory() {
    let manager = ContextManager::new_with_level(
        SettingsLevel::Project,
        PathBuf::from("/home/u/.tool"),
        PathBuf::from("/work/p/.tool"),
    );
    assert_eq!(manager.settings_level, SettingsLevel::Project);
    assert_eq!(manager.claude_settings_path, PathBuf::from("/work/p/.tool/settings.json"));
    assert_eq!(manager.contexts_dir, PathBuf::from("/work/p/.tool/settings"));
    assert_eq!(manager.state_path, PathBuf::from("/work/p/.tool/settings/.cctx-state.json"));
}

#[test]
fn local_level_has_files_of_its_own() {
    let manager = ContextManager::new_with_level(
        SettingsLevel::Local,
        PathBuf::from("/home/u/.tool"),
        PathBuf::from("/work/p/.tool"),
    );
    assert_eq!(manager.settings_level, SettingsLevel::Local);
    assert_eq!(manager.claude_settings_path, PathBuf::from("/work/p/.tool/settings.local.json"));
    assert_eq!(manager.contexts_dir, PathBuf::from("/work/p/.tool/settings"));
    assert_eq!(
        manager.state_path,
        PathBuf::from("/work/p/.tool/settings/.cctx-state.local.json")
    );
}

#[test]
fn context_path_ends_in_json() {
    let manager = ContextManager::new(PathBuf::from("/home/u/.tool"), PathBuf::from("/work/p/.tool"));
    assert_eq!(manager.context_path("work"), PathBuf::from("/home/u/.tool/settings/work.json"));
}

#[test]
fn names_that_no_context_may_have() {
    assert!(!is_valid_name(""));
    assert!(!is_valid_name("-"));
    assert!(!is_valid_name("."));
    assert!(!is_valid_name(".."));
    assert!(!is_valid_name("a/b"));
    assert!(!is_valid_name("/"));
    assert!(is_valid_name("work"));
    assert!(is_valid_name("--"));
    assert!(is_valid_name("..."));
    assert!(is_valid_name(".hidden"));
    assert!(is_valid_name("caf\u{e9}"));
}

#[test]
fn files_that_hold_a_context() {
    assert_eq!(context_of_file("work.json"), Some("work".to_string()));
    assert_eq!(context_of_file("a.b.json"), Some("a.b".to_string()));
    assert_eq!(context_of_file("caf\u{e9}.json"), Some("caf\u{e9}".to_string()));
    assert_eq!(context_of_file(".cctx-state.json"), None);
    assert_eq!(context_of_file(".json"), None);
    assert_eq!(context_of_file("work.txt"), None);
    assert_eq!(context_of_file("json"), None);
    assert_eq!(context_of_file("work.JSON"), None);
    assert_eq!(context_of_file(""), None);
}

#[test]
fn contexts_are_listed_sorted() {
    let files = strings(&[
        "work.json",
        ".cctx-state.json",
        "home.json",
        "notes.txt",
        ".work-merge-history.json",
        "Alpha.json",
        "home2.json",
    ]);
    let manager = ContextManager::new(PathBuf::from("/home/u/.tool"), PathBuf::from("/work/p/.tool"));
    assert_eq!(manager.list_contexts(&files), strings(&["Alpha", "home", "home2", "work"]));
    assert_eq!(manager.list_contexts(&vec![]), Vec::<String>::new());
}

#[test]
fn project_contexts_are_found_by_their_files() {
    assert!(ContextManager::has_project_contexts(&strings(&[".cctx-state.json", "a.txt", "work.json"])));
    assert!(!ContextManager::has_project_contexts(&strings(&[".cctx-state.json", "a.txt"])));
    assert!(!ContextManager::has_project_contexts(&strings(&[])));
}

#[test]
fn create_needs_a_valid_new_name() {
    let contexts = strings(&["home", "work"]);
    assert_eq!(check_create("play", &contexts), Ok(()));
    assert_eq!(check_create("a/b", &contexts), Err(ContextError::InvalidName));
    assert_eq!(check_create("", &contexts), Err(ContextError::InvalidName));
    assert_eq!(check_create("work", &contexts), Err(ContextError::AlreadyExists));
}

#[test]
fn rename_checks_the_new_name_first() {
    let contexts = strings(&["home", "work"]);
    assert_eq!(check_rename("work", "job", &contexts), Ok(()));
    assert_eq!(check_rename("gone", "..", &contexts), Err(ContextError::InvalidName));
    assert_eq!(check_rename("gone", "home", &contexts), Err(ContextError::NotFound));
    assert_eq!(check_rename("work", "home", &contexts), Err(ContextError::AlreadyExists));
    assert_eq!(check_rename("work", "work", &contexts), Err(ContextError::AlreadyExists));
}

#[test]
fn switch_needs_an_existing_context() {
    let contexts = strings(&["home", "work"]);
    assert_eq!(check_switch("home", &contexts), Ok(()));
    assert_eq!(check_switch("hom", &contexts), Err(ContextError::NotFound));
}

#[test]
fn sources_by_their_word() {
    assert_eq!(classify_source("user"), SourceKind::User);
    assert_eq!(classify_source("team.json"), SourceKind::File);
    assert_eq!(classify_source("/etc/tool/settings.json"), SourceKind::File);
    assert_eq!(classify_source("user.json"), SourceKind::File);
    assert_eq!(classify_source("team"), SourceKind::Context);
    assert_eq!(classify_source("users"), SourceKind::Context);
    assert_eq!(classify_source(""), SourceKind::Context);
}

#[test]
fn history_is_kept_under_the_active_context() {
    assert!(targets_current("current"));
    assert!(!targets_current("work"));
    assert_eq!(history_context("work", Some("home".to_string())), "work");
    assert_eq!(history_context("current", Some("home".to_string())), "home");
    assert_eq!(history_context("current", None), "current");
}

#[test]
fn summary_counts_by_kind() {
    let items = strings(&[
        "permissions.allow:a",
        "theme",
        "env:A",
        "permissions.deny:b",
        "permissions",
        "env",
        "env:B",
        "model",
    ]);
    let summary = summarize(&items);
    assert_eq!(summary.permissions, 2);
    assert_eq!(summary.variables, 2);
    assert_eq!(summary.settings, strings(&["theme", "permissions", "env", "model"]));
}
