//! Contexts: where they are kept, which files hold one, which names one may
//! have, and what a merge names as its source.

use std::path::PathBuf;
use vstd::prelude::*;
use vstd::string::StrSliceExecFns;
use crate::paths::{join_path, joined};
use crate::text::{contains_char, contains_text, has_prefix, has_suffix, same_text, tagged, views};

verus! {

/// Whose settings the contexts are: the user's, a project's, or a project's
/// local ones.
#[derive(Debug, Clone, Copy, PartialEq, Eq, Structural)]
pub enum SettingsLevel {
    User,
    Project,
    Local,
}

/// The name of the settings file of a level.
pub open spec fn settings_file(level: SettingsLevel) -> Seq<char> {
    match level {
        SettingsLevel::Local => "settings.local.json"@,
        _ => "settings.json"@,
    }
}

/// The name of the file that keeps the state of a level.
pub open spec fn state_file(level: SettingsLevel) -> Seq<char> {
    match level {
        SettingsLevel::Local => ".cctx-state.local.json"@,
        _ => ".cctx-state.json"@,
    }
}

/// The directory of a level: the user's for the user's settings, the
/// project's for a project's.
pub open spec fn level_dir(level: SettingsLevel, user_dir: PathBuf, project_dir: PathBuf) -> PathBuf {
    match level {
        SettingsLevel::User => user_dir,
        _ => project_dir,
    }
}

/// Where the contexts of one level are kept.
pub struct ContextManager {
    pub contexts_dir: PathBuf,
    pub claude_settings_path: PathBuf,
    pub state_path: PathBuf,
    pub settings_level: SettingsLevel,
}

impl ContextManager {
    /// The manager of the user's contexts.
    pub fn new(user_dir: PathBuf, project_dir: PathBuf) -> (manager: Self)
        ensures
            manager.settings_level == SettingsLevel::User,
            manager.laid_out(user_dir, project_dir),
    {
        Self::new_with_level(SettingsLevel::User, user_dir, project_dir)
    }

    /// Whether the paths of the manager are those of its level, where the
    /// settings of the user lie in `user_dir` and those of the project in
    /// `project_dir`.
    pub open spec fn laid_out(&self, user_dir: PathBuf, project_dir: PathBuf) -> bool {
        let dir = level_dir(self.settings_level, user_dir, project_dir);
        &&& self.claude_settings_path == joined(dir, settings_file(self.settings_level))
        &&& self.contexts_dir == joined(dir, "settings"@)
        &&& self.state_path == joined(self.contexts_dir, state_file(self.settings_level))
    }

    /// The manager of the contexts of `level`. The settings file lies in the
    /// directory of the level, the contexts in its directory `settings`, and
    /// the state beside the contexts.
    pub fn new_with_level(level: SettingsLevel, user_dir: PathBuf, project_dir: PathBuf) -> (manager:
        Self)
        ensures
            manager.settings_level == level,
            manager.laid_out(user_dir, project_dir),
    {
        let dir = match level {
            SettingsLevel::User => user_dir,
            _ => project_dir,
        };
        let contexts_dir = join_path(&dir, "settings");
        let (settings, state) = match level {
            SettingsLevel::Local => ("settings.local.json", ".cctx-state.local.json"),
            _ => ("settings.json", ".cctx-state.json"),
        };
        let claude_settings_path = join_path(&dir, settings);
        let state_path = join_path(&contexts_dir, state);
        Self { contexts_dir, claude_settings_path, state_path, settings_level: level }
    }

    /// The path of the file that holds the context `name`.
    pub fn context_path(&self, name: &str) -> (path: PathBuf)
        ensures
            path == joined(self.contexts_dir, name@ + ".json"@),
    {
        join_path(&self.contexts_dir, tagged(name, ".json").as_str())
    }
}

/// Whether a context may have this name: not empty, none of `-`, `.` and
/// `..`, and without a `/`.
pub open spec fn valid_name(name: Seq<char>) -> bool {
    name.len() > 0 && name != "-"@ && name != "."@ && name != ".."@ && !name.contains('/')
}

/// Whether a context may have this name.
pub fn is_valid_name(name: &str) -> (valid: bool)
    ensures
        valid == valid_name(name@),
{
    !(name.unicode_len() == 0 || same_text(name, "-") || same_text(name, ".") || same_text(
        name,
        "..",
    ) || contains_char(name, '/'))
}

/// The context that a file of the contexts' directory holds, by the file's
/// name: none for a hidden file and for one that does not end in `.json`,
/// else the name without that ending.
pub open spec fn context_of(file_name: Seq<char>) -> Option<Seq<char>> {
    if "."@.is_prefix_of(file_name) || !".json"@.is_suffix_of(file_name) {
        None
    } else {
        Some(file_name.subrange(0, file_name.len() - ".json"@.len()))
    }
}

/// The context that a file of the contexts' directory holds, by the file's
/// name.
pub fn context_of_file(file_name: &str) -> (context: Option<String>)
    ensures
        match context {
            Some(name) => context_of(file_name@) == Some(name@),
            None => context_of(file_name@) is None,
        },
{
    if has_prefix(file_name, ".") || !has_suffix(file_name, ".json") {
        None
    } else {
        let len = file_name.unicode_len();
        let ending = ".json".unicode_len();
        Some(file_name.substring_char(0, len - ending).to_owned())
    }
}

/// The contexts that the files of a directory hold, in the order of the
/// files.
pub open spec fn contexts_of(file_names: Seq<Seq<char>>) -> Seq<Seq<char>>
    decreases file_names.len(),
{
    if file_names.len() == 0 {
        Seq::empty()
    } else {
        let rest = contexts_of(file_names.drop_last());
        match context_of(file_names.last()) {
            Some(name) => rest.push(name),
            None => rest,
        }
    }
}

/// Whether `a` comes before `b`, or is `b`, where strings are ordered by
/// their first differing character, and a string comes after its beginnings.
pub open spec fn text_le(a: Seq<char>, b: Seq<char>) -> bool
    decreases a.len(),
{
    if a.len() == 0 {
        true
    } else if b.len() == 0 {
        false
    } else if a[0] != b[0] {
        (a[0] as u32) < (b[0] as u32)
    } else {
        text_le(a.skip(1), b.skip(1))
    }
}

/// Whether each name comes before those that follow it, or equals them.
pub open spec fn sorted(names: Seq<Seq<char>>) -> bool {
    forall|i: int, j: int| 0 <= i < j < names.len() ==> text_le(names[i], names[j])
}

/// `sort` of std on a list of strings: the same strings, in ascending order.
/// std orders strings by their bytes, which in UTF-8 is the order of their
/// characters.
#[verifier::external_body]
fn sort_names(names: &mut Vec<String>)
    ensures
        views(final(names)@).to_multiset() == views(old(names)@).to_multiset(),
        sorted(views(final(names)@)),
{
    names.sort();
}

impl ContextManager {
    /// The contexts that the files of the contexts' directory hold, sorted.
    pub fn list_contexts(&self, file_names: &Vec<String>) -> (contexts: Vec<String>)
        ensures
            views(contexts@).to_multiset() == contexts_of(views(file_names@)).to_multiset(),
            sorted(views(contexts@)),
    {
        let ghost all = views(file_names@);
        let mut contexts: Vec<String> = Vec::new();
        let mut i: usize = 0;
        assert(views(contexts@) =~= contexts_of(all.take(0)));
        while i < file_names.len()
            invariant
                i <= file_names.len(),
                all == views(file_names@),
                views(contexts@) == contexts_of(all.take(i as int)),
            decreases file_names.len() - i,
        {
            proof {
                assert(all.take(i + 1).drop_last() =~= all.take(i as int));
                assert(all.take(i + 1).last() == file_names@[i as int]@);
            }
            match context_of_file(file_names[i].as_str()) {
                Some(name) => {
                    let ghost before = contexts@;
                    contexts.push(name);
                    assert(views(contexts@) =~= views(before).push(name@));
                },
                None => {},
            }
            i += 1;
        }
        assert(all.take(file_names.len() as int) =~= all);
        sort_names(&mut contexts);
        contexts
    }

    /// Whether the files of a project's contexts' directory hold a context.
    pub fn has_project_contexts(file_names: &Vec<String>) -> (found: bool)
        ensures
            found == exists|i: int|
                0 <= i < file_names@.len() && context_of(#[trigger] views(file_names@)[i])
                    is Some,
    {
        let mut i: usize = 0;
        while i < file_names.len()
            invariant
                i <= file_names.len(),
                forall|j: int| 0 <= j < i ==> context_of(#[trigger] views(file_names@)[j]) is None,
            decreases file_names.len() - i,
        {
            if context_of_file(file_names[i].as_str()).is_some() {
                assert(context_of(views(file_names@)[i as int]) is Some);
                return true;
            }
            i += 1;
        }
        false
    }
}

/// Why a request about a context is refused.
#[derive(Debug, Clone, Copy, PartialEq, Eq, Structural)]
pub enum ContextError {
    /// No context may have the name asked for.
    InvalidName,
    /// A context of that name exists.
    AlreadyExists,
    /// No context of that name exists.
    NotFound,
}

/// Whether a context `name` may be made beside `contexts`: the name must be
/// valid, and new.
pub fn check_create(name: &str, contexts: &Vec<String>) -> (outcome: Result<(), ContextError>)
    ensures
        outcome == if !valid_name(name@) {
            Err::<(), ContextError>(ContextError::InvalidName)
        } else if views(contexts@).contains(name@) {
            Err(ContextError::AlreadyExists)
        } else {
            Ok(())
        },
{
    if !is_valid_name(name) {
        Err(ContextError::InvalidName)
    } else if contains_text(contexts, name) {
        Err(ContextError::AlreadyExists)
    } else {
        Ok(())
    }
}

/// Whether the context `old_name` of `contexts` may be renamed to
/// `new_name`: the new name must be valid, the context must exist, and the
/// new name must be new.
pub fn check_rename(old_name: &str, new_name: &str, contexts: &Vec<String>) -> (outcome: Result<
    (),
    ContextError,
>)
    ensures
        outcome == if !valid_name(new_name@) {
            Err::<(), ContextError>(ContextError::InvalidName)
        } else if !views(contexts@).contains(old_name@) {
            Err(ContextError::NotFound)
        } else if views(contexts@).contains(new_name@) {
            Err(ContextError::AlreadyExists)
        } else {
            Ok(())
        },
{
    if !is_valid_name(new_name) {
        Err(ContextError::InvalidName)
    } else if !contains_text(contexts, old_name) {
        Err(ContextError::NotFound)
    } else if contains_text(contexts, new_name) {
        Err(ContextError::AlreadyExists)
    } else {
        Ok(())
    }
}

/// Whether one can switch to the context `name`: it must be one of
/// `contexts`.
pub fn check_switch(name: &str, contexts: &Vec<String>) -> (outcome: Result<(), ContextError>)
    ensures
        outcome == if views(contexts@).contains(name@) {
            Ok::<(), ContextError>(())
        } else {
            Err(ContextError::NotFound)
        },
{
    if contains_text(contexts, name) {
        Ok(())
    } else {
        Err(ContextError::NotFound)
    }
}

/// What a merge takes its content from.
#[derive(Debug, Clone, Copy, PartialEq, Eq, Structural)]
pub enum SourceKind {
    /// The settings of the user.
    User,
    /// A file, named by its path.
    File,
    /// Another context, named by its name.
    Context,
}

/// What the word that names a source stands for: `user` for the user's
/// settings, a word that ends in `.json` for a file, any other for a context.
pub open spec fn source_kind(source: Seq<char>) -> SourceKind {
    if source == "user"@ {
        SourceKind::User
    } else if ".json"@.is_suffix_of(source) {
        SourceKind::File
    } else {
        SourceKind::Context
    }
}

/// What the word that names a source stands for.
pub fn classify_source(source: &str) -> (kind: SourceKind)
    ensures
        kind == source_kind(source@),
{
    if same_text(source, "user") {
        SourceKind::User
    } else if has_suffix(source, ".json") {
        SourceKind::File
    } else {
        SourceKind::Context
    }
}

/// Whether the target of a merge is the settings file in use, which the word
/// `current` names, and not a context.
pub fn targets_current(target: &str) -> (current: bool)
    ensures
        current == (target@ == "current"@),
{
    same_text(target, "current")
}

/// The name under which the history of a merge target is kept: the target's
/// own name, and for `current` the name of the active context, or `current`
/// where none is active.
pub fn history_context(target: &str, active: Option<String>) -> (name: String)
    ensures
        name@ == if target@ != "current"@ {
            target@
        } else {
            match active {
                Some(context) => context@,
                None => "current"@,
            }
        },
{
    if !same_text(target, "current") {
        target.to_owned()
    } else {
        match active {
            Some(context) => context,
            None => "current".to_owned(),
        }
    }
}

/// Whether an item of a full merge names a rule.
pub open spec fn names_rule(item: Seq<char>) -> bool {
    "permissions."@.is_prefix_of(item)
}

/// Whether an item of a full merge names a variable.
pub open spec fn names_variable(item: Seq<char>) -> bool {
    !names_rule(item) && "env:"@.is_prefix_of(item)
}

/// What a full merge added, by kind: how many rules, how many variables, and
/// which other settings.
pub struct MergeSummary {
    pub permissions: usize,
    pub variables: usize,
    pub settings: Vec<String>,
}

/// The summary of the items of a full merge.
pub fn summarize(items: &Vec<String>) -> (summary: MergeSummary)
    ensures
        summary.permissions == views(items@).filter(|item: Seq<char>| names_rule(item)).len(),
        summary.variables == views(items@).filter(|item: Seq<char>| names_variable(item)).len(),
        views(summary.settings@) == views(items@).filter(
            |item: Seq<char>| !names_rule(item) && !names_variable(item),
        ),
{
    let ghost all = views(items@);
    let ghost rule = |item: Seq<char>| names_rule(item);
    let ghost variable = |item: Seq<char>| names_variable(item);
    let ghost other = |item: Seq<char>| !names_rule(item) && !names_variable(item);
    let mut permissions: usize = 0;
    let mut variables: usize = 0;
    let mut settings: Vec<String> = Vec::new();
    let mut i: usize = 0;
    proof {
        reveal(Seq::filter);
        assert(all.take(0) =~= Seq::empty());
        assert(views(settings@) =~= all.take(0).filter(other));
    }
    while i < items.len()
        invariant
            i <= items.len(),
            all == views(items@),
            rule == |item: Seq<char>| names_rule(item),
            variable == |item: Seq<char>| names_variable(item),
            other == |item: Seq<char>| !names_rule(item) && !names_variable(item),
            permissions <= i,
            variables <= i,
            permissions == all.take(i as int).filter(rule).len(),
            variables == all.take(i as int).filter(variable).len(),
            views(settings@) == all.take(i as int).filter(other),
        decreases items.len() - i,
    {
        proof {
            reveal(Seq::filter);
            assert(all.take(i + 1).drop_last() =~= all.take(i as int));
            assert(all.take(i + 1).last() == items@[i as int]@);
        }
        if has_prefix(items[i].as_str(), "permissions.") {
            permissions += 1;
        } else if has_prefix(items[i].as_str(), "env:") {
            variables += 1;
        } else {
            let ghost before = settings@;
            settings.push(items[i].clone());
            assert(views(settings@) =~= views(before).push(items@[i as int]@));
        }
        i += 1;
    }
    assert(all.take(items.len() as int) =~= all);
    MergeSummary { permissions, variables, settings }
}

} // verus!
