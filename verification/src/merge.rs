//! The merge engine: what merging one settings document into another leaves,
//! and what the merge adds.

use vstd::prelude::*;
use std::path::PathBuf;
use crate::clock::now_rfc3339;
use crate::history::{MergeHistory, RecordView};
use crate::json::{
    find_member, has_key, lemma_view_list, lemma_view_object, list_view, member, members_view,
    put_member, with_member, Json, JsonValue,
};
use crate::lists::{added, merge_lists, merged_list, tag_all};
use crate::paths::{join_path, joined};
use crate::shape::{lemma_full_merge_well_formed, lemma_scoped_merge_well_formed, well_formed};
use crate::text::{same_text, tagged, views};

verus! {

/// The name of the file that keeps the merge history of a context.
pub open spec fn history_file_name(context_name: Seq<char>) -> Seq<char> {
    "."@ + context_name + "-merge-history.json"@
}

/// Merges settings documents, and undoes merges by their history. It knows
/// the directory in which the histories of the contexts are kept.
pub struct MergeManager {
    settings_dir: PathBuf,
}

/// Why a merge was refused. A refused merge leaves the target as it was.
#[derive(Debug, Clone, Copy, PartialEq, Eq, Structural)]
pub enum MergeError {
    /// The target is neither an object nor null.
    NotAnObject,
    /// The source offers a list of allowed rules, and what the target holds
    /// under `permissions.allow` is no list, or its permissions are no
    /// object. Permissions without a member `allow` are no such case: they
    /// take the rules as an empty list would.
    AllowNotArray,
    /// The source offers a list of denied rules, and what the target holds
    /// under `permissions.deny` is no list, or its permissions are no
    /// object. Permissions without a member `deny` are no such case.
    DenyNotArray,
}

/// The permissions that a target without any is given: no rule allowed, none
/// denied.
pub open spec fn default_permissions() -> JsonValue {
    JsonValue::Object(
        seq![
            ("allow"@, JsonValue::List(Seq::empty())),
            ("deny"@, JsonValue::List(Seq::empty())),
        ],
    )
}

/// The names of the two lists of rules differ.
pub proof fn lemma_allow_is_not_deny()
    ensures
        "allow"@ != "deny"@,
{
    reveal_strlit("allow");
    reveal_strlit("deny");
    assert("allow"@[0] != "deny"@[0]);
}

/// The names of the two members that a full merge adds to differ.
pub proof fn lemma_permissions_is_not_env()
    ensures
        "permissions"@ != "env"@,
{
    reveal_strlit("permissions");
    reveal_strlit("env");
    assert("permissions"@.len() != "env"@.len());
}

/// The list that a source's permissions offer under `name`.
pub open spec fn offered_list(offered: JsonValue, name: Seq<char>) -> Option<Seq<JsonValue>> {
    match offered.get(name) {
        Some(JsonValue::List(list)) => Some(list),
        _ => None,
    }
}

/// The list that permissions hold under `name`, into which an offered list
/// is merged: the list that is there, and the empty list where the
/// permissions are an object without a member `name`. There is none where
/// the member is no list, and where the permissions are no object.
pub open spec fn held_list(permissions: JsonValue, name: Seq<char>) -> Option<Seq<JsonValue>> {
    match permissions {
        JsonValue::Object(members) => match member(members, name) {
            Some(JsonValue::List(have)) => Some(have),
            Some(_) => None,
            None => Some(Seq::empty()),
        },
        _ => None,
    }
}

/// Permissions after the offered list was merged into their list `name`, with
/// the strings that this added. Permissions that are an object without a
/// member `name` take the offered list as into an empty list. The result is
/// `None` where a list is offered and what the permissions hold under `name`
/// is no list, or the permissions are no object.
pub open spec fn list_merged(
    permissions: JsonValue,
    offered: Option<Seq<JsonValue>>,
    name: Seq<char>,
) -> Option<(JsonValue, Seq<Seq<char>>)> {
    match offered {
        None => Some((permissions, Seq::empty())),
        Some(list) => match held_list(permissions, name) {
            Some(have) => Some(
                (
                    JsonValue::Object(
                        with_member(
                            permissions->Object_0,
                            name,
                            JsonValue::List(merged_list(have, list)),
                        ),
                    ),
                    added(have, list),
                ),
            ),
            None => None,
        },
    }
}

/// Permissions after the allowed and then the denied rules of `offered` were
/// merged into them, with one item for each rule added: the rule behind
/// `allow_tag` or `deny_tag`.
pub open spec fn permissions_merged(
    permissions: JsonValue,
    offered: JsonValue,
    allow_tag: Seq<char>,
    deny_tag: Seq<char>,
) -> Result<(JsonValue, Seq<Seq<char>>), MergeError> {
    match list_merged(permissions, offered_list(offered, "allow"@), "allow"@) {
        None => Err(MergeError::AllowNotArray),
        Some((allowed, allow_new)) => match list_merged(
            allowed,
            offered_list(offered, "deny"@),
            "deny"@,
        ) {
            None => Err(MergeError::DenyNotArray),
            Some((merged, deny_new)) => Ok(
                (merged, tag_all(allow_tag, allow_new) + tag_all(deny_tag, deny_new)),
            ),
        },
    }
}

/// The members of a target: those of an object, none for null.
pub open spec fn target_members(target: JsonValue) -> Option<Seq<(Seq<char>, JsonValue)>> {
    match target {
        JsonValue::Object(members) => Some(members),
        JsonValue::Null => Some(Seq::empty()),
        _ => None,
    }
}

/// The value under `key`, or `absent` where there is none.
pub open spec fn member_or(
    members: Seq<(Seq<char>, JsonValue)>,
    key: Seq<char>,
    absent: JsonValue,
) -> JsonValue {
    match member(members, key) {
        Some(value) => value,
        None => absent,
    }
}

/// What a merge of the permissions of `source` into `target` leaves, and the
/// items it adds: `allow:` or `deny:` before each rule added.
pub open spec fn scoped_merge(target: JsonValue, source: JsonValue) -> Result<
    (JsonValue, Seq<Seq<char>>),
    MergeError,
> {
    match target_members(target) {
        None => Err(MergeError::NotAnObject),
        Some(members) => match permissions_merged(
            member_or(members, "permissions"@, default_permissions()),
            match source.get("permissions"@) {
                Some(offered) => offered,
                None => JsonValue::Null,
            },
            "allow:"@,
            "deny:"@,
        ) {
            Err(e) => Err(e),
            Ok((permissions, items)) => Ok(
                (JsonValue::Object(with_member(members, "permissions"@, permissions)), items),
            ),
        },
    }
}

/// The members of a target's `env` after those of the source's `env` were
/// merged into them, with the keys added: a member comes in where the target
/// has none under its key, and no member of the target changes.
pub open spec fn env_merged(
    have: Seq<(Seq<char>, JsonValue)>,
    offered: Seq<(Seq<char>, JsonValue)>,
) -> (Seq<(Seq<char>, JsonValue)>, Seq<Seq<char>>)
    decreases offered.len(),
{
    if offered.len() == 0 {
        (have, Seq::empty())
    } else {
        let before = env_merged(have, offered.drop_last());
        if has_key(before.0, offered.last().0) {
            before
        } else {
            (before.0.push(offered.last()), before.1.push(offered.last().0))
        }
    }
}

/// The members of a target after one member of the source was merged into
/// them, with the items that this added.
///
/// Under `permissions`, the rules are merged as in a merge of the permissions
/// alone, and an item is `permissions.allow:` or `permissions.deny:` before
/// the rule. Under `env`, where both sides hold an object, the variables that
/// the target lacks come in, and an item is `env:` before the name. Any other
/// member comes in where the target has none under its key, and the item is
/// the key; a member that the target has stays as it is.
pub open spec fn full_step(
    members: Seq<(Seq<char>, JsonValue)>,
    key: Seq<char>,
    value: JsonValue,
) -> Result<(Seq<(Seq<char>, JsonValue)>, Seq<Seq<char>>), MergeError> {
    if key == "permissions"@ {
        match permissions_merged(
            member_or(members, key, default_permissions()),
            value,
            "permissions.allow:"@,
            "permissions.deny:"@,
        ) {
            Err(e) => Err(e),
            Ok((permissions, items)) => Ok((with_member(members, key, permissions), items)),
        }
    } else if key == "env"@ {
        match (value, member_or(members, key, JsonValue::Object(Seq::empty()))) {
            (JsonValue::Object(offered), JsonValue::Object(have)) => Ok(
                (
                    with_member(members, key, JsonValue::Object(env_merged(have, offered).0)),
                    tag_all("env:"@, env_merged(have, offered).1),
                ),
            ),
            _ => Ok((members, Seq::empty())),
        }
    } else if has_key(members, key) {
        Ok((members, Seq::empty()))
    } else {
        Ok((members.push((key, value)), seq![key]))
    }
}

/// The members of a target after the members of the source were merged into
/// them one by one, in their order, with the items added in that order.
pub open spec fn full_fold(
    members: Seq<(Seq<char>, JsonValue)>,
    offered: Seq<(Seq<char>, JsonValue)>,
) -> Result<(Seq<(Seq<char>, JsonValue)>, Seq<Seq<char>>), MergeError>
    decreases offered.len(),
{
    if offered.len() == 0 {
        Ok((members, Seq::empty()))
    } else {
        match full_fold(members, offered.drop_last()) {
            Err(e) => Err(e),
            Ok((before, items)) => match full_step(before, offered.last().0, offered.last().1) {
                Err(e) => Err(e),
                Ok((merged, new)) => Ok((merged, items + new)),
            },
        }
    }
}

/// What a full merge of `source` into `target` leaves, and the items it
/// adds. Unless both are objects, nothing changes.
pub open spec fn full_merge(target: JsonValue, source: JsonValue) -> Result<
    (JsonValue, Seq<Seq<char>>),
    MergeError,
> {
    match (target, source) {
        (JsonValue::Object(members), JsonValue::Object(offered)) => match full_fold(
            members,
            offered,
        ) {
            Err(e) => Err(e),
            Ok((merged, items)) => Ok((JsonValue::Object(merged), items)),
        },
        _ => Ok((target, Seq::empty())),
    }
}

/// A fold that is refused after some members stays refused, with the same
/// reason, however many members follow.
pub proof fn lemma_fold_refused(
    members: Seq<(Seq<char>, JsonValue)>,
    offered: Seq<(Seq<char>, JsonValue)>,
    n: int,
)
    requires
        0 <= n <= offered.len(),
        full_fold(members, offered.take(n)) is Err,
    ensures
        full_fold(members, offered) == full_fold(members, offered.take(n)),
    decreases offered.len(),
{
    if n < offered.len() {
        assert(offered.drop_last().take(n) =~= offered.take(n));
        lemma_fold_refused(members, offered.drop_last(), n);
    } else {
        assert(offered.take(n) =~= offered);
    }
}

/// Permissions with no rule allowed and none denied.
fn empty_permissions() -> (permissions: Json)
    ensures
        permissions@ == default_permissions(),
{
    let mut members: Vec<(String, Json)> = Vec::new();
    let allow: Vec<Json> = Vec::new();
    let deny: Vec<Json> = Vec::new();
    proof {
        lemma_view_list(allow);
        lemma_view_list(deny);
        assert(list_view(allow@) =~= Seq::empty());
        assert(list_view(deny@) =~= Seq::empty());
    }
    members.push(("allow".to_owned(), Json::List(allow)));
    members.push(("deny".to_owned(), Json::List(deny)));
    proof {
        lemma_view_object(members);
        assert(members_view(members@) =~= default_permissions()->Object_0);
    }
    Json::Object(members)
}

/// Appends each of `strings`, with `tag` in front, to `items`.
fn push_tagged(items: &mut Vec<String>, tag: &str, strings: &Vec<String>)
    ensures
        views(final(items)@) == views(old(items)@) + tag_all(tag@, views(strings@)),
{
    let mut i: usize = 0;
    assert(views(items@) =~= views(old(items)@) + tag_all(tag@, views(strings@)).take(0));
    while i < strings.len()
        invariant
            i <= strings.len(),
            views(items@) == views(old(items)@) + tag_all(tag@, views(strings@)).take(i as int),
        decreases strings.len() - i,
    {
        let ghost before = items@;
        items.push(tagged(tag, strings[i].as_str()));
        proof {
            let all = tag_all(tag@, views(strings@));
            assert(views(items@) =~= views(before).push(all[i as int]));
            assert(all.take(i + 1) =~= all.take(i as int).push(all[i as int]));
            assert(views(items@) =~= views(old(items)@) + all.take(i + 1));
        }
        i += 1;
    }
    assert(tag_all(tag@, views(strings@)).take(strings.len() as int) =~= tag_all(
        tag@,
        views(strings@),
    ));
}

/// Merges the list that `offered` holds under `name` into the list that
/// `permissions` hold under it, and returns the strings added. Without an
/// offered list nothing changes. With one, permissions that have no member
/// `name` get the list; where the member is no list, or the permissions are
/// no object, the result is `None` and nothing changes.
fn merge_named_list(permissions: &mut Json, offered: &Json, name: &str) -> (new: Option<
    Vec<String>,
>)
    ensures
        match list_merged(old(permissions)@, offered_list(offered@, name@), name@) {
            Some((merged, strings)) => new is Some && final(permissions)@ == merged && views(
                new->0@,
            ) == strings,
            None => new is None && final(permissions)@ == old(permissions)@,
        },
{
    let list: &Vec<Json> = match offered.get(name) {
        Some(Json::List(list)) => {
            proof {
                lemma_view_list(*list);
            }
            list
        },
        _ => {
            let none: Vec<String> = Vec::new();
            assert(views(none@) =~= Seq::empty());
            return Some(none);
        },
    };
    match permissions {
        Json::Object(members) => {
            proof {
                lemma_view_object(*members);
            }
            let merged: (Vec<Json>, Vec<String>) = match find_member(members, name) {
                Some(i) => match &members[i].1 {
                    Json::List(have) => {
                        proof {
                            lemma_view_list(*have);
                        }
                        merge_lists(have, list)
                    },
                    _ => {
                        return None;
                    },
                },
                None => {
                    let none: Vec<Json> = Vec::new();
                    assert(list_view(none@) =~= Seq::empty());
                    merge_lists(&none, list)
                },
            };
            proof {
                lemma_view_list(merged.0);
            }
            put_member(members, name, Json::List(merged.0));
            proof {
                lemma_view_object(*members);
            }
            Some(merged.1)
        },
        _ => None,
    }
}

/// Merges the allowed and then the denied rules of `offered` into
/// `permissions`, and returns one item for each rule added.
fn merge_rules(permissions: &mut Json, offered: &Json, allow_tag: &str, deny_tag: &str) -> (items:
    Result<Vec<String>, MergeError>)
    ensures
        match permissions_merged(old(permissions)@, offered@, allow_tag@, deny_tag@) {
            Ok((merged, new)) => items is Ok && final(permissions)@ == merged && views(
                items->Ok_0@,
            ) == new,
            Err(e) => items == Err::<Vec<String>, MergeError>(e),
        },
{
    let allow_new = match merge_named_list(permissions, offered, "allow") {
        Some(strings) => strings,
        None => {
            return Err(MergeError::AllowNotArray);
        },
    };
    let deny_new = match merge_named_list(permissions, offered, "deny") {
        Some(strings) => strings,
        None => {
            return Err(MergeError::DenyNotArray);
        },
    };
    let mut items: Vec<String> = Vec::new();
    assert(views(items@) =~= Seq::empty());
    push_tagged(&mut items, allow_tag, &allow_new);
    push_tagged(&mut items, deny_tag, &deny_new);
    Ok(items)
}

/// Merges the members of a source's `env` into those of the target's, and
/// returns the keys added.
fn merge_env(have: &mut Vec<(String, Json)>, offered: &Vec<(String, Json)>) -> (names: Vec<String>)
    ensures
        members_view(final(have)@) == env_merged(
            members_view(old(have)@),
            members_view(offered@),
        ).0,
        views(names@) == env_merged(members_view(old(have)@), members_view(offered@)).1,
{
    let ghost start = members_view(have@);
    let ghost all = members_view(offered@);
    let mut names: Vec<String> = Vec::new();
    let mut i: usize = 0;
    assert(views(names@) =~= Seq::empty());
    assert(all.take(0) =~= Seq::empty());
    while i < offered.len()
        invariant
            i <= offered.len(),
            all == members_view(offered@),
            members_view(have@) == env_merged(start, all.take(i as int)).0,
            views(names@) == env_merged(start, all.take(i as int)).1,
        decreases offered.len() - i,
    {
        proof {
            assert(all.take(i + 1).drop_last() =~= all.take(i as int));
            assert(all.take(i + 1).last() == all[i as int]);
        }
        if find_member(have, offered[i].0.as_str()).is_none() {
            let ghost have_before = have@;
            let ghost names_before = names@;
            have.push((offered[i].0.clone(), offered[i].1.clone()));
            names.push(offered[i].0.clone());
            proof {
                assert(members_view(have@) =~= members_view(have_before).push(all[i as int]));
                assert(views(names@) =~= views(names_before).push(all[i as int].0));
            }
        }
        i += 1;
    }
    assert(all.take(offered.len() as int) =~= all);
    names
}

/// Merges one member of a source into the members of a target, and appends
/// the items that this adds to `items`. Where the merge is refused, the
/// members may be left half merged.
fn merge_member(
    members: &mut Vec<(String, Json)>,
    key: &String,
    value: &Json,
    items: &mut Vec<String>,
) -> (outcome: Result<(), MergeError>)
    ensures
        match full_step(members_view(old(members)@), key@, value@) {
            Ok((merged, new)) => outcome is Ok && members_view(final(members)@) == merged
                && views(final(items)@) == views(old(items)@) + new,
            Err(e) => outcome is Err && outcome->Err_0 == e,
        },
{
    let found = find_member(members, key.as_str());
    if same_text(key.as_str(), "permissions") {
        let mut permissions: Json = match found {
            Some(i) => members[i].1.clone(),
            None => empty_permissions(),
        };
        let new = match merge_rules(
            &mut permissions,
            value,
            "permissions.allow:",
            "permissions.deny:",
        ) {
            Ok(new) => new,
            Err(e) => {
                return Err(e);
            },
        };
        put_member(members, key.as_str(), permissions);
        push_all(items, new);
    } else if same_text(key.as_str(), "env") {
        let offered: &Vec<(String, Json)> = match value {
            Json::Object(offered) => {
                proof {
                    lemma_view_object(*offered);
                }
                offered
            },
            _ => {
                assert(views(items@) =~= views(old(items)@) + Seq::empty());
                return Ok(());
            },
        };
        let env: Json = match found {
            Some(i) => members[i].1.clone(),
            None => {
                let none: Vec<(String, Json)> = Vec::new();
                proof {
                    lemma_view_object(none);
                    assert(members_view(none@) =~= Seq::empty());
                }
                Json::Object(none)
            },
        };
        match env {
            Json::Object(mut have) => {
                proof {
                    lemma_view_object(have);
                }
                let names = merge_env(&mut have, offered);
                proof {
                    lemma_view_object(have);
                }
                put_member(members, key.as_str(), Json::Object(have));
                push_tagged(items, "env:", &names);
            },
            _ => {
                assert(views(items@) =~= views(old(items)@) + Seq::empty());
            },
        }
    } else if found.is_none() {
        let ghost members_before = members@;
        let ghost items_before = items@;
        members.push((key.clone(), value.clone()));
        items.push(key.clone());
        proof {
            assert(members_view(members@) =~= members_view(members_before).push((key@, value@)));
            assert(views(items@) =~= views(items_before) + seq![key@]);
        }
    } else {
        assert(views(items@) =~= views(old(items)@) + Seq::empty());
    }
    Ok(())
}

/// Appends `new` to `items`.
fn push_all(items: &mut Vec<String>, new: Vec<String>)
    ensures
        views(final(items)@) == views(old(items)@) + views(new@),
{
    let mut new = new;
    let ghost added = new@;
    items.append(&mut new);
    assert(views(items@) =~= views(old(items)@) + views(added));
}

impl MergeManager {
    /// The directory that the manager was made for.
    pub closed spec fn settings_dir(&self) -> PathBuf {
        self.settings_dir
    }

    /// A manager for the histories kept in `settings_dir`.
    pub fn new(settings_dir: PathBuf) -> (manager: Self)
        ensures
            manager.settings_dir() == settings_dir,
    {
        Self { settings_dir }
    }

    /// The path of the file that keeps the merge history of `context_name`.
    pub fn get_history_path(&self, context_name: &str) -> (path: PathBuf)
        ensures
            path == joined(self.settings_dir(), history_file_name(context_name@)),
    {
        let name = tagged(tagged(".", context_name).as_str(), "-merge-history.json");
        join_path(&self.settings_dir, name.as_str())
    }

    /// Merges the allowed and denied rules of `source` into `target`, and
    /// returns the record of the merge, made at `timestamp`. A target
    /// without permissions is first given empty ones. Each list that
    /// `source` offers is merged as a set of strings into the target's list
    /// of the same name, which then holds each string once; permissions
    /// that lack the list take the rules as an empty list would. The merge
    /// is refused where what the target holds in the list's place is no
    /// list. A well-formed target stays well formed.
    pub fn merge_permissions_at(
        &self,
        target: &mut Json,
        source: &Json,
        source_name: &str,
        timestamp: String,
    ) -> (outcome: Result<MergeHistory, MergeError>)
        ensures
            match scoped_merge(old(target)@, source@) {
                Ok((merged, items)) => outcome is Ok && final(target)@ == merged
                    && outcome->Ok_0@ == (RecordView {
                    source: source_name@,
                    timestamp: timestamp@,
                    merged_items: items,
                    full_merge: false,
                }),
                Err(e) => outcome is Err && outcome->Err_0 == e && final(target)@ == old(
                    target,
                )@,
            },
            well_formed(old(target)@) ==> well_formed(final(target)@),
    {
        let mut permissions: Json = match &*target {
            Json::Object(members) => {
                proof {
                    lemma_view_object(*members);
                }
                match find_member(members, "permissions") {
                    Some(i) => members[i].1.clone(),
                    None => empty_permissions(),
                }
            },
            Json::Null => empty_permissions(),
            _ => {
                return Err(MergeError::NotAnObject);
            },
        };
        let null = Json::Null;
        let offered: &Json = match source.get("permissions") {
            Some(offered) => offered,
            None => &null,
        };
        let items = match merge_rules(&mut permissions, offered, "allow:", "deny:") {
            Ok(items) => items,
            Err(e) => {
                return Err(e);
            },
        };
        match target {
            Json::Object(members) => {
                put_member(members, "permissions", permissions);
                proof {
                    lemma_view_object(*members);
                }
            },
            _ => {
                let mut members: Vec<(String, Json)> = Vec::new();
                assert(members_view(members@) =~= Seq::empty());
                put_member(&mut members, "permissions", permissions);
                proof {
                    lemma_view_object(members);
                }
                *target = Json::Object(members);
            },
        }
        proof {
            if well_formed(old(target)@) {
                lemma_scoped_merge_well_formed(old(target)@, source@);
            }
        }
        Ok(
            MergeHistory {
                source: source_name.to_owned(),
                timestamp,
                merged_items: items,
                full_merge: false,
            },
        )
    }

    /// Merges the allowed and denied rules of `source` into `target`, as
    /// [`MergeManager::merge_permissions_at`] does, and stamps the record
    /// with the time of the call.
    pub fn merge_permissions(&self, target: &mut Json, source: &Json, source_name: &str) -> (outcome:
        Result<MergeHistory, MergeError>)
        ensures
            match scoped_merge(old(target)@, source@) {
                Ok((merged, items)) => outcome is Ok && final(target)@ == merged
                    && outcome->Ok_0@.source == source_name@ && outcome->Ok_0@.merged_items
                    == items && !outcome->Ok_0@.full_merge,
                Err(e) => outcome is Err && outcome->Err_0 == e && final(target)@ == old(
                    target,
                )@,
            },
            well_formed(old(target)@) ==> well_formed(final(target)@),
    {
        self.merge_permissions_at(target, source, source_name, now_rfc3339())
    }

    /// Merges every member of `source` into `target`, and returns the
    /// record of the merge, made at `timestamp`. A member that the target
    /// has is never replaced: the rules under `permissions` and the
    /// variables under `env` are added to, and everything else that the
    /// target has stays as it is. Where target and source are well formed,
    /// the target stays so.
    pub fn merge_full_at(
        &self,
        target: &mut Json,
        source: &Json,
        source_name: &str,
        timestamp: String,
    ) -> (outcome: Result<MergeHistory, MergeError>)
        ensures
            match full_merge(old(target)@, source@) {
                Ok((merged, items)) => outcome is Ok && final(target)@ == merged
                    && outcome->Ok_0@ == (RecordView {
                    source: source_name@,
                    timestamp: timestamp@,
                    merged_items: items,
                    full_merge: true,
                }),
                Err(e) => outcome is Err && outcome->Err_0 == e && final(target)@ == old(
                    target,
                )@,
            },
            well_formed(old(target)@) && well_formed(source@) ==> well_formed(final(target)@),
    {
        let mut items: Vec<String> = Vec::new();
        assert(views(items@) =~= Seq::empty());
        if let Json::Object(offered) = source {
            if let Json::Object(mut members) = target.clone() {
                let ghost start = members_view(members@);
                let ghost all = members_view(offered@);
                proof {
                    lemma_view_object(*offered);
                    lemma_view_object(members);
                    assert(all.take(0) =~= Seq::empty());
                }
                let mut i: usize = 0;
                while i < offered.len()
                    invariant
                        i <= offered.len(),
                        all == members_view(offered@),
                        source@ == JsonValue::Object(all),
                        old(target)@ == JsonValue::Object(start),
                        target@ == old(target)@,
                        full_fold(start, all.take(i as int)) == Ok::<
                            (Seq<(Seq<char>, JsonValue)>, Seq<Seq<char>>),
                            MergeError,
                        >((members_view(members@), views(items@))),
                    decreases offered.len() - i,
                {
                    proof {
                        assert(all.take(i + 1).drop_last() =~= all.take(i as int));
                        assert(all.take(i + 1).last() == all[i as int]);
                    }
                    let ghost before = full_fold(start, all.take(i as int));
                    match merge_member(&mut members, &offered[i].0, &offered[i].1, &mut items) {
                        Ok(()) => {},
                        Err(e) => {
                            proof {
                                assert(full_step(before->Ok_0.0, all[i as int].0, all[i as int].1)
                                    is Err);
                                assert(full_fold(start, all.take(i + 1)) is Err);
                                lemma_fold_refused(start, all, i + 1);
                            }
                            return Err(e);
                        },
                    }
                    i += 1;
                }
                proof {
                    assert(all.take(offered.len() as int) =~= all);
                    lemma_view_object(members);
                }
                *target = Json::Object(members);
            }
        }
        proof {
            if well_formed(old(target)@) && well_formed(source@) {
                lemma_full_merge_well_formed(old(target)@, source@);
            }
        }
        Ok(
            MergeHistory {
                source: source_name.to_owned(),
                timestamp,
                merged_items: items,
                full_merge: true,
            },
        )
    }

    /// Merges every member of `source` into `target`, as
    /// [`MergeManager::merge_full_at`] does, and stamps the record with the
    /// time of the call.
    pub fn merge_full(&self, target: &mut Json, source: &Json, source_name: &str) -> (outcome:
        Result<MergeHistory, MergeError>)
        ensures
            match full_merge(old(target)@, source@) {
                Ok((merged, items)) => outcome is Ok && final(target)@ == merged
                    && outcome->Ok_0@.source == source_name@ && outcome->Ok_0@.merged_items
                    == items && outcome->Ok_0@.full_merge,
                Err(e) => outcome is Err && outcome->Err_0 == e && final(target)@ == old(
                    target,
                )@,
            },
            well_formed(old(target)@) && well_formed(source@) ==> well_formed(final(target)@),
    {
        self.merge_full_at(target, source, source_name, now_rfc3339())
    }
}

} // verus!
