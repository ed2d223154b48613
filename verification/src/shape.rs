//! Well-formed documents: no object names a key twice. Merging and
//! unmerging keep documents well formed.

use vstd::prelude::*;
use crate::json::{
    distinct_keys, has_key, key_index, lemma_key_index, member, with_member, JsonValue,
};
use crate::lists::{merged_list, text_list};
use crate::merge::{
    default_permissions, env_merged, full_fold, full_merge, full_step, held_list,
    lemma_allow_is_not_deny, list_merged, member_or, offered_list, permissions_merged,
    scoped_merge, target_members,
};
use crate::unmerge::{
    full_unmerge, keys_without, list_without, members_without, rules_without, scoped_unmerge,
    variables_without,
};

verus! {

/// Whether no object of the document, at any depth, names a key twice.
pub open spec fn well_formed(value: JsonValue) -> bool
    decreases value,
{
    match value {
        JsonValue::List(items) => forall|i: int|
            0 <= i < items.len() ==> well_formed(#[trigger] items[i]),
        JsonValue::Object(members) => distinct_keys(members) && forall|i: int|
            0 <= i < members.len() ==> well_formed((#[trigger] members[i]).1),
        _ => true,
    }
}

/// A list is well formed exactly where each of its items is.
pub proof fn lemma_list_well_formed(list: Seq<JsonValue>)
    ensures
        well_formed(JsonValue::List(list)) <==> forall|i: int|
            0 <= i < list.len() ==> well_formed(#[trigger] list[i]),
{
    if well_formed(JsonValue::List(list)) {
        assert forall|i: int| 0 <= i < list.len() implies well_formed(#[trigger] list[i]) by {
            assert(JsonValue::List(list)->List_0[i] == list[i]);
        }
    }
}

/// Members have a key exactly where one of them holds it.
pub proof fn lemma_has_key(members: Seq<(Seq<char>, JsonValue)>, key: Seq<char>)
    ensures
        has_key(members, key) <==> exists|i: int|
            0 <= i < members.len() && (#[trigger] members[i]).0 == key,
{
    lemma_key_index(members, key);
    if has_key(members, key) {
        assert(members[key_index(members, key)].0 == key);
    }
}

/// What is found in a well-formed object is well formed.
pub proof fn lemma_member_well_formed(members: Seq<(Seq<char>, JsonValue)>, key: Seq<char>)
    requires
        well_formed(JsonValue::Object(members)),
        has_key(members, key),
    ensures
        well_formed(member(members, key)->0),
{
    lemma_key_index(members, key);
    assert(well_formed(members[key_index(members, key)].1));
}

/// A well-formed object stays well formed when a well-formed value is put
/// under a key.
pub proof fn lemma_with_member_well_formed(
    members: Seq<(Seq<char>, JsonValue)>,
    key: Seq<char>,
    value: JsonValue,
)
    requires
        well_formed(JsonValue::Object(members)),
        well_formed(value),
    ensures
        well_formed(JsonValue::Object(with_member(members, key, value))),
{
    let put = with_member(members, key, value);
    lemma_key_index(members, key);
    assert forall|i: int, j: int| 0 <= i < j < put.len() implies (#[trigger] put[i]).0 != (
    #[trigger] put[j]).0 by {
        if has_key(members, key) {
            assert(put[i].0 == members[i].0);
            assert(put[j].0 == members[j].0);
        } else if j == members.len() {
            assert(members[i].0 != key);
        } else {
            assert(put[i] == members[i]);
            assert(put[j] == members[j]);
        }
    }
    assert forall|i: int| 0 <= i < put.len() implies well_formed((#[trigger] put[i]).1) by {
        if i < members.len() && put[i] == members[i] {
            assert(well_formed(members[i].1));
        }
    }
}

/// A well-formed object stays well formed when a well-formed member with a
/// new key comes in at the end.
pub proof fn lemma_push_well_formed(
    members: Seq<(Seq<char>, JsonValue)>,
    entry: (Seq<char>, JsonValue),
)
    requires
        well_formed(JsonValue::Object(members)),
        well_formed(entry.1),
        !has_key(members, entry.0),
    ensures
        well_formed(JsonValue::Object(members.push(entry))),
{
    let more = members.push(entry);
    lemma_key_index(members, entry.0);
    assert forall|i: int, j: int| 0 <= i < j < more.len() implies (#[trigger] more[i]).0 != (
    #[trigger] more[j]).0 by {
        if j == members.len() {
            assert(members[i].0 != entry.0);
        } else {
            assert(more[i] == members[i]);
            assert(more[j] == members[j]);
        }
    }
    assert forall|i: int| 0 <= i < more.len() implies well_formed((#[trigger] more[i]).1) by {
        if i < members.len() {
            assert(well_formed(members[i].1));
        }
    }
}

/// A list of strings is well formed.
pub proof fn lemma_text_list_well_formed(strings: Seq<Seq<char>>)
    ensures
        well_formed(JsonValue::List(text_list(strings))),
{
    let list = text_list(strings);
    assert forall|i: int| 0 <= i < list.len() implies well_formed(#[trigger] list[i]) by {
        assert(list[i] == JsonValue::Text(strings[i]));
    }
    lemma_list_well_formed(list);
}

/// The permissions that a target without any is given are well formed.
pub proof fn lemma_default_well_formed()
    ensures
        well_formed(default_permissions()),
{
    let members = default_permissions()->Object_0;
    lemma_allow_is_not_deny();
    lemma_text_list_well_formed(Seq::empty());
    assert(text_list(Seq::empty()) =~= Seq::<JsonValue>::empty());
    assert forall|i: int| 0 <= i < members.len() implies well_formed((#[trigger] members[i]).1) by {
        assert(members[i].1 == JsonValue::List(Seq::empty()));
    }
}

/// Merging a list into well-formed permissions leaves them well formed.
pub proof fn lemma_list_merged_well_formed(
    permissions: JsonValue,
    offered: Option<Seq<JsonValue>>,
    name: Seq<char>,
)
    requires
        well_formed(permissions),
        list_merged(permissions, offered, name) is Some,
    ensures
        well_formed((list_merged(permissions, offered, name)->0).0),
{
    if let Some(list) = offered {
        let have = held_list(permissions, name)->0;
        lemma_text_list_well_formed(crate::lists::merged_texts(have, list));
        lemma_with_member_well_formed(
            permissions->Object_0,
            name,
            JsonValue::List(merged_list(have, list)),
        );
    }
}

/// Merging the rules of a source into well-formed permissions leaves them
/// well formed.
pub proof fn lemma_permissions_merged_well_formed(
    permissions: JsonValue,
    offered: JsonValue,
    allow_tag: Seq<char>,
    deny_tag: Seq<char>,
)
    requires
        well_formed(permissions),
        permissions_merged(permissions, offered, allow_tag, deny_tag) is Ok,
    ensures
        well_formed((permissions_merged(permissions, offered, allow_tag, deny_tag)->Ok_0).0),
{
    let allow = offered_list(offered, "allow"@);
    let deny = offered_list(offered, "deny"@);
    lemma_list_merged_well_formed(permissions, allow, "allow"@);
    lemma_list_merged_well_formed((list_merged(permissions, allow, "allow"@)->0).0, deny, "deny"@);
}

/// A merge of permissions leaves a well-formed target well formed, whatever
/// the source is.
pub proof fn lemma_scoped_merge_well_formed(target: JsonValue, source: JsonValue)
    requires
        well_formed(target),
        scoped_merge(target, source) is Ok,
    ensures
        well_formed((scoped_merge(target, source)->Ok_0).0),
{
    let members = target_members(target)->0;
    let offered = match source.get("permissions"@) {
        Some(offered) => offered,
        None => JsonValue::Null,
    };
    let before = member_or(members, "permissions"@, default_permissions());
    lemma_default_well_formed();
    if has_key(members, "permissions"@) {
        lemma_member_well_formed(members, "permissions"@);
    }
    lemma_permissions_merged_well_formed(before, offered, "allow:"@, "deny:"@);
    assert(well_formed(JsonValue::Object(members)));
    lemma_with_member_well_formed(
        members,
        "permissions"@,
        (permissions_merged(before, offered, "allow:"@, "deny:"@)->Ok_0).0,
    );
}

/// Merging well-formed variables into well-formed variables leaves them
/// well formed.
pub proof fn lemma_env_merged_well_formed(
    have: Seq<(Seq<char>, JsonValue)>,
    offered: Seq<(Seq<char>, JsonValue)>,
)
    requires
        well_formed(JsonValue::Object(have)),
        forall|i: int| 0 <= i < offered.len() ==> well_formed((#[trigger] offered[i]).1),
    ensures
        well_formed(JsonValue::Object(env_merged(have, offered).0)),
    decreases offered.len(),
{
    if offered.len() > 0 {
        let rest = offered.drop_last();
        assert forall|i: int| 0 <= i < rest.len() implies well_formed((#[trigger] rest[i]).1) by {
            assert(rest[i] == offered[i]);
        }
        lemma_env_merged_well_formed(have, rest);
        assert(offered.last() == offered[offered.len() - 1]);
        if !has_key(env_merged(have, rest).0, offered.last().0) {
            lemma_push_well_formed(env_merged(have, rest).0, offered.last());
        }
    }
}

/// Merging a well-formed member into a well-formed target leaves the target
/// well formed.
pub proof fn lemma_step_well_formed(
    members: Seq<(Seq<char>, JsonValue)>,
    key: Seq<char>,
    value: JsonValue,
)
    requires
        well_formed(JsonValue::Object(members)),
        well_formed(value),
        full_step(members, key, value) is Ok,
    ensures
        well_formed(JsonValue::Object((full_step(members, key, value)->Ok_0).0)),
{
    if key == "permissions"@ {
        let before = member_or(members, key, default_permissions());
        lemma_default_well_formed();
        if has_key(members, key) {
            lemma_member_well_formed(members, key);
        }
        lemma_permissions_merged_well_formed(
            before,
            value,
            "permissions.allow:"@,
            "permissions.deny:"@,
        );
        lemma_with_member_well_formed(
            members,
            key,
            (permissions_merged(before, value, "permissions.allow:"@, "permissions.deny:"@)->Ok_0).0,
        );
    } else if key == "env"@ {
        match (value, member_or(members, key, JsonValue::Object(Seq::empty()))) {
            (JsonValue::Object(offered), JsonValue::Object(have)) => {
                if has_key(members, key) {
                    lemma_member_well_formed(members, key);
                }
                lemma_env_merged_well_formed(have, offered);
                lemma_with_member_well_formed(
                    members,
                    key,
                    JsonValue::Object(env_merged(have, offered).0),
                );
            },
            _ => {},
        }
    } else if !has_key(members, key) {
        lemma_push_well_formed(members, (key, value));
    }
}

/// Merging well-formed members into a well-formed target leaves the target
/// well formed.
pub proof fn lemma_fold_well_formed(
    members: Seq<(Seq<char>, JsonValue)>,
    offered: Seq<(Seq<char>, JsonValue)>,
)
    requires
        well_formed(JsonValue::Object(members)),
        forall|i: int| 0 <= i < offered.len() ==> well_formed((#[trigger] offered[i]).1),
        full_fold(members, offered) is Ok,
    ensures
        well_formed(JsonValue::Object((full_fold(members, offered)->Ok_0).0)),
    decreases offered.len(),
{
    if offered.len() > 0 {
        let rest = offered.drop_last();
        assert forall|i: int| 0 <= i < rest.len() implies well_formed((#[trigger] rest[i]).1) by {
            assert(rest[i] == offered[i]);
        }
        lemma_fold_well_formed(members, rest);
        assert(offered.last() == offered[offered.len() - 1]);
        lemma_step_well_formed(
            (full_fold(members, rest)->Ok_0).0,
            offered.last().0,
            offered.last().1,
        );
    }
}

/// A full merge of a well-formed source into a well-formed target leaves
/// the target well formed.
pub proof fn lemma_full_merge_well_formed(target: JsonValue, source: JsonValue)
    requires
        well_formed(target),
        well_formed(source),
        full_merge(target, source) is Ok,
    ensures
        well_formed((full_merge(target, source)->Ok_0).0),
{
    match (target, source) {
        (JsonValue::Object(members), JsonValue::Object(offered)) => {
            lemma_fold_well_formed(members, offered);
        },
        _ => {},
    }
}

/// Members that are kept from a well-formed object make a well-formed
/// object, and hold no key that the object did not hold.
pub proof fn lemma_members_without_well_formed(
    members: Seq<(Seq<char>, JsonValue)>,
    tag: Seq<char>,
    items: Seq<Seq<char>>,
)
    requires
        well_formed(JsonValue::Object(members)),
    ensures
        well_formed(JsonValue::Object(members_without(members, tag, items))),
        forall|key: Seq<char>| #[trigger]
            has_key(members_without(members, tag, items), key) ==> has_key(members, key),
    decreases members.len(),
{
    reveal(Seq::filter);
    if members.len() > 0 {
        let rest = members.drop_last();
        let last = members.last();
        let kept = members_without(rest, tag, items);
        assert(well_formed(JsonValue::Object(rest))) by {
            assert forall|i: int, j: int| 0 <= i < j < rest.len() implies (#[trigger] rest[i]).0
                != (#[trigger] rest[j]).0 by {
                assert(rest[i] == members[i]);
                assert(rest[j] == members[j]);
            }
            assert forall|i: int| 0 <= i < rest.len() implies well_formed(
                (#[trigger] rest[i]).1,
            ) by {
                assert(rest[i] == members[i]);
            }
        }
        lemma_members_without_well_formed(rest, tag, items);
        assert(!has_key(rest, last.0)) by {
            lemma_has_key(rest, last.0);
            if has_key(rest, last.0) {
                let i = choose|i: int| 0 <= i < rest.len() && (#[trigger] rest[i]).0 == last.0;
                assert(members[i].0 == members[members.len() - 1].0);
            }
        }
        assert(well_formed(last.1)) by {
            assert(last == members[members.len() - 1]);
        }
        assert(members =~= rest.push(last));
        if !items.contains(tag + last.0) {
            lemma_push_well_formed(kept, last);
        }
        assert forall|key: Seq<char>| #[trigger]
            has_key(members_without(members, tag, items), key) implies has_key(members, key) by {
            crate::json::lemma_member_push(kept, last, key);
            crate::json::lemma_member_push(rest, last, key);
        }
    }
}

/// The items that are kept from a well-formed list make a well-formed list.
pub proof fn lemma_list_without_well_formed(
    list: Seq<JsonValue>,
    tag: Seq<char>,
    items: Seq<Seq<char>>,
)
    requires
        well_formed(JsonValue::List(list)),
    ensures
        well_formed(JsonValue::List(list_without(list, tag, items))),
    decreases list.len(),
{
    reveal(Seq::filter);
    lemma_list_well_formed(list);
    let kept = list_without(list, tag, items);
    if list.len() > 0 {
        let rest = list.drop_last();
        let before = list_without(rest, tag, items);
        lemma_list_well_formed(rest);
        assert forall|i: int| 0 <= i < rest.len() implies well_formed(#[trigger] rest[i]) by {
            assert(rest[i] == list[i]);
        }
        lemma_list_without_well_formed(rest, tag, items);
        lemma_list_well_formed(before);
        assert(well_formed(list[list.len() - 1]));
        assert forall|i: int| 0 <= i < kept.len() implies well_formed(#[trigger] kept[i]) by {
            if i < before.len() {
                assert(kept[i] == before[i]);
            }
        }
    }
    lemma_list_well_formed(kept);
}

/// Taking rules from a list of a well-formed document leaves it well formed.
pub proof fn lemma_rules_without_well_formed(
    document: JsonValue,
    name: Seq<char>,
    tag: Seq<char>,
    items: Seq<Seq<char>>,
)
    requires
        well_formed(document),
    ensures
        well_formed(rules_without(document, name, tag, items)),
{
    if let Some(permissions) = document.get("permissions"@) {
        if let Some(JsonValue::List(list)) = permissions.get(name) {
            lemma_member_well_formed(document->Object_0, "permissions"@);
            lemma_member_well_formed(permissions->Object_0, name);
            lemma_list_without_well_formed(list, tag, items);
            lemma_with_member_well_formed(
                permissions->Object_0,
                name,
                JsonValue::List(list_without(list, tag, items)),
            );
            lemma_with_member_well_formed(
                document->Object_0,
                "permissions"@,
                JsonValue::Object(
                    with_member(
                        permissions->Object_0,
                        name,
                        JsonValue::List(list_without(list, tag, items)),
                    ),
                ),
            );
        }
    }
}

/// Undoing merges of permissions leaves a well-formed document well formed.
pub proof fn lemma_scoped_unmerge_well_formed(document: JsonValue, items: Seq<Seq<char>>)
    requires
        well_formed(document),
    ensures
        well_formed(scoped_unmerge(document, items)),
{
    lemma_rules_without_well_formed(document, "allow"@, "allow:"@, items);
    lemma_rules_without_well_formed(
        rules_without(document, "allow"@, "allow:"@, items),
        "deny"@,
        "deny:"@,
        items,
    );
}

/// Undoing full merges leaves a well-formed document well formed.
pub proof fn lemma_full_unmerge_well_formed(
    document: JsonValue,
    full_items: Seq<Seq<char>>,
    all_items: Seq<Seq<char>>,
)
    requires
        well_formed(document),
    ensures
        well_formed(full_unmerge(document, full_items, all_items)),
{
    let a = keys_without(document, full_items);
    if let JsonValue::Object(members) = document {
        lemma_members_without_well_formed(members, Seq::empty(), full_items);
    }
    let b = variables_without(a, full_items);
    if let Some(JsonValue::Object(variables)) = a.get("env"@) {
        lemma_member_well_formed(a->Object_0, "env"@);
        lemma_members_without_well_formed(variables, "env:"@, full_items);
        lemma_with_member_well_formed(
            a->Object_0,
            "env"@,
            JsonValue::Object(members_without(variables, "env:"@, full_items)),
        );
    }
    let c = rules_without(b, "allow"@, "permissions.allow:"@, full_items);
    lemma_rules_without_well_formed(b, "allow"@, "permissions.allow:"@, full_items);
    let d = rules_without(c, "deny"@, "permissions.deny:"@, full_items);
    lemma_rules_without_well_formed(c, "deny"@, "permissions.deny:"@, full_items);
    lemma_scoped_unmerge_well_formed(d, all_items);
}

} // verus!
