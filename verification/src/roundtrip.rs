//! A full merge and its unmerge, seen from what the target had before: under
//! which names it keeps all of it.

use vstd::prelude::*;
use crate::history::{collected, lemma_unknown_source, RecordView};
use crate::json::{
    has_key, lemma_key_index, lemma_member_push, lemma_member_with_member, member, JsonValue,
};
use crate::laws::{
    has_rule, has_variable, lemma_env_merged_keys, lemma_list_merged_keeps, lemma_member_of_kept,
    lemma_step_keeps_other, lemma_texts_contains, lists_rule, rules_of,
};
use crate::lists::{added, fresh, lemma_fresh, merged_list, merged_texts, tag_all, texts};
use crate::merge::{
    default_permissions, env_merged, full_fold, full_merge, full_step, held_list,
    lemma_allow_is_not_deny, lemma_permissions_is_not_env, list_merged, member_or, offered_list,
    permissions_merged,
};
use crate::unmerge::{
    full_unmerge, keys_without, list_without, members_without, rules_without, variables_without,
};

verus! {

/// The value of the variable `name` of a document, where its `env` is an
/// object that holds it.
pub open spec fn variable_of(document: JsonValue, name: Seq<char>) -> Option<JsonValue> {
    match document.get("env"@) {
        Some(JsonValue::Object(variables)) => member(variables, name),
        _ => None,
    }
}

/// Whether `after` still holds what `before` held: each top-level member
/// other than `permissions` and `env` and each variable with its value, and
/// each rule.
pub open spec fn grown(before: JsonValue, after: JsonValue) -> bool {
    &&& forall|key: Seq<char>|
        key != "permissions"@ && key != "env"@ && (#[trigger] before.get(key)) is Some
            ==> after.get(key) == before.get(key)
    &&& forall|name: Seq<char>| #[trigger]
        has_variable(before, name) ==> variable_of(after, name) == variable_of(before, name)
    &&& forall|rule: Seq<char>| #[trigger]
        has_rule(before, "allow"@, rule) ==> has_rule(after, "allow"@, rule)
    &&& forall|rule: Seq<char>| #[trigger]
        has_rule(before, "deny"@, rule) ==> has_rule(after, "deny"@, rule)
}

/// A string of a list is a string of the list that a merge leaves.
pub proof fn lemma_merged_list_keeps(have: Seq<JsonValue>, offered: Seq<JsonValue>, rule: Seq<char>)
    requires
        have.contains(JsonValue::Text(rule)),
    ensures
        merged_list(have, offered).contains(JsonValue::Text(rule)),
{
    let kept = fresh(Set::empty(), texts(have));
    let strings = merged_texts(have, offered);
    lemma_texts_contains(have, rule);
    lemma_fresh(Set::empty(), texts(have));
    assert(kept.contains(rule));
    let i = choose|i: int| 0 <= i < kept.len() && kept[i] == rule;
    assert(strings[i] == rule);
    assert(merged_list(have, offered)[i] == JsonValue::Text(rule));
}

/// Permissions list after a merge of one of their lists every rule that they
/// listed before, under any name.
pub proof fn lemma_list_merged_grows(
    permissions: JsonValue,
    offered: Option<Seq<JsonValue>>,
    name: Seq<char>,
    other: Seq<char>,
    rule: Seq<char>,
)
    requires
        list_merged(permissions, offered, name) is Some,
        lists_rule(permissions, other, rule),
    ensures
        lists_rule((list_merged(permissions, offered, name)->0).0, other, rule),
{
    if other != name {
        lemma_list_merged_keeps(permissions, offered, name, other);
    } else if let Some(list) = offered {
        let have = held_list(permissions, name)->0;
        lemma_merged_list_keeps(have, list, rule);
        lemma_member_with_member(
            permissions->Object_0,
            name,
            JsonValue::List(merged_list(have, list)),
            name,
        );
    }
}

/// One step of a full merge keeps what the target held.
pub proof fn lemma_step_grows(
    members: Seq<(Seq<char>, JsonValue)>,
    key: Seq<char>,
    value: JsonValue,
)
    requires
        full_step(members, key, value) is Ok,
    ensures
        grown(
            JsonValue::Object(members),
            JsonValue::Object((full_step(members, key, value)->Ok_0).0),
        ),
{
    let merged = (full_step(members, key, value)->Ok_0).0;
    let before = JsonValue::Object(members);
    let after = JsonValue::Object(merged);
    lemma_permissions_is_not_env();
    assert forall|other: Seq<char>| other != key implies #[trigger] after.get(other)
        == before.get(other) by {
        lemma_step_keeps_other(members, key, value, other);
    }
    if key == "permissions"@ {
        let had = member_or(members, key, default_permissions());
        let allow = offered_list(value, "allow"@);
        let deny = offered_list(value, "deny"@);
        let allowed = (list_merged(had, allow, "allow"@)->0).0;
        let permissions = (list_merged(allowed, deny, "deny"@)->0).0;
        lemma_member_with_member(members, key, permissions, key);
        assert(after.get("env"@) == before.get("env"@));
        assert forall|rule: Seq<char>| #[trigger] has_rule(before, "allow"@, rule) implies has_rule(
            after,
            "allow"@,
            rule,
        ) by {
            lemma_list_merged_grows(had, allow, "allow"@, "allow"@, rule);
            lemma_list_merged_grows(allowed, deny, "deny"@, "allow"@, rule);
        }
        assert forall|rule: Seq<char>| #[trigger] has_rule(before, "deny"@, rule) implies has_rule(
            after,
            "deny"@,
            rule,
        ) by {
            lemma_list_merged_grows(had, allow, "allow"@, "deny"@, rule);
            lemma_list_merged_grows(allowed, deny, "deny"@, "deny"@, rule);
        }
    } else if key == "env"@ {
        assert(after.get("permissions"@) == before.get("permissions"@));
        match (value, member_or(members, key, JsonValue::Object(Seq::empty()))) {
            (JsonValue::Object(offered), JsonValue::Object(have)) => {
                lemma_member_with_member(
                    members,
                    key,
                    JsonValue::Object(env_merged(have, offered).0),
                    key,
                );
                lemma_env_merged_keys(have, offered);
                assert forall|name: Seq<char>| #[trigger]
                    has_variable(before, name) implies variable_of(after, name) == variable_of(
                    before,
                    name,
                ) by {
                    assert(member(env_merged(have, offered).0, name) == member(have, name));
                }
            },
            _ => {},
        }
    } else {
        assert(after.get("permissions"@) == before.get("permissions"@));
        assert(after.get("env"@) == before.get("env"@));
    }
}

/// A full merge keeps what the target held.
pub proof fn lemma_fold_grows(
    members: Seq<(Seq<char>, JsonValue)>,
    offered: Seq<(Seq<char>, JsonValue)>,
)
    requires
        full_fold(members, offered) is Ok,
    ensures
        grown(
            JsonValue::Object(members),
            JsonValue::Object((full_fold(members, offered)->Ok_0).0),
        ),
    decreases offered.len(),
{
    if offered.len() > 0 {
        let rest = offered.drop_last();
        let last = offered.last();
        let first = JsonValue::Object(members);
        let second = JsonValue::Object((full_fold(members, rest)->Ok_0).0);
        let third = JsonValue::Object((full_fold(members, offered)->Ok_0).0);
        lemma_fold_grows(members, rest);
        lemma_step_grows((full_fold(members, rest)->Ok_0).0, last.0, last.1);
        assert forall|key: Seq<char>|
            key != "permissions"@ && key != "env"@ && (#[trigger] first.get(key))
                is Some implies third.get(key) == first.get(key) by {
            assert(second.get(key) == first.get(key));
        }
        assert forall|name: Seq<char>| #[trigger] has_variable(first, name) implies variable_of(
            third,
            name,
        ) == variable_of(first, name) by {
            assert(variable_of(second, name) == variable_of(first, name));
            assert(has_variable(second, name));
        }
        assert forall|rule: Seq<char>| #[trigger] has_rule(first, "allow"@, rule) implies has_rule(
            third,
            "allow"@,
            rule,
        ) by {
            assert(has_rule(second, "allow"@, rule));
        }
        assert forall|rule: Seq<char>| #[trigger] has_rule(first, "deny"@, rule) implies has_rule(
            third,
            "deny"@,
            rule,
        ) by {
            assert(has_rule(second, "deny"@, rule));
        }
    }
}

/// A list that lost rules still holds a string that the items do not name.
pub proof fn lemma_list_without_keeps(
    list: Seq<JsonValue>,
    tag: Seq<char>,
    items: Seq<Seq<char>>,
    rule: Seq<char>,
)
    requires
        list.contains(JsonValue::Text(rule)),
        !items.contains(tag + rule),
    ensures
        list_without(list, tag, items).contains(JsonValue::Text(rule)),
    decreases list.len(),
{
    reveal(Seq::filter);
    let found = JsonValue::Text(rule);
    let kept = list_without(list, tag, items);
    if list.len() > 0 {
        let rest = list.drop_last();
        let before = list_without(rest, tag, items);
        let i = choose|i: int| 0 <= i < list.len() && list[i] == found;
        if i < rest.len() {
            assert(rest[i] == found);
            lemma_list_without_keeps(rest, tag, items, rule);
            let j = choose|j: int| 0 <= j < before.len() && before[j] == found;
            assert(kept[j] == found);
        } else {
            assert(list.last() == found);
            assert(kept[kept.len() - 1] == found);
        }
    }
}

/// What a document holds under a key after it lost the top-level members
/// that the items name: nothing where the items name the key, else what it
/// held.
pub proof fn lemma_keys_without_get(document: JsonValue, items: Seq<Seq<char>>, key: Seq<char>)
    ensures
        keys_without(document, items).get(key) == if items.contains(key) {
            None
        } else {
            document.get(key)
        },
{
    if let JsonValue::Object(members) = document {
        lemma_member_of_kept(members, Seq::empty(), items, key);
        assert(Seq::<char>::empty() + key =~= key);
    }
}

/// What a document holds after it lost the variables that the items name:
/// under every key but `env` what it held, and each variable that the items
/// do not name with its value.
pub proof fn lemma_variables_without_get(
    document: JsonValue,
    items: Seq<Seq<char>>,
    key: Seq<char>,
)
    ensures
        key != "env"@ ==> variables_without(document, items).get(key) == document.get(key),
        variable_of(variables_without(document, items), key) == if items.contains(
            "env:"@ + key,
        ) {
            None
        } else {
            variable_of(document, key)
        },
{
    if let Some(JsonValue::Object(variables)) = document.get("env"@) {
        let kept = JsonValue::Object(members_without(variables, "env:"@, items));
        lemma_member_with_member(document->Object_0, "env"@, kept, key);
        lemma_member_with_member(document->Object_0, "env"@, kept, "env"@);
        lemma_member_of_kept(variables, "env:"@, items, key);
    }
}

/// What a document holds after one of its lists of rules lost the rules that
/// the items name: under every key but `permissions` what it held, each other
/// list of rules, and in the list each rule that the items do not name.
pub proof fn lemma_rules_without_get(
    document: JsonValue,
    name: Seq<char>,
    tag: Seq<char>,
    items: Seq<Seq<char>>,
    key: Seq<char>,
)
    ensures
        key != "permissions"@ ==> rules_without(document, name, tag, items).get(key)
            == document.get(key),
        key != name ==> rules_of(rules_without(document, name, tag, items), key) == rules_of(
            document,
            key,
        ),
        rules_of(rules_without(document, name, tag, items), name) == match rules_of(
            document,
            name,
        ) {
            Some(list) => Some(list_without(list, tag, items)),
            None => None,
        },
{
    if let Some(list) = rules_of(document, name) {
        let permissions = document.get("permissions"@)->0;
        let kept = JsonValue::List(list_without(list, tag, items));
        let rewritten = JsonValue::Object(
            crate::json::with_member(permissions->Object_0, name, kept),
        );
        lemma_member_with_member(document->Object_0, "permissions"@, rewritten, key);
        lemma_member_with_member(document->Object_0, "permissions"@, rewritten, "permissions"@);
        lemma_member_with_member(permissions->Object_0, name, kept, key);
        lemma_member_with_member(permissions->Object_0, name, kept, name);
    }
}

/// A full unmerge leaves what the document holds under a key other than
/// `permissions` and `env` that the items of the full merges do not name.
pub proof fn lemma_unmerge_spares_key(
    document: JsonValue,
    full_items: Seq<Seq<char>>,
    all_items: Seq<Seq<char>>,
    key: Seq<char>,
)
    requires
        key != "permissions"@,
        key != "env"@,
        !full_items.contains(key),
    ensures
        full_unmerge(document, full_items, all_items).get(key) == document.get(key),
{
    let a = keys_without(document, full_items);
    let b = variables_without(a, full_items);
    let c = rules_without(b, "allow"@, "permissions.allow:"@, full_items);
    let d = rules_without(c, "deny"@, "permissions.deny:"@, full_items);
    let e = rules_without(d, "allow"@, "allow:"@, all_items);
    lemma_keys_without_get(document, full_items, key);
    lemma_variables_without_get(a, full_items, key);
    lemma_rules_without_get(b, "allow"@, "permissions.allow:"@, full_items, key);
    lemma_rules_without_get(c, "deny"@, "permissions.deny:"@, full_items, key);
    lemma_rules_without_get(d, "allow"@, "allow:"@, all_items, key);
    lemma_rules_without_get(e, "deny"@, "deny:"@, all_items, key);
}

/// A full unmerge leaves a variable that the items of the full merges do not
/// name, with its value, where they do not name `env` either.
pub proof fn lemma_unmerge_spares_variable(
    document: JsonValue,
    full_items: Seq<Seq<char>>,
    all_items: Seq<Seq<char>>,
    name: Seq<char>,
)
    requires
        !full_items.contains("env"@),
        !full_items.contains("env:"@ + name),
    ensures
        variable_of(full_unmerge(document, full_items, all_items), name) == variable_of(
            document,
            name,
        ),
{
    let a = keys_without(document, full_items);
    let b = variables_without(a, full_items);
    let c = rules_without(b, "allow"@, "permissions.allow:"@, full_items);
    let d = rules_without(c, "deny"@, "permissions.deny:"@, full_items);
    let e = rules_without(d, "allow"@, "allow:"@, all_items);
    lemma_permissions_is_not_env();
    lemma_keys_without_get(document, full_items, "env"@);
    lemma_variables_without_get(a, full_items, name);
    lemma_rules_without_get(b, "allow"@, "permissions.allow:"@, full_items, "env"@);
    lemma_rules_without_get(c, "deny"@, "permissions.deny:"@, full_items, "env"@);
    lemma_rules_without_get(d, "allow"@, "allow:"@, all_items, "env"@);
    lemma_rules_without_get(e, "deny"@, "deny:"@, all_items, "env"@);
}

/// The item that names a rule of a full merge: the rule behind
/// `permissions.allow:` or `permissions.deny:`.
pub open spec fn full_item(name: Seq<char>, rule: Seq<char>) -> Seq<char> {
    if name == "allow"@ {
        "permissions.allow:"@ + rule
    } else {
        "permissions.deny:"@ + rule
    }
}

/// The item that names a rule of a merge of permissions: the rule behind
/// `allow:` or `deny:`.
pub open spec fn scoped_item(name: Seq<char>, rule: Seq<char>) -> Seq<char> {
    if name == "allow"@ {
        "allow:"@ + rule
    } else {
        "deny:"@ + rule
    }
}

/// A full unmerge leaves a rule that no item names, where the items of the
/// full merges do not name `permissions` either.
pub proof fn lemma_unmerge_spares_rule(
    document: JsonValue,
    full_items: Seq<Seq<char>>,
    all_items: Seq<Seq<char>>,
    name: Seq<char>,
    rule: Seq<char>,
)
    requires
        name == "allow"@ || name == "deny"@,
        has_rule(document, name, rule),
        !full_items.contains("permissions"@),
        !full_items.contains(full_item(name, rule)),
        !all_items.contains(scoped_item(name, rule)),
    ensures
        has_rule(full_unmerge(document, full_items, all_items), name, rule),
{
    let a = keys_without(document, full_items);
    let b = variables_without(a, full_items);
    let c = rules_without(b, "allow"@, "permissions.allow:"@, full_items);
    let d = rules_without(c, "deny"@, "permissions.deny:"@, full_items);
    let e = rules_without(d, "allow"@, "allow:"@, all_items);
    let f = rules_without(e, "deny"@, "deny:"@, all_items);
    lemma_permissions_is_not_env();
    lemma_allow_is_not_deny();
    lemma_keys_without_get(document, full_items, "permissions"@);
    assert(has_rule(a, name, rule));
    lemma_variables_without_get(a, full_items, "permissions"@);
    assert(has_rule(b, name, rule));
    lemma_rules_without_get(b, "allow"@, "permissions.allow:"@, full_items, name);
    if name == "allow"@ {
        lemma_list_without_keeps(rules_of(b, name)->0, "permissions.allow:"@, full_items, rule);
    }
    assert(has_rule(c, name, rule));
    lemma_rules_without_get(c, "deny"@, "permissions.deny:"@, full_items, name);
    if name == "deny"@ {
        lemma_list_without_keeps(rules_of(c, name)->0, "permissions.deny:"@, full_items, rule);
    }
    assert(has_rule(d, name, rule));
    lemma_rules_without_get(d, "allow"@, "allow:"@, all_items, name);
    if name == "allow"@ {
        lemma_list_without_keeps(rules_of(d, name)->0, "allow:"@, all_items, rule);
    }
    assert(has_rule(e, name, rule));
    lemma_rules_without_get(e, "deny"@, "deny:"@, all_items, name);
    if name == "deny"@ {
        lemma_list_without_keeps(rules_of(e, name)->0, "deny:"@, all_items, rule);
    }
    assert(has_rule(f, name, rule));
}

/// Whether a key reads like an item that names a rule or a variable: whether
/// it starts with one of the tags of such items.
pub open spec fn reads_as_item(key: Seq<char>) -> bool {
    ||| "env:"@.is_prefix_of(key)
    ||| "permissions.allow:"@.is_prefix_of(key)
    ||| "permissions.deny:"@.is_prefix_of(key)
    ||| "allow:"@.is_prefix_of(key)
    ||| "deny:"@.is_prefix_of(key)
}

/// Whether no key of the members reads like an item that names a rule or a
/// variable.
pub open spec fn plain_members(members: Seq<(Seq<char>, JsonValue)>) -> bool {
    forall|i: int| 0 <= i < members.len() ==> !reads_as_item((#[trigger] members[i]).0)
}

/// Whether no top-level key of the document reads like an item that names a
/// rule or a variable.
pub open spec fn plain_keys(document: JsonValue) -> bool {
    match document {
        JsonValue::Object(members) => plain_members(members),
        _ => true,
    }
}

/// Where an item of a full merge comes from: it is a key of the source that
/// the target lacked, or it names, behind its tag, a variable or a rule that
/// the target lacked.
pub open spec fn origin(
    target: JsonValue,
    offered: Seq<(Seq<char>, JsonValue)>,
    item: Seq<char>,
) -> bool {
    ||| (has_key(offered, item) && item != "permissions"@ && item != "env"@ && target.get(item)
        is None)
    ||| ("env:"@.is_prefix_of(item) && !has_variable(target, item.skip("env:"@.len() as int)))
    ||| ("permissions.allow:"@.is_prefix_of(item) && !has_rule(
        target,
        "allow"@,
        item.skip("permissions.allow:"@.len() as int),
    ))
    ||| ("permissions.deny:"@.is_prefix_of(item) && !has_rule(
        target,
        "deny"@,
        item.skip("permissions.deny:"@.len() as int),
    ))
}

/// A string behind a tag starts with the tag, and is the string after it.
pub proof fn lemma_tagged(tag: Seq<char>, text: Seq<char>)
    ensures
        tag.is_prefix_of(tag + text),
        (tag + text).skip(tag.len() as int) == text,
{
    assert((tag + text).subrange(0, tag.len() as int) =~= tag);
    assert((tag + text).skip(tag.len() as int) =~= text);
}

/// A name that came in with a merge of variables is none that the target
/// had.
pub proof fn lemma_env_merged_new(
    have: Seq<(Seq<char>, JsonValue)>,
    offered: Seq<(Seq<char>, JsonValue)>,
    name: Seq<char>,
)
    requires
        env_merged(have, offered).1.contains(name),
    ensures
        !has_key(have, name),
    decreases offered.len(),
{
    if offered.len() > 0 {
        let rest = offered.drop_last();
        let before = env_merged(have, rest);
        let after = env_merged(have, offered);
        let i = choose|i: int| 0 <= i < after.1.len() && after.1[i] == name;
        if i < before.1.len() {
            assert(before.1[i] == name);
            lemma_env_merged_new(have, rest, name);
        } else {
            lemma_env_merged_keys(have, rest);
            if has_key(have, name) {
                assert(member(before.0, name) == member(have, name));
            }
        }
    }
}

/// A string that a merge of lists added is none that the list held.
pub proof fn lemma_added_new(have: Seq<JsonValue>, offered: Seq<JsonValue>, rule: Seq<char>)
    requires
        added(have, offered).contains(rule),
    ensures
        !have.contains(JsonValue::Text(rule)),
{
    lemma_fresh(texts(have).to_set(), texts(offered));
    lemma_texts_contains(have, rule);
}

/// Each item of one step of a full merge names something that the target
/// lacked before the step.
pub proof fn lemma_step_origin(
    members: Seq<(Seq<char>, JsonValue)>,
    offered: Seq<(Seq<char>, JsonValue)>,
    key: Seq<char>,
    value: JsonValue,
)
    requires
        full_step(members, key, value) is Ok,
        has_key(offered, key),
    ensures
        forall|j: int|
            0 <= j < (full_step(members, key, value)->Ok_0).1.len() ==> origin(
                JsonValue::Object(members),
                offered,
                #[trigger] (full_step(members, key, value)->Ok_0).1[j],
            ),
{
    let items = (full_step(members, key, value)->Ok_0).1;
    let before = JsonValue::Object(members);
    if key == "permissions"@ {
        let had = member_or(members, key, default_permissions());
        let allow = offered_list(value, "allow"@);
        let deny = offered_list(value, "deny"@);
        let first = list_merged(had, allow, "allow"@)->0;
        let second = list_merged(first.0, deny, "deny"@)->0;
        lemma_allow_is_not_deny();
        lemma_list_merged_keeps(had, allow, "allow"@, "deny"@);
        assert forall|j: int| 0 <= j < items.len() implies origin(
            before,
            offered,
            #[trigger] items[j],
        ) by {
            if j < first.1.len() {
                let rule = first.1[j];
                assert(items[j] == "permissions.allow:"@ + rule);
                lemma_tagged("permissions.allow:"@, rule);
                assert(first.1.contains(rule));
                lemma_added_new(held_list(had, "allow"@)->0, allow->0, rule);
            } else {
                let rule = second.1[j - first.1.len()];
                assert(items[j] == "permissions.deny:"@ + rule);
                lemma_tagged("permissions.deny:"@, rule);
                assert(second.1.contains(rule));
                lemma_added_new(held_list(first.0, "deny"@)->0, deny->0, rule);
            }
        }
    } else if key == "env"@ {
        match (value, member_or(members, key, JsonValue::Object(Seq::empty()))) {
            (JsonValue::Object(more), JsonValue::Object(have)) => {
                let names = env_merged(have, more).1;
                assert forall|j: int| 0 <= j < items.len() implies origin(
                    before,
                    offered,
                    #[trigger] items[j],
                ) by {
                    let name = names[j];
                    assert(items[j] == "env:"@ + name);
                    lemma_tagged("env:"@, name);
                    assert(names.contains(name));
                    lemma_env_merged_new(have, more, name);
                    if !has_key(members, key) {
                        lemma_key_index(Seq::<(Seq<char>, JsonValue)>::empty(), name);
                    }
                }
            },
            _ => {},
        }
    } else if !has_key(members, key) {
        assert(items[0] == key);
    }
}

/// Each item of a full merge names something that the target lacked.
pub proof fn lemma_fold_origin(
    members: Seq<(Seq<char>, JsonValue)>,
    offered: Seq<(Seq<char>, JsonValue)>,
)
    requires
        full_fold(members, offered) is Ok,
    ensures
        forall|j: int|
            0 <= j < (full_fold(members, offered)->Ok_0).1.len() ==> origin(
                JsonValue::Object(members),
                offered,
                #[trigger] (full_fold(members, offered)->Ok_0).1[j],
            ),
    decreases offered.len(),
{
    if offered.len() > 0 {
        let rest = offered.drop_last();
        let last = offered.last();
        let target = JsonValue::Object(members);
        let before = full_fold(members, rest)->Ok_0;
        let middle = JsonValue::Object(before.0);
        let step = full_step(before.0, last.0, last.1)->Ok_0;
        let items = (full_fold(members, offered)->Ok_0).1;
        assert(offered =~= rest.push(last));
        lemma_member_push(rest, last, last.0);
        lemma_fold_origin(members, rest);
        lemma_fold_grows(members, rest);
        lemma_step_origin(before.0, offered, last.0, last.1);
        assert forall|j: int| 0 <= j < items.len() implies origin(
            target,
            offered,
            #[trigger] items[j],
        ) by {
            let item = items[j];
            if j < before.1.len() {
                assert(item == before.1[j]);
                assert(origin(target, rest, item));
                lemma_member_push(rest, last, item);
            } else {
                assert(item == step.1[j - before.1.len()]);
                assert(origin(middle, offered, item));
                if has_variable(target, item.skip("env:"@.len() as int)) {
                    assert(has_variable(middle, item.skip("env:"@.len() as int)));
                }
                if has_rule(target, "allow"@, item.skip("permissions.allow:"@.len() as int)) {
                    assert(has_rule(
                        middle,
                        "allow"@,
                        item.skip("permissions.allow:"@.len() as int),
                    ));
                }
                if has_rule(target, "deny"@, item.skip("permissions.deny:"@.len() as int)) {
                    assert(has_rule(
                        middle,
                        "deny"@,
                        item.skip("permissions.deny:"@.len() as int),
                    ));
                }
                if item != "permissions"@ && item != "env"@ && target.get(item) is Some {
                    assert(middle.get(item) == target.get(item));
                }
            }
        }
    }
}

/// What starts with a tag has the characters of the tag.
pub proof fn lemma_prefix_char(tag: Seq<char>, item: Seq<char>, i: int)
    requires
        tag.is_prefix_of(item),
        0 <= i < tag.len(),
    ensures
        item[i] == tag[i],
{
    assert(item.subrange(0, tag.len() as int)[i] == item[i]);
}

/// The tags of the items, and the names of the two members that a full merge
/// adds to, differ from each other early: in their length, in their first
/// character, or in the one after `permissions.`.
pub proof fn lemma_tags_apart()
    ensures
        "env"@.len() == 3,
        "permissions"@.len() == 11,
        "env:"@.len() == 4,
        "allow:"@.len() == 6,
        "deny:"@.len() == 5,
        "permissions.allow:"@.len() == 18,
        "permissions.deny:"@.len() == 17,
        "permissions"@[0] == 'p',
        "env:"@[0] == 'e',
        "allow:"@[0] == 'a',
        "deny:"@[0] == 'd',
        "permissions.allow:"@[0] == 'p',
        "permissions.deny:"@[0] == 'p',
        "permissions.allow:"@[12] == 'a',
        "permissions.deny:"@[12] == 'd',
{
    reveal_strlit("env");
    reveal_strlit("permissions");
    reveal_strlit("env:");
    reveal_strlit("allow:");
    reveal_strlit("deny:");
    reveal_strlit("permissions.allow:");
    reveal_strlit("permissions.deny:");
}

/// No item of a full merge is a plain key that the target had.
pub proof fn lemma_key_not_named(
    target: JsonValue,
    offered: Seq<(Seq<char>, JsonValue)>,
    key: Seq<char>,
)
    requires
        target.get(key) is Some,
        !reads_as_item(key),
    ensures
        !origin(target, offered, key),
{
}

/// No item of a full merge from a source with plain keys names a variable
/// that the target had, nor `env` itself.
pub proof fn lemma_variable_not_named(
    target: JsonValue,
    offered: Seq<(Seq<char>, JsonValue)>,
    name: Seq<char>,
)
    requires
        has_variable(target, name),
        plain_members(offered),
    ensures
        !origin(target, offered, "env:"@ + name),
        !origin(target, offered, "env"@),
{
    let item = "env:"@ + name;
    lemma_tags_apart();
    lemma_tagged("env:"@, name);
    lemma_prefix_char("env:"@, item, 0);
    if has_key(offered, item) {
        lemma_key_index(offered, item);
        assert(reads_as_item(offered[crate::json::key_index(offered, item)].0));
    }
    if "permissions.allow:"@.is_prefix_of(item) {
        lemma_prefix_char("permissions.allow:"@, item, 0);
    }
    if "permissions.deny:"@.is_prefix_of(item) {
        lemma_prefix_char("permissions.deny:"@, item, 0);
    }
}

/// No item of a full merge from a source with plain keys names a rule that
/// the target had, as a full merge or as a merge of permissions names it,
/// nor `permissions` itself.
pub proof fn lemma_rule_not_named(
    target: JsonValue,
    offered: Seq<(Seq<char>, JsonValue)>,
    name: Seq<char>,
    rule: Seq<char>,
)
    requires
        name == "allow"@ || name == "deny"@,
        has_rule(target, name, rule),
        plain_members(offered),
    ensures
        !origin(target, offered, full_item(name, rule)),
        !origin(target, offered, scoped_item(name, rule)),
        !origin(target, offered, "permissions"@),
{
    let full = full_item(name, rule);
    let scoped = scoped_item(name, rule);
    lemma_tags_apart();
    lemma_allow_is_not_deny();
    if name == "allow"@ {
        lemma_tagged("permissions.allow:"@, rule);
        lemma_tagged("allow:"@, rule);
        lemma_prefix_char("permissions.allow:"@, full, 0);
        lemma_prefix_char("permissions.allow:"@, full, 12);
        lemma_prefix_char("allow:"@, scoped, 0);
    } else {
        lemma_tagged("permissions.deny:"@, rule);
        lemma_tagged("deny:"@, rule);
        lemma_prefix_char("permissions.deny:"@, full, 0);
        lemma_prefix_char("permissions.deny:"@, full, 12);
        lemma_prefix_char("deny:"@, scoped, 0);
    }
    if has_key(offered, full) {
        lemma_key_index(offered, full);
        assert(reads_as_item(offered[crate::json::key_index(offered, full)].0));
    }
    if has_key(offered, scoped) {
        lemma_key_index(offered, scoped);
        assert(reads_as_item(offered[crate::json::key_index(offered, scoped)].0));
    }
    if "env:"@.is_prefix_of(full) {
        lemma_prefix_char("env:"@, full, 0);
    }
    if "permissions.allow:"@.is_prefix_of(full) {
        lemma_prefix_char("permissions.allow:"@, full, 12);
    }
    if "permissions.deny:"@.is_prefix_of(full) {
        lemma_prefix_char("permissions.deny:"@, full, 12);
    }
    if "env:"@.is_prefix_of(scoped) {
        lemma_prefix_char("env:"@, scoped, 0);
    }
    if "permissions.allow:"@.is_prefix_of(scoped) {
        lemma_prefix_char("permissions.allow:"@, scoped, 0);
    }
    if "permissions.deny:"@.is_prefix_of(scoped) {
        lemma_prefix_char("permissions.deny:"@, scoped, 0);
    }
    if "env:"@.is_prefix_of("permissions"@) {
        lemma_prefix_char("env:"@, "permissions"@, 0);
    }
}

/// No item of a full merge is `permissions` or `env`.
pub proof fn lemma_special_not_named(target: JsonValue, offered: Seq<(Seq<char>, JsonValue)>)
    ensures
        !origin(target, offered, "permissions"@),
        !origin(target, offered, "env"@),
{
    lemma_tags_apart();
    if "env:"@.is_prefix_of("permissions"@) {
        lemma_prefix_char("env:"@, "permissions"@, 0);
    }
}

/// One step of a full merge drops no top-level member.
pub proof fn lemma_step_has(
    members: Seq<(Seq<char>, JsonValue)>,
    key: Seq<char>,
    value: JsonValue,
    other: Seq<char>,
)
    requires
        full_step(members, key, value) is Ok,
        has_key(members, other),
    ensures
        has_key((full_step(members, key, value)->Ok_0).0, other),
{
    if other != key {
        lemma_step_keeps_other(members, key, value, other);
    } else if key == "permissions"@ {
        lemma_member_with_member(
            members,
            key,
            (permissions_merged(
                member_or(members, key, default_permissions()),
                value,
                "permissions.allow:"@,
                "permissions.deny:"@,
            )->Ok_0).0,
            key,
        );
    } else if key == "env"@ {
        match (value, member_or(members, key, JsonValue::Object(Seq::empty()))) {
            (JsonValue::Object(offered), JsonValue::Object(have)) => {
                lemma_member_with_member(
                    members,
                    key,
                    JsonValue::Object(env_merged(have, offered).0),
                    key,
                );
            },
            _ => {},
        }
    }
}

/// A full merge drops no top-level member.
pub proof fn lemma_fold_has(
    members: Seq<(Seq<char>, JsonValue)>,
    offered: Seq<(Seq<char>, JsonValue)>,
    key: Seq<char>,
)
    requires
        full_fold(members, offered) is Ok,
        has_key(members, key),
    ensures
        has_key((full_fold(members, offered)->Ok_0).0, key),
    decreases offered.len(),
{
    if offered.len() > 0 {
        let rest = offered.drop_last();
        lemma_fold_has(members, rest, key);
        lemma_step_has(
            (full_fold(members, rest)->Ok_0).0,
            offered.last().0,
            offered.last().1,
            key,
        );
    }
}

/// A full unmerge drops no top-level member that the items of the full
/// merges do not name.
pub proof fn lemma_unmerge_spares_member(
    document: JsonValue,
    full_items: Seq<Seq<char>>,
    all_items: Seq<Seq<char>>,
    key: Seq<char>,
)
    requires
        document.get(key) is Some,
        !full_items.contains(key),
    ensures
        full_unmerge(document, full_items, all_items).get(key) is Some,
{
    let a = keys_without(document, full_items);
    let b = variables_without(a, full_items);
    let c = rules_without(b, "allow"@, "permissions.allow:"@, full_items);
    let d = rules_without(c, "deny"@, "permissions.deny:"@, full_items);
    let e = rules_without(d, "allow"@, "allow:"@, all_items);
    let f = rules_without(e, "deny"@, "deny:"@, all_items);
    lemma_keys_without_get(document, full_items, key);
    lemma_variables_without_get(a, full_items, key);
    if let Some(JsonValue::Object(variables)) = a.get("env"@) {
        lemma_member_with_member(
            a->Object_0,
            "env"@,
            JsonValue::Object(members_without(variables, "env:"@, full_items)),
            key,
        );
    }
    assert(b.get(key) is Some);
    lemma_rules_without_has(b, "allow"@, "permissions.allow:"@, full_items, key);
    lemma_rules_without_has(c, "deny"@, "permissions.deny:"@, full_items, key);
    lemma_rules_without_has(d, "allow"@, "allow:"@, all_items, key);
    lemma_rules_without_has(e, "deny"@, "deny:"@, all_items, key);
    assert(f.get(key) is Some);
}

/// A document whose list of rules lost some drops no top-level member.
pub proof fn lemma_rules_without_has(
    document: JsonValue,
    name: Seq<char>,
    tag: Seq<char>,
    items: Seq<Seq<char>>,
    key: Seq<char>,
)
    requires
        document.get(key) is Some,
    ensures
        rules_without(document, name, tag, items).get(key) is Some,
{
    if let Some(list) = rules_of(document, name) {
        let permissions = document.get("permissions"@)->0;
        lemma_member_with_member(
            document->Object_0,
            "permissions"@,
            JsonValue::Object(
                crate::json::with_member(
                    permissions->Object_0,
                    name,
                    JsonValue::List(list_without(list, tag, items)),
                ),
            ),
            key,
        );
    }
}

/// A full merge from a source of which the history holds no record, then a
/// full unmerge of that source, where no top-level key of the target or of
/// the source reads like an item that names a rule or a variable: the
/// document holds again all that it held before the merge. Each top-level
/// member other than `permissions` and `env` and each variable is there with
/// its value, `permissions` and `env` are there where they were, and each
/// rule is in its list.
///
/// Together with [`crate::laws::lemma_full_merge_round_trip`], which says
/// that nothing else is left, the variables are the same and have the same
/// values, and each list holds the same rules.
pub proof fn lemma_full_merge_round_trip_keeps(
    target: JsonValue,
    source: JsonValue,
    history: Seq<RecordView>,
    name: Seq<char>,
    timestamp: Seq<char>,
)
    requires
        full_merge(target, source) is Ok,
        forall|i: int| 0 <= i < history.len() ==> (#[trigger] history[i]).source != name,
        plain_keys(target),
        plain_keys(source),
    ensures
        ({
            let merged = (full_merge(target, source)->Ok_0).0;
            let record = RecordView {
                source: name,
                timestamp: timestamp,
                merged_items: (full_merge(target, source)->Ok_0).1,
                full_merge: true,
            };
            let later = history.push(record);
            let restored = full_unmerge(
                merged,
                collected(later, name, true),
                collected(later, name, false),
            );
            &&& forall|key: Seq<char>|
                key != "permissions"@ && key != "env"@ && target.get(key) is Some ==> (
                #[trigger] restored.get(key)) == target.get(key)
            &&& target.get("permissions"@) is Some ==> restored.get("permissions"@) is Some
            &&& target.get("env"@) is Some ==> restored.get("env"@) is Some
            &&& forall|variable: Seq<char>|
                has_variable(target, variable) ==> (#[trigger] variable_of(restored, variable))
                    == variable_of(target, variable)
            &&& forall|rule: Seq<char>|
                has_rule(target, "allow"@, rule) ==> #[trigger] has_rule(restored, "allow"@, rule)
            &&& forall|rule: Seq<char>|
                has_rule(target, "deny"@, rule) ==> #[trigger] has_rule(restored, "deny"@, rule)
        }),
{
    let merged = (full_merge(target, source)->Ok_0).0;
    let items = (full_merge(target, source)->Ok_0).1;
    let record = RecordView {
        source: name,
        timestamp: timestamp,
        merged_items: items,
        full_merge: true,
    };
    let later = history.push(record);
    lemma_unknown_source(history, name, true);
    lemma_unknown_source(history, name, false);
    assert(later.drop_last() =~= history);
    assert(collected(later, name, true) =~= items);
    assert(collected(later, name, false) =~= items);
    let restored = full_unmerge(merged, items, items);
    let offered = match source {
        JsonValue::Object(offered) => offered,
        _ => Seq::empty(),
    };
    match (target, source) {
        (JsonValue::Object(members), JsonValue::Object(_)) => {
            lemma_fold_grows(members, offered);
            lemma_fold_origin(members, offered);
        },
        _ => {},
    }
    assert(grown(target, merged));
    assert forall|j: int| 0 <= j < items.len() implies origin(target, offered, #[trigger] items[j]) by {}
    assert(plain_members(offered));
    lemma_special_not_named(target, offered);
    assert(!items.contains("permissions"@) && !items.contains("env"@)) by {
        if items.contains("permissions"@) {
            let j = choose|j: int| 0 <= j < items.len() && items[j] == "permissions"@;
            assert(origin(target, offered, items[j]));
        }
        if items.contains("env"@) {
            let j = choose|j: int| 0 <= j < items.len() && items[j] == "env"@;
            assert(origin(target, offered, items[j]));
        }
    }
    if target.get("permissions"@) is Some {
        if source is Object {
            lemma_fold_has(target->Object_0, offered, "permissions"@);
        }
        lemma_unmerge_spares_member(merged, items, items, "permissions"@);
    }
    if target.get("env"@) is Some {
        if source is Object {
            lemma_fold_has(target->Object_0, offered, "env"@);
        }
        lemma_unmerge_spares_member(merged, items, items, "env"@);
    }
    assert forall|key: Seq<char>|
        key != "permissions"@ && key != "env"@ && target.get(key) is Some implies (
    #[trigger] restored.get(key)) == target.get(key) by {
        let members = target->Object_0;
        lemma_key_index(members, key);
        assert(!reads_as_item(members[crate::json::key_index(members, key)].0));
        lemma_key_not_named(target, offered, key);
        if items.contains(key) {
            let j = choose|j: int| 0 <= j < items.len() && items[j] == key;
            assert(origin(target, offered, items[j]));
        }
        lemma_unmerge_spares_key(merged, items, items, key);
    }
    assert forall|variable: Seq<char>| has_variable(target, variable) implies (
    #[trigger] variable_of(restored, variable)) == variable_of(target, variable) by {
        lemma_variable_not_named(target, offered, variable);
        if items.contains("env:"@ + variable) {
            let j = choose|j: int| 0 <= j < items.len() && items[j] == "env:"@ + variable;
            assert(origin(target, offered, items[j]));
        }
        if items.contains("env"@) {
            let j = choose|j: int| 0 <= j < items.len() && items[j] == "env"@;
            assert(origin(target, offered, items[j]));
        }
        lemma_unmerge_spares_variable(merged, items, items, variable);
    }
    assert forall|rule: Seq<char>| has_rule(target, "allow"@, rule) implies #[trigger] has_rule(
        restored,
        "allow"@,
        rule,
    ) by {
        lemma_rule_kept(target, offered, merged, items, "allow"@, rule);
    }
    assert forall|rule: Seq<char>| has_rule(target, "deny"@, rule) implies #[trigger] has_rule(
        restored,
        "deny"@,
        rule,
    ) by {
        lemma_rule_kept(target, offered, merged, items, "deny"@, rule);
    }
}

/// A rule that the target had is back after the round trip.
proof fn lemma_rule_kept(
    target: JsonValue,
    offered: Seq<(Seq<char>, JsonValue)>,
    merged: JsonValue,
    items: Seq<Seq<char>>,
    name: Seq<char>,
    rule: Seq<char>,
)
    requires
        name == "allow"@ || name == "deny"@,
        has_rule(target, name, rule),
        grown(target, merged),
        plain_members(offered),
        forall|j: int| 0 <= j < items.len() ==> origin(target, offered, #[trigger] items[j]),
    ensures
        has_rule(full_unmerge(merged, items, items), name, rule),
{
    lemma_rule_not_named(target, offered, name, rule);
    lemma_allow_is_not_deny();
    if items.contains(full_item(name, rule)) {
        let j = choose|j: int| 0 <= j < items.len() && items[j] == full_item(name, rule);
        assert(origin(target, offered, items[j]));
    }
    if items.contains(scoped_item(name, rule)) {
        let j = choose|j: int| 0 <= j < items.len() && items[j] == scoped_item(name, rule);
        assert(origin(target, offered, items[j]));
    }
    if items.contains("permissions"@) {
        let j = choose|j: int| 0 <= j < items.len() && items[j] == "permissions"@;
        assert(origin(target, offered, items[j]));
    }
    assert(has_rule(merged, name, rule));
    lemma_unmerge_spares_rule(merged, items, items, name, rule);
}

} // verus!
