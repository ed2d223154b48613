//! What holds of merging and unmerging, whatever the documents are.
//!
//! - Merging a source twice adds nothing the second time:
//!   [`lemma_scoped_merge_twice`], [`lemma_full_merge_twice`].
//! - A merged list holds each string of the two lists once:
//!   [`lemma_scoped_merge_rules`], [`lemma_full_merge_rules`].
//! - In a full merge the target wins: [`lemma_full_merge_keeps`].
//! - A full merge from a new source, then a full unmerge of it, takes back
//!   what came in: [`lemma_full_merge_round_trip`]. That it leaves what was
//!   there is [`crate::roundtrip::lemma_full_merge_round_trip_keeps`].
//! - Unmerging a source that the history does not know changes nothing:
//!   [`lemma_unmerge_unknown_source`].
//!
//! The other lemmas are the steps towards these.

use vstd::prelude::*;
use crate::history::{collected, lemma_unknown_source, without_source, RecordView};
use crate::json::{
    has_key, lemma_key_index, lemma_member_push, lemma_member_with_member,
    lemma_with_member_same, member, with_member, JsonValue,
};
use crate::lists::{
    added, lemma_fresh_of_distinct, lemma_fresh_of_known, lemma_merged_texts,
    lemma_texts_of_text_list, merged_list, merged_texts, tag_all, texts,
};
use crate::merge::{
    default_permissions, env_merged, full_fold, full_merge, full_step, lemma_allow_is_not_deny,
    held_list, lemma_permissions_is_not_env, list_merged, member_or, offered_list,
    permissions_merged, scoped_merge, target_members, MergeError,
};
use crate::unmerge::{
    full_unmerge, keys_without, list_without, members_without, rules_without, scoped_unmerge,
    variables_without,
};

verus! {

/// A list loses nothing where no item is named.
pub proof fn lemma_list_without_nothing(list: Seq<JsonValue>, tag: Seq<char>)
    ensures
        list_without(list, tag, Seq::empty()) == list,
    decreases list.len(),
{
    reveal(Seq::filter);
    if list.len() > 0 {
        lemma_list_without_nothing(list.drop_last(), tag);
    }
    assert(list_without(list, tag, Seq::empty()) =~= list);
}

/// Members lose nothing where no item is named.
pub proof fn lemma_members_without_nothing(members: Seq<(Seq<char>, JsonValue)>, tag: Seq<char>)
    ensures
        members_without(members, tag, Seq::empty()) == members,
    decreases members.len(),
{
    reveal(Seq::filter);
    if members.len() > 0 {
        lemma_members_without_nothing(members.drop_last(), tag);
    }
    assert(members_without(members, tag, Seq::empty()) =~= members);
}

/// A document loses no rule where no item is named.
pub proof fn lemma_rules_without_nothing(target: JsonValue, name: Seq<char>, tag: Seq<char>)
    ensures
        rules_without(target, name, tag, Seq::empty()) == target,
{
    match target.get("permissions"@) {
        Some(permissions) => match permissions.get(name) {
            Some(JsonValue::List(list)) => {
                lemma_list_without_nothing(list, tag);
                lemma_with_member_same(permissions->Object_0, name, JsonValue::List(list));
                lemma_with_member_same(target->Object_0, "permissions"@, permissions);
            },
            _ => {},
        },
        None => {},
    }
}

/// Unmerging a source of which the history holds no record changes neither
/// the document nor the history, for a merge of permissions and for a full
/// merge alike.
pub proof fn lemma_unmerge_unknown_source(
    target: JsonValue,
    history: Seq<RecordView>,
    source: Seq<char>,
)
    requires
        forall|i: int| 0 <= i < history.len() ==> (#[trigger] history[i]).source != source,
    ensures
        scoped_unmerge(target, collected(history, source, false)) == target,
        full_unmerge(
            target,
            collected(history, source, true),
            collected(history, source, false),
        ) == target,
        without_source(history, source) == history,
{
    lemma_unknown_source(history, source, false);
    lemma_unknown_source(history, source, true);
    lemma_rules_without_nothing(target, "allow"@, "allow:"@);
    lemma_rules_without_nothing(target, "deny"@, "deny:"@);
    lemma_rules_without_nothing(target, "allow"@, "permissions.allow:"@);
    lemma_rules_without_nothing(target, "deny"@, "permissions.deny:"@);
    match target {
        JsonValue::Object(members) => {
            lemma_members_without_nothing(members, Seq::empty());
        },
        _ => {},
    }
    match target.get("env"@) {
        Some(JsonValue::Object(variables)) => {
            lemma_members_without_nothing(variables, "env:"@);
            lemma_with_member_same(target->Object_0, "env"@, JsonValue::Object(variables));
        },
        _ => {},
    }
}

/// Merging a list again into what the merge left adds nothing and leaves
/// the list as it is.
pub proof fn lemma_merged_list_settles(have: Seq<JsonValue>, offered: Seq<JsonValue>)
    ensures
        merged_list(merged_list(have, offered), offered) == merged_list(have, offered),
        added(merged_list(have, offered), offered) == Seq::<Seq<char>>::empty(),
{
    let strings = merged_texts(have, offered);
    let merged = merged_list(have, offered);
    lemma_merged_texts(have, offered);
    lemma_texts_of_text_list(strings);
    lemma_fresh_of_distinct(strings);
    assert forall|s: Seq<char>| texts(offered).contains(s) implies strings.to_set().contains(
        s,
    ) by {
        assert(texts(offered).to_set().contains(s));
    }
    lemma_fresh_of_known(strings.to_set(), texts(offered));
    assert(merged_texts(merged, offered) =~= strings);
}

/// Whether merging the offered list into the list `name` of `permissions`
/// adds nothing and changes nothing.
pub open spec fn list_settled(
    permissions: JsonValue,
    offered: Option<Seq<JsonValue>>,
    name: Seq<char>,
) -> bool {
    list_merged(permissions, offered, name) == Some((permissions, Seq::<Seq<char>>::empty()))
}

/// After a list was merged, merging it again adds nothing.
pub proof fn lemma_list_merged_settles(
    permissions: JsonValue,
    offered: Option<Seq<JsonValue>>,
    name: Seq<char>,
)
    requires
        list_merged(permissions, offered, name) is Some,
    ensures
        list_settled((list_merged(permissions, offered, name)->0).0, offered, name),
{
    if let Some(list) = offered {
        let have = held_list(permissions, name)->0;
        let merged = JsonValue::List(merged_list(have, list));
        let members = with_member(permissions->Object_0, name, merged);
        lemma_merged_list_settles(have, list);
        lemma_member_with_member(permissions->Object_0, name, merged, name);
        lemma_with_member_same(members, name, merged);
    }
}

/// Permissions that differ only in what they hold under other names are
/// settled together.
pub proof fn lemma_list_settled_elsewhere(
    permissions: JsonValue,
    other: JsonValue,
    offered: Option<Seq<JsonValue>>,
    name: Seq<char>,
)
    requires
        list_settled(permissions, offered, name),
        other.get(name) == permissions.get(name),
    ensures
        list_settled(other, offered, name),
{
    if let Some(list) = offered {
        let have = held_list(permissions, name)->0;
        let merged = JsonValue::List(merged_list(have, list));
        lemma_member_with_member(permissions->Object_0, name, merged, name);
        assert(merged == JsonValue::List(have));
        lemma_with_member_same(other->Object_0, name, merged);
    }
}

/// Merging one list leaves what the permissions hold under other names.
pub proof fn lemma_list_merged_keeps(
    permissions: JsonValue,
    offered: Option<Seq<JsonValue>>,
    name: Seq<char>,
    other: Seq<char>,
)
    requires
        list_merged(permissions, offered, name) is Some,
        other != name,
    ensures
        (list_merged(permissions, offered, name)->0).0.get(other) == permissions.get(other),
{
    if let Some(list) = offered {
        let have = held_list(permissions, name)->0;
        lemma_member_with_member(
            permissions->Object_0,
            name,
            JsonValue::List(merged_list(have, list)),
            other,
        );
    }
}

/// After the rules of a source were merged into permissions, merging them
/// again adds no item and leaves the permissions as they are.
pub proof fn lemma_permissions_merged_settles(
    permissions: JsonValue,
    offered: JsonValue,
    allow_tag: Seq<char>,
    deny_tag: Seq<char>,
)
    requires
        permissions_merged(permissions, offered, allow_tag, deny_tag) is Ok,
    ensures
        permissions_merged(
            (permissions_merged(permissions, offered, allow_tag, deny_tag)->Ok_0).0,
            offered,
            allow_tag,
            deny_tag,
        ) == Ok::<(JsonValue, Seq<Seq<char>>), MergeError>(
            (
                (permissions_merged(permissions, offered, allow_tag, deny_tag)->Ok_0).0,
                Seq::empty(),
            ),
        ),
{
    let allow = offered_list(offered, "allow"@);
    let deny = offered_list(offered, "deny"@);
    let allowed = (list_merged(permissions, allow, "allow"@)->0).0;
    let merged = (list_merged(allowed, deny, "deny"@)->0).0;
    lemma_allow_is_not_deny();
    lemma_list_merged_settles(permissions, allow, "allow"@);
    lemma_list_merged_keeps(allowed, deny, "deny"@, "allow"@);
    lemma_list_settled_elsewhere(allowed, merged, allow, "allow"@);
    lemma_list_merged_settles(allowed, deny, "deny"@);
    assert(tag_all(allow_tag, Seq::empty()) + tag_all(deny_tag, Seq::empty()) =~= Seq::<
        Seq<char>,
    >::empty());
}

/// Merging the permissions of a source twice: the second merge adds no item
/// and leaves the document that the first one left.
pub proof fn lemma_scoped_merge_twice(target: JsonValue, source: JsonValue)
    requires
        scoped_merge(target, source) is Ok,
    ensures
        scoped_merge((scoped_merge(target, source)->Ok_0).0, source) == Ok::<
            (JsonValue, Seq<Seq<char>>),
            MergeError,
        >(((scoped_merge(target, source)->Ok_0).0, Seq::empty())),
{
    let members = target_members(target)->0;
    let offered = match source.get("permissions"@) {
        Some(offered) => offered,
        None => JsonValue::Null,
    };
    let before = member_or(members, "permissions"@, default_permissions());
    let permissions = (permissions_merged(before, offered, "allow:"@, "deny:"@)->Ok_0).0;
    let merged = with_member(members, "permissions"@, permissions);
    lemma_permissions_merged_settles(before, offered, "allow:"@, "deny:"@);
    lemma_member_with_member(members, "permissions"@, permissions, "permissions"@);
    lemma_with_member_same(merged, "permissions"@, permissions);
}

/// Merged variables keep every key they had and hold the key of every
/// member offered.
pub proof fn lemma_env_merged_keys(
    have: Seq<(Seq<char>, JsonValue)>,
    offered: Seq<(Seq<char>, JsonValue)>,
)
    ensures
        forall|key: Seq<char>|
            has_key(have, key) ==> member(#[trigger] env_merged(have, offered).0, key) == member(
                have,
                key,
            ),
        forall|i: int|
            0 <= i < offered.len() ==> has_key(
                env_merged(have, offered).0,
                (#[trigger] offered[i]).0,
            ),
        forall|key: Seq<char>| #[trigger]
            has_key(env_merged(have, offered).0, key) ==> has_key(have, key) || exists|i: int|
                0 <= i < offered.len() && (#[trigger] offered[i]).0 == key,
    decreases offered.len(),
{
    if offered.len() > 0 {
        let rest = offered.drop_last();
        let before = env_merged(have, rest).0;
        let after = env_merged(have, offered).0;
        lemma_env_merged_keys(have, rest);
        assert forall|key: Seq<char>| has_key(have, key) implies member(after, key) == member(
            have,
            key,
        ) by {
            assert(member(before, key) == member(have, key));
            lemma_member_push(before, offered.last(), key);
        }
        assert forall|i: int| 0 <= i < offered.len() implies has_key(
            after,
            (#[trigger] offered[i]).0,
        ) by {
            lemma_member_push(before, offered.last(), offered[i].0);
            if i < rest.len() {
                assert(rest[i] == offered[i]);
            }
        }
        assert forall|key: Seq<char>| #[trigger] has_key(after, key) implies has_key(have, key)
            || exists|i: int| 0 <= i < offered.len() && (#[trigger] offered[i]).0 == key by {
            lemma_member_push(before, offered.last(), key);
            if has_key(before, key) {
                if !has_key(have, key) {
                    let i = choose|i: int| 0 <= i < rest.len() && (#[trigger] rest[i]).0 == key;
                    assert(offered[i].0 == key);
                }
            } else {
                assert(offered[offered.len() - 1].0 == key);
            }
        }
    }
}

/// Where the variables hold the key of every member offered, merging adds
/// nothing.
pub proof fn lemma_env_settled(
    have: Seq<(Seq<char>, JsonValue)>,
    offered: Seq<(Seq<char>, JsonValue)>,
)
    requires
        forall|i: int| 0 <= i < offered.len() ==> has_key(have, (#[trigger] offered[i]).0),
    ensures
        env_merged(have, offered) == (have, Seq::<Seq<char>>::empty()),
    decreases offered.len(),
{
    if offered.len() > 0 {
        let rest = offered.drop_last();
        assert forall|i: int| 0 <= i < rest.len() implies has_key(have, (#[trigger] rest[i]).0) by {
            assert(rest[i] == offered[i]);
        }
        lemma_env_settled(have, rest);
        assert(offered.last() == offered[offered.len() - 1]);
    }
}

/// Whether merging a member of a source into the members of a target adds
/// nothing and changes nothing.
pub open spec fn absorbed(
    members: Seq<(Seq<char>, JsonValue)>,
    key: Seq<char>,
    value: JsonValue,
) -> bool {
    full_step(members, key, value) == Ok::<
        (Seq<(Seq<char>, JsonValue)>, Seq<Seq<char>>),
        MergeError,
    >((members, Seq::empty()))
}

/// After a member was merged, merging it again adds nothing.
pub proof fn lemma_step_absorbs(
    members: Seq<(Seq<char>, JsonValue)>,
    key: Seq<char>,
    value: JsonValue,
)
    requires
        full_step(members, key, value) is Ok,
    ensures
        absorbed((full_step(members, key, value)->Ok_0).0, key, value),
{
    let merged = (full_step(members, key, value)->Ok_0).0;
    if key == "permissions"@ {
        let before = member_or(members, key, default_permissions());
        let permissions = (permissions_merged(
            before,
            value,
            "permissions.allow:"@,
            "permissions.deny:"@,
        )->Ok_0).0;
        lemma_permissions_merged_settles(
            before,
            value,
            "permissions.allow:"@,
            "permissions.deny:"@,
        );
        lemma_member_with_member(members, key, permissions, key);
        lemma_with_member_same(merged, key, permissions);
    } else if key == "env"@ {
        match (value, member_or(members, key, JsonValue::Object(Seq::empty()))) {
            (JsonValue::Object(offered), JsonValue::Object(have)) => {
                let variables = env_merged(have, offered).0;
                lemma_env_merged_keys(have, offered);
                lemma_env_settled(variables, offered);
                lemma_member_with_member(members, key, JsonValue::Object(variables), key);
                lemma_with_member_same(merged, key, JsonValue::Object(variables));
                assert(tag_all("env:"@, Seq::empty()) =~= Seq::<Seq<char>>::empty());
            },
            _ => {},
        }
    } else if !has_key(members, key) {
        lemma_member_push(members, (key, value), key);
    }
}

/// Merging a member leaves what the target holds under every other key.
pub proof fn lemma_step_keeps_other(
    members: Seq<(Seq<char>, JsonValue)>,
    key: Seq<char>,
    value: JsonValue,
    other: Seq<char>,
)
    requires
        full_step(members, key, value) is Ok,
        other != key,
    ensures
        member((full_step(members, key, value)->Ok_0).0, other) == member(members, other),
        has_key((full_step(members, key, value)->Ok_0).0, other) == has_key(members, other),
{
    if key == "permissions"@ {
        let permissions = (permissions_merged(
            member_or(members, key, default_permissions()),
            value,
            "permissions.allow:"@,
            "permissions.deny:"@,
        )->Ok_0).0;
        lemma_member_with_member(members, key, permissions, other);
    } else if key == "env"@ {
        match (value, member_or(members, key, JsonValue::Object(Seq::empty()))) {
            (JsonValue::Object(offered), JsonValue::Object(have)) => {
                lemma_member_with_member(
                    members,
                    key,
                    JsonValue::Object(env_merged(have, offered).0),
                    other,
                );
            },
            _ => {},
        }
    } else if !has_key(members, key) {
        lemma_member_push(members, (key, value), other);
    }
}

/// A list that holds every string of `known` still holds them after the
/// list `offered` was merged into it: merging `known` then adds nothing.
pub proof fn lemma_merged_list_still_settled(
    have: Seq<JsonValue>,
    known: Seq<JsonValue>,
    offered: Seq<JsonValue>,
)
    requires
        added(have, known) == Seq::<Seq<char>>::empty(),
    ensures
        merged_list(merged_list(have, offered), known) == merged_list(have, offered),
        added(merged_list(have, offered), known) == Seq::<Seq<char>>::empty(),
{
    let strings = merged_texts(have, offered);
    let merged = merged_list(have, offered);
    lemma_merged_texts(have, offered);
    lemma_texts_of_text_list(strings);
    lemma_fresh_of_distinct(strings);
    crate::lists::lemma_fresh(texts(have).to_set(), texts(known));
    assert forall|s: Seq<char>| texts(known).contains(s) implies strings.to_set().contains(
        s,
    ) by {
        if !texts(have).to_set().contains(s) {
            assert(added(have, known).contains(s));
        }
    }
    lemma_fresh_of_known(strings.to_set(), texts(known));
    assert(merged_texts(merged, known) =~= strings);
}

/// Permissions in which a list is settled keep it settled when any list is
/// merged into them under any name.
pub proof fn lemma_list_settled_stays(
    permissions: JsonValue,
    known: Option<Seq<JsonValue>>,
    name: Seq<char>,
    offered: Option<Seq<JsonValue>>,
    other: Seq<char>,
)
    requires
        list_settled(permissions, known, name),
        list_merged(permissions, offered, other) is Some,
    ensures
        list_settled((list_merged(permissions, offered, other)->0).0, known, name),
{
    let merged = (list_merged(permissions, offered, other)->0).0;
    if other != name {
        lemma_list_merged_keeps(permissions, offered, other, name);
        lemma_list_settled_elsewhere(permissions, merged, known, name);
    } else if let Some(list) = known {
        if let Some(more) = offered {
            let have = held_list(permissions, name)->0;
            lemma_member_with_member(
                permissions->Object_0,
                name,
                JsonValue::List(merged_list(have, list)),
                name,
            );
            assert(merged_list(have, list) == have);
            lemma_merged_list_still_settled(have, list, more);
            lemma_member_with_member(
                permissions->Object_0,
                name,
                JsonValue::List(merged_list(have, more)),
                name,
            );
            lemma_with_member_same(
                merged->Object_0,
                name,
                JsonValue::List(merged_list(have, more)),
            );
        }
    }
}

/// Whether merging the rules of `offered` into `permissions` adds no item
/// and changes nothing.
pub open spec fn rules_settled(
    permissions: JsonValue,
    offered: JsonValue,
    allow_tag: Seq<char>,
    deny_tag: Seq<char>,
) -> bool {
    permissions_merged(permissions, offered, allow_tag, deny_tag) == Ok::<
        (JsonValue, Seq<Seq<char>>),
        MergeError,
    >((permissions, Seq::empty()))
}

/// The rules are settled exactly where both lists are.
pub proof fn lemma_rules_settled(
    permissions: JsonValue,
    offered: JsonValue,
    allow_tag: Seq<char>,
    deny_tag: Seq<char>,
)
    ensures
        rules_settled(permissions, offered, allow_tag, deny_tag) <==> list_settled(
            permissions,
            offered_list(offered, "allow"@),
            "allow"@,
        ) && list_settled(permissions, offered_list(offered, "deny"@), "deny"@),
{
    let allow = offered_list(offered, "allow"@);
    let deny = offered_list(offered, "deny"@);
    lemma_allow_is_not_deny();
    if rules_settled(permissions, offered, allow_tag, deny_tag) {
        let first = list_merged(permissions, allow, "allow"@)->0;
        let second = list_merged(first.0, deny, "deny"@)->0;
        let items = tag_all(allow_tag, first.1) + tag_all(deny_tag, second.1);
        assert(items.len() == first.1.len() + second.1.len());
        assert(first.1 =~= Seq::<Seq<char>>::empty());
        assert(second.1 =~= Seq::<Seq<char>>::empty());
        lemma_list_merged_keeps(first.0, deny, "deny"@, "allow"@);
        if let Some(list) = allow {
            let have = held_list(permissions, "allow"@)->0;
            lemma_member_with_member(
                permissions->Object_0,
                "allow"@,
                JsonValue::List(merged_list(have, list)),
                "allow"@,
            );
            lemma_with_member_same(
                permissions->Object_0,
                "allow"@,
                JsonValue::List(merged_list(have, list)),
            );
        }
        assert(first.0 == permissions);
    }
    if list_settled(permissions, allow, "allow"@) && list_settled(permissions, deny, "deny"@) {
        assert(tag_all(allow_tag, Seq::empty()) + tag_all(deny_tag, Seq::empty()) =~= Seq::<
            Seq<char>,
        >::empty());
    }
}

/// Permissions in which the rules of `known` are settled keep them settled
/// when the rules of any source are merged into them.
pub proof fn lemma_rules_settled_stay(
    permissions: JsonValue,
    known: JsonValue,
    offered: JsonValue,
    allow_tag: Seq<char>,
    deny_tag: Seq<char>,
)
    requires
        rules_settled(permissions, known, allow_tag, deny_tag),
        permissions_merged(permissions, offered, allow_tag, deny_tag) is Ok,
    ensures
        rules_settled(
            (permissions_merged(permissions, offered, allow_tag, deny_tag)->Ok_0).0,
            known,
            allow_tag,
            deny_tag,
        ),
{
    let allow = offered_list(offered, "allow"@);
    let deny = offered_list(offered, "deny"@);
    let first = (list_merged(permissions, allow, "allow"@)->0).0;
    let second = (list_merged(first, deny, "deny"@)->0).0;
    lemma_rules_settled(permissions, known, allow_tag, deny_tag);
    lemma_list_settled_stays(
        permissions,
        offered_list(known, "allow"@),
        "allow"@,
        allow,
        "allow"@,
    );
    lemma_list_settled_stays(permissions, offered_list(known, "deny"@), "deny"@, allow, "allow"@);
    lemma_list_settled_stays(first, offered_list(known, "allow"@), "allow"@, deny, "deny"@);
    lemma_list_settled_stays(first, offered_list(known, "deny"@), "deny"@, deny, "deny"@);
    lemma_rules_settled(second, known, allow_tag, deny_tag);
}

/// A member that is absorbed stays absorbed when any member is merged.
pub proof fn lemma_absorbed_stays(
    members: Seq<(Seq<char>, JsonValue)>,
    key: Seq<char>,
    value: JsonValue,
    next_key: Seq<char>,
    next_value: JsonValue,
)
    requires
        absorbed(members, key, value),
        full_step(members, next_key, next_value) is Ok,
    ensures
        absorbed((full_step(members, next_key, next_value)->Ok_0).0, key, value),
{
    let merged = (full_step(members, next_key, next_value)->Ok_0).0;
    if next_key != key {
        lemma_step_keeps_other(members, next_key, next_value, key);
    }
    if key == "permissions"@ {
        let permissions = (permissions_merged(
            member_or(members, key, default_permissions()),
            value,
            "permissions.allow:"@,
            "permissions.deny:"@,
        )->Ok_0).0;
        lemma_member_with_member(members, key, permissions, key);
        if !has_key(members, key) {
            assert(members.push((key, permissions)).len() != members.len());
        }
        if next_key != key {
            lemma_with_member_same(merged, key, permissions);
        } else {
            let later = (permissions_merged(
                permissions,
                next_value,
                "permissions.allow:"@,
                "permissions.deny:"@,
            )->Ok_0).0;
            lemma_rules_settled_stay(
                permissions,
                value,
                next_value,
                "permissions.allow:"@,
                "permissions.deny:"@,
            );
            lemma_member_with_member(members, key, later, key);
            lemma_with_member_same(merged, key, later);
        }
    } else if key == "env"@ {
        match (value, member_or(members, key, JsonValue::Object(Seq::empty()))) {
            (JsonValue::Object(offered), JsonValue::Object(have)) => {
                let variables = JsonValue::Object(env_merged(have, offered).0);
                lemma_member_with_member(members, key, variables, key);
                if !has_key(members, key) {
                    assert(members.push((key, variables)).len() != members.len());
                }
                if next_key != key {
                    lemma_with_member_same(merged, key, variables);
                } else if let JsonValue::Object(more) = next_value {
                    let later = env_merged(have, more).0;
                    lemma_env_merged_keys(have, offered);
                    lemma_env_merged_keys(have, more);
                    assert forall|i: int| 0 <= i < offered.len() implies has_key(
                        later,
                        (#[trigger] offered[i]).0,
                    ) by {
                        assert(has_key(have, offered[i].0));
                        assert(member(later, offered[i].0) == member(have, offered[i].0));
                    }
                    lemma_env_settled(later, offered);
                    lemma_member_with_member(members, key, JsonValue::Object(later), key);
                    lemma_with_member_same(merged, key, JsonValue::Object(later));
                    assert(tag_all("env:"@, Seq::empty()) =~= Seq::<Seq<char>>::empty());
                }
            },
            _ => {},
        }
    } else {
        if !has_key(members, key) {
            assert(members.push((key, value)).len() != members.len());
        }
    }
}

/// After the members of a source were merged, each of them is absorbed.
pub proof fn lemma_fold_absorbs(
    members: Seq<(Seq<char>, JsonValue)>,
    offered: Seq<(Seq<char>, JsonValue)>,
)
    requires
        full_fold(members, offered) is Ok,
    ensures
        forall|i: int|
            0 <= i < offered.len() ==> absorbed(
                (full_fold(members, offered)->Ok_0).0,
                (#[trigger] offered[i]).0,
                offered[i].1,
            ),
    decreases offered.len(),
{
    if offered.len() > 0 {
        let rest = offered.drop_last();
        let last = offered.last();
        let before = (full_fold(members, rest)->Ok_0).0;
        let merged = (full_fold(members, offered)->Ok_0).0;
        lemma_fold_absorbs(members, rest);
        assert forall|i: int| 0 <= i < offered.len() implies absorbed(
            merged,
            (#[trigger] offered[i]).0,
            offered[i].1,
        ) by {
            if i < rest.len() {
                assert(rest[i] == offered[i]);
                lemma_absorbed_stays(before, offered[i].0, offered[i].1, last.0, last.1);
            } else {
                lemma_step_absorbs(before, last.0, last.1);
            }
        }
    }
}

/// Where every member offered is absorbed, merging them adds nothing.
pub proof fn lemma_fold_of_absorbed(
    members: Seq<(Seq<char>, JsonValue)>,
    offered: Seq<(Seq<char>, JsonValue)>,
)
    requires
        forall|i: int|
            0 <= i < offered.len() ==> absorbed(members, (#[trigger] offered[i]).0, offered[i].1),
    ensures
        full_fold(members, offered) == Ok::<
            (Seq<(Seq<char>, JsonValue)>, Seq<Seq<char>>),
            MergeError,
        >((members, Seq::empty())),
    decreases offered.len(),
{
    if offered.len() > 0 {
        let rest = offered.drop_last();
        assert forall|i: int| 0 <= i < rest.len() implies absorbed(
            members,
            (#[trigger] rest[i]).0,
            rest[i].1,
        ) by {
            assert(rest[i] == offered[i]);
        }
        lemma_fold_of_absorbed(members, rest);
        assert(offered.last() == offered[offered.len() - 1]);
        assert(Seq::<Seq<char>>::empty() + Seq::<Seq<char>>::empty() =~= Seq::<
            Seq<char>,
        >::empty());
    }
}

/// Merging a whole source twice: the second merge adds no item and leaves
/// the document that the first one left.
pub proof fn lemma_full_merge_twice(target: JsonValue, source: JsonValue)
    requires
        full_merge(target, source) is Ok,
    ensures
        full_merge((full_merge(target, source)->Ok_0).0, source) == Ok::<
            (JsonValue, Seq<Seq<char>>),
            MergeError,
        >(((full_merge(target, source)->Ok_0).0, Seq::empty())),
{
    match (target, source) {
        (JsonValue::Object(members), JsonValue::Object(offered)) => {
            lemma_fold_absorbs(members, offered);
            lemma_fold_of_absorbed((full_fold(members, offered)->Ok_0).0, offered);
        },
        _ => {},
    }
}

/// The list `permissions.<name>` of a document, where it has one.
pub open spec fn rules_of(document: JsonValue, name: Seq<char>) -> Option<Seq<JsonValue>> {
    match document.get("permissions"@) {
        Some(permissions) => match permissions.get(name) {
            Some(JsonValue::List(list)) => Some(list),
            _ => None,
        },
        None => None,
    }
}

/// The rules that a merge of permissions finds in a target under `name`: its
/// list, or none where the target has no permissions yet.
pub open spec fn rules_or_none(target: JsonValue, name: Seq<char>) -> Seq<JsonValue> {
    match rules_of(target, name) {
        Some(list) => list,
        None => Seq::empty(),
    }
}

/// The permissions that a target without any is given hold an empty list
/// under each of the two names.
pub proof fn lemma_default_holds(name: Seq<char>)
    requires
        name == "allow"@ || name == "deny"@,
    ensures
        held_list(default_permissions(), name) == Some(Seq::<JsonValue>::empty()),
{
    let members = default_permissions()->Object_0;
    lemma_allow_is_not_deny();
    if name == "allow"@ {
        crate::json::lemma_key_index_is(members, name, 0);
    } else {
        crate::json::lemma_key_index_is(members, name, 1);
    }
}

/// After the rules of a source were merged into permissions, the list under
/// `allow` or `deny` that the source offers a list for is the merged list.
pub proof fn lemma_permissions_merged_rules(
    permissions: JsonValue,
    offered: JsonValue,
    allow_tag: Seq<char>,
    deny_tag: Seq<char>,
    name: Seq<char>,
)
    requires
        permissions_merged(permissions, offered, allow_tag, deny_tag) is Ok,
        name == "allow"@ || name == "deny"@,
        offered_list(offered, name) is Some,
    ensures
        held_list(permissions, name) is Some,
        offered_list(
            (permissions_merged(permissions, offered, allow_tag, deny_tag)->Ok_0).0,
            name,
        ) == Some(merged_list(held_list(permissions, name)->0, offered_list(offered, name)->0)),
{
    let allow = offered_list(offered, "allow"@);
    let deny = offered_list(offered, "deny"@);
    let allowed = (list_merged(permissions, allow, "allow"@)->0).0;
    lemma_allow_is_not_deny();
    lemma_list_merged_keeps(permissions, allow, "allow"@, "deny"@);
    lemma_list_merged_keeps(allowed, deny, "deny"@, "allow"@);
    if name == "allow"@ {
        lemma_member_with_member(
            permissions->Object_0,
            name,
            JsonValue::List(merged_list(held_list(permissions, name)->0, allow->0)),
            name,
        );
    } else {
        lemma_member_with_member(
            allowed->Object_0,
            name,
            JsonValue::List(merged_list(held_list(allowed, name)->0, deny->0)),
            name,
        );
        if allow is Some {
            lemma_member_with_member(
                permissions->Object_0,
                "allow"@,
                JsonValue::List(merged_list(held_list(permissions, "allow"@)->0, allow->0)),
                name,
            );
        }
    }
}

/// The rules that a merge finds in a target under `allow` or `deny` are those
/// that the permissions it starts from hold: the target's own, or the empty
/// ones that a target without permissions is given.
pub proof fn lemma_rules_found(members: Seq<(Seq<char>, JsonValue)>, name: Seq<char>)
    requires
        name == "allow"@ || name == "deny"@,
        held_list(member_or(members, "permissions"@, default_permissions()), name) is Some,
    ensures
        held_list(member_or(members, "permissions"@, default_permissions()), name)->0
            == rules_or_none(JsonValue::Object(members), name),
{
    lemma_default_holds(name);
}

/// What the law of sets says of a merged list: it holds strings alone, each
/// string of the two lists once, and so has as many items as there are
/// different strings in the two together.
pub open spec fn merged_as_sets(have: Seq<JsonValue>, offered: Seq<JsonValue>) -> bool {
    &&& texts(merged_list(have, offered)) == merged_texts(have, offered)
    &&& merged_texts(have, offered).no_duplicates()
    &&& merged_texts(have, offered).to_set() == texts(have).to_set().union(
        texts(offered).to_set(),
    )
    &&& merged_list(have, offered).len() == texts(have).to_set().union(
        texts(offered).to_set(),
    ).len()
}

/// Every merged list is merged as sets are.
pub proof fn lemma_merged_as_sets(have: Seq<JsonValue>, offered: Seq<JsonValue>)
    ensures
        merged_as_sets(have, offered),
{
    lemma_merged_texts(have, offered);
    lemma_texts_of_text_list(merged_texts(have, offered));
    crate::lists::lemma_merged_list_len(have, offered);
}

/// After a merge of permissions, a list that the source offers under `allow`
/// or `deny` has been merged into the target's as a set: the target's list
/// holds strings alone, each string of the two lists once, and so has as
/// many items as there are different strings in the two together.
pub proof fn lemma_scoped_merge_rules(target: JsonValue, source: JsonValue, name: Seq<char>)
    requires
        scoped_merge(target, source) is Ok,
        name == "allow"@ || name == "deny"@,
        rules_of(source, name) is Some,
    ensures
        rules_of((scoped_merge(target, source)->Ok_0).0, name) == Some(
            merged_list(rules_or_none(target, name), rules_of(source, name)->0),
        ),
        merged_as_sets(rules_or_none(target, name), rules_of(source, name)->0),
{
    let members = target_members(target)->0;
    let offered = source.get("permissions"@)->0;
    let before = member_or(members, "permissions"@, default_permissions());
    let permissions = (permissions_merged(before, offered, "allow:"@, "deny:"@)->Ok_0).0;
    lemma_permissions_merged_rules(before, offered, "allow:"@, "deny:"@, name);
    lemma_rules_found(members, name);
    lemma_member_with_member(members, "permissions"@, permissions, "permissions"@);
    assert(rules_or_none(target, name) == rules_or_none(JsonValue::Object(members), name)) by {
        if target is Null {
            lemma_key_index(members, "permissions"@);
        }
    }
    lemma_merged_as_sets(rules_or_none(target, name), rules_of(source, name)->0);
}

/// A fold leaves what the target holds under a key that no member of the
/// source has.
pub proof fn lemma_fold_untouched(
    members: Seq<(Seq<char>, JsonValue)>,
    offered: Seq<(Seq<char>, JsonValue)>,
    key: Seq<char>,
)
    requires
        full_fold(members, offered) is Ok,
        !has_key(offered, key),
    ensures
        member((full_fold(members, offered)->Ok_0).0, key) == member(members, key),
    decreases offered.len(),
{
    if offered.len() > 0 {
        let rest = offered.drop_last();
        let last = offered.last();
        assert(offered =~= rest.push(last));
        lemma_member_push(rest, last, key);
        lemma_fold_untouched(members, rest, key);
        lemma_step_keeps_other((full_fold(members, rest)->Ok_0).0, last.0, last.1, key);
    }
}

/// Where no two members of the source share a key and one of them is
/// `permissions`, the permissions after a full merge are those of the target,
/// or the empty ones, with the rules of that member merged into them.
pub proof fn lemma_fold_permissions(
    members: Seq<(Seq<char>, JsonValue)>,
    offered: Seq<(Seq<char>, JsonValue)>,
)
    requires
        full_fold(members, offered) is Ok,
        crate::json::distinct_keys(offered),
        has_key(offered, "permissions"@),
    ensures
        permissions_merged(
            member_or(members, "permissions"@, default_permissions()),
            member(offered, "permissions"@)->0,
            "permissions.allow:"@,
            "permissions.deny:"@,
        ) is Ok,
        member((full_fold(members, offered)->Ok_0).0, "permissions"@) == Some(
            (permissions_merged(
                member_or(members, "permissions"@, default_permissions()),
                member(offered, "permissions"@)->0,
                "permissions.allow:"@,
                "permissions.deny:"@,
            )->Ok_0).0,
        ),
    decreases offered.len(),
{
    let key = "permissions"@;
    if offered.len() > 0 {
        let rest = offered.drop_last();
        let last = offered.last();
        let before = (full_fold(members, rest)->Ok_0).0;
        assert(offered =~= rest.push(last));
        lemma_member_push(rest, last, key);
        assert(crate::json::distinct_keys(rest)) by {
            assert forall|i: int, j: int| 0 <= i < j < rest.len() implies (#[trigger] rest[i]).0
                != (#[trigger] rest[j]).0 by {
                assert(rest[i] == offered[i]);
                assert(rest[j] == offered[j]);
            }
        }
        if has_key(rest, key) {
            lemma_key_index(rest, key);
            let i = crate::json::key_index(rest, key);
            assert(offered[i].0 == offered[offered.len() - 1].0 ==> false) by {
                assert(rest[i] == offered[i]);
            }
            lemma_fold_permissions(members, rest);
            lemma_step_keeps_other(before, last.0, last.1, key);
        } else {
            lemma_fold_untouched(members, rest, key);
            let merged = (permissions_merged(
                member_or(before, key, default_permissions()),
                last.1,
                "permissions.allow:"@,
                "permissions.deny:"@,
            )->Ok_0).0;
            lemma_member_with_member(before, key, merged, key);
        }
    } else {
        lemma_key_index(offered, key);
    }
}

/// After a full merge of a source in which no two members share a key, a
/// list that the source offers under `permissions.allow` or
/// `permissions.deny` has been merged into the target's as a set: the
/// target's list holds strings alone, each string of the two lists once, and
/// so has as many items as there are different strings in the two together.
pub proof fn lemma_full_merge_rules(target: JsonValue, source: JsonValue, name: Seq<char>)
    requires
        full_merge(target, source) is Ok,
        target is Object,
        source is Object,
        crate::json::distinct_keys(source->Object_0),
        name == "allow"@ || name == "deny"@,
        rules_of(source, name) is Some,
    ensures
        rules_of((full_merge(target, source)->Ok_0).0, name) == Some(
            merged_list(rules_or_none(target, name), rules_of(source, name)->0),
        ),
        merged_as_sets(rules_or_none(target, name), rules_of(source, name)->0),
{
    let members = target->Object_0;
    let offered = source->Object_0;
    let before = member_or(members, "permissions"@, default_permissions());
    lemma_fold_permissions(members, offered);
    lemma_permissions_merged_rules(
        before,
        member(offered, "permissions"@)->0,
        "permissions.allow:"@,
        "permissions.deny:"@,
        name,
    );
    lemma_rules_found(members, name);
    lemma_merged_as_sets(rules_or_none(target, name), rules_of(source, name)->0);
}

/// In a full merge the target wins: whatever it holds under a key other than
/// `permissions` and `env`, it holds after the merge.
pub proof fn lemma_full_merge_keeps(target: JsonValue, source: JsonValue, key: Seq<char>)
    requires
        full_merge(target, source) is Ok,
        key != "permissions"@,
        key != "env"@,
        target.get(key) is Some,
    ensures
        (full_merge(target, source)->Ok_0).0.get(key) == target.get(key),
{
    match (target, source) {
        (JsonValue::Object(members), JsonValue::Object(offered)) => {
            lemma_fold_keeps(members, offered, key);
        },
        _ => {},
    }
}

/// A fold leaves what the target holds under a key other than `permissions`
/// and `env`.
pub proof fn lemma_fold_keeps(
    members: Seq<(Seq<char>, JsonValue)>,
    offered: Seq<(Seq<char>, JsonValue)>,
    key: Seq<char>,
)
    requires
        full_fold(members, offered) is Ok,
        key != "permissions"@,
        key != "env"@,
        has_key(members, key),
    ensures
        member((full_fold(members, offered)->Ok_0).0, key) == member(members, key),
    decreases offered.len(),
{
    if offered.len() > 0 {
        let rest = offered.drop_last();
        let last = offered.last();
        let before = (full_fold(members, rest)->Ok_0).0;
        lemma_fold_keeps(members, rest, key);
        if last.0 != key {
            lemma_step_keeps_other(before, last.0, last.1, key);
        }
    }
}

/// Whether the list `permissions.<name>` of a document holds `rule`.
pub open spec fn has_rule(document: JsonValue, name: Seq<char>, rule: Seq<char>) -> bool {
    match rules_of(document, name) {
        Some(list) => list.contains(JsonValue::Text(rule)),
        None => false,
    }
}

/// Whether the object `env` of a document holds the variable `name`.
pub open spec fn has_variable(document: JsonValue, name: Seq<char>) -> bool {
    match document.get("env"@) {
        Some(JsonValue::Object(variables)) => has_key(variables, name),
        _ => false,
    }
}

/// Whether `after` holds no top-level key, no variable and no rule that
/// `before` lacks.
pub open spec fn shrunk(before: JsonValue, after: JsonValue) -> bool {
    &&& forall|key: Seq<char>| (#[trigger] after.get(key)) is Some ==> before.get(key) is Some
    &&& forall|name: Seq<char>| #[trigger] has_variable(after, name) ==> has_variable(before, name)
    &&& forall|name: Seq<char>, rule: Seq<char>| #[trigger]
        has_rule(after, name, rule) ==> has_rule(before, name, rule)
}

/// What is found under a key among the members that were kept: nothing where
/// the items name the key, and what was there before where they do not.
pub proof fn lemma_member_of_kept(
    members: Seq<(Seq<char>, JsonValue)>,
    tag: Seq<char>,
    items: Seq<Seq<char>>,
    key: Seq<char>,
)
    ensures
        member(members_without(members, tag, items), key) == if items.contains(tag + key) {
            None
        } else {
            member(members, key)
        },
    decreases members.len(),
{
    reveal(Seq::filter);
    if members.len() > 0 {
        let rest = members.drop_last();
        let last = members.last();
        lemma_member_of_kept(rest, tag, items, key);
        assert(members =~= rest.push(last));
        lemma_member_push(rest, last, key);
        lemma_member_push(members_without(rest, tag, items), last, key);
    } else {
        lemma_key_index(members, key);
    }
}

/// A list that lost rules holds a string only where the list held it before
/// and the items do not name it.
pub proof fn lemma_rule_of_kept(
    list: Seq<JsonValue>,
    tag: Seq<char>,
    items: Seq<Seq<char>>,
    rule: Seq<char>,
)
    requires
        list_without(list, tag, items).contains(JsonValue::Text(rule)),
    ensures
        list.contains(JsonValue::Text(rule)),
        !items.contains(tag + rule),
    decreases list.len(),
{
    reveal(Seq::filter);
    let kept = list_without(list, tag, items);
    let found = JsonValue::Text(rule);
    if list.len() > 0 {
        let rest = list.drop_last();
        let i = choose|i: int| 0 <= i < kept.len() && kept[i] == found;
        if i < list_without(rest, tag, items).len() {
            assert(list_without(rest, tag, items)[i] == found);
            lemma_rule_of_kept(rest, tag, items, rule);
            let j = choose|j: int| 0 <= j < rest.len() && rest[j] == found;
            assert(list[j] == found);
        } else {
            assert(list[list.len() - 1] == found);
        }
    }
}

/// Dropping the top-level members that the items name only takes away, and
/// the members that stay are none that the items name.
pub proof fn lemma_keys_without(document: JsonValue, items: Seq<Seq<char>>)
    ensures
        shrunk(document, keys_without(document, items)),
        forall|key: Seq<char>|
            (#[trigger] keys_without(document, items).get(key)) is Some ==> !items.contains(key),
{
    let after = keys_without(document, items);
    if let JsonValue::Object(members) = document {
        assert forall|key: Seq<char>| #[trigger] after.get(key) == if items.contains(key) {
            None
        } else {
            document.get(key)
        } by {
            lemma_member_of_kept(members, Seq::empty(), items, key);
            assert(Seq::<char>::empty() + key =~= key);
        }
        assert(after.get("env"@) is Some ==> after.get("env"@) == document.get("env"@));
        assert(after.get("permissions"@) is Some ==> after.get("permissions"@) == document.get(
            "permissions"@,
        ));
    }
}

/// Dropping the variables that the items name only takes away, and the
/// variables that stay are none that the items name.
pub proof fn lemma_variables_without(document: JsonValue, items: Seq<Seq<char>>)
    ensures
        shrunk(document, variables_without(document, items)),
        forall|name: Seq<char>| #[trigger]
            has_variable(variables_without(document, items), name) ==> !items.contains(
                "env:"@ + name,
            ),
{
    let after = variables_without(document, items);
    if let Some(JsonValue::Object(variables)) = document.get("env"@) {
        let kept = JsonValue::Object(members_without(variables, "env:"@, items));
        let members = document->Object_0;
        lemma_permissions_is_not_env();
        assert forall|key: Seq<char>| #[trigger] after.get(key) == if key == "env"@ {
            Some(kept)
        } else {
            document.get(key)
        } by {
            lemma_member_with_member(members, "env"@, kept, key);
        }
        assert forall|name: Seq<char>| #[trigger] has_variable(after, name) implies has_variable(
            document,
            name,
        ) && !items.contains("env:"@ + name) by {
            lemma_member_of_kept(variables, "env:"@, items, name);
        }
        assert(after.get("permissions"@) == document.get("permissions"@));
        assert forall|name: Seq<char>, rule: Seq<char>| #[trigger]
            has_rule(after, name, rule) implies has_rule(document, name, rule) by {}
    }
}

/// Dropping the rules that the items name from one list only takes away,
/// and the rules that stay in that list are none that the items name.
pub proof fn lemma_rules_without(
    document: JsonValue,
    name: Seq<char>,
    tag: Seq<char>,
    items: Seq<Seq<char>>,
)
    ensures
        shrunk(document, rules_without(document, name, tag, items)),
        forall|rule: Seq<char>| #[trigger]
            has_rule(rules_without(document, name, tag, items), name, rule) ==> !items.contains(
                tag + rule,
            ),
{
    let after = rules_without(document, name, tag, items);
    if rules_of(document, name) is Some {
        let members = document->Object_0;
        let permissions = document.get("permissions"@)->0;
        let list = rules_of(document, name)->0;
        let kept = JsonValue::List(list_without(list, tag, items));
        let rewritten = JsonValue::Object(with_member(permissions->Object_0, name, kept));
        lemma_permissions_is_not_env();
        assert forall|key: Seq<char>| #[trigger] after.get(key) == if key == "permissions"@ {
            Some(rewritten)
        } else {
            document.get(key)
        } by {
            lemma_member_with_member(members, "permissions"@, rewritten, key);
        }
        assert(after.get("env"@) == document.get("env"@));
        assert forall|other: Seq<char>| #[trigger] rewritten.get(other) == if other == name {
            Some(kept)
        } else {
            permissions.get(other)
        } by {
            lemma_member_with_member(permissions->Object_0, name, kept, other);
        }
        assert forall|other: Seq<char>, rule: Seq<char>| #[trigger]
            has_rule(after, other, rule) implies has_rule(document, other, rule) && (other == name
            ==> !items.contains(tag + rule)) by {
            assert(after.get("permissions"@) == Some(rewritten));
            assert(rewritten.get(other) == if other == name {
                Some(kept)
            } else {
                permissions.get(other)
            });
            if other == name {
                lemma_rule_of_kept(list, tag, items, rule);
            }
        }
        assert forall|name: Seq<char>| #[trigger] has_variable(after, name) implies has_variable(
            document,
            name,
        ) by {}
    }
}

/// A full unmerge only takes away, and what stays is nothing that the items
/// of the full merges name: no top-level member but `permissions` and `env`,
/// no variable and no rule.
pub proof fn lemma_full_unmerge_removes(
    document: JsonValue,
    full_items: Seq<Seq<char>>,
    all_items: Seq<Seq<char>>,
)
    ensures
        shrunk(document, full_unmerge(document, full_items, all_items)),
        forall|key: Seq<char>|
            (#[trigger] full_unmerge(document, full_items, all_items).get(key)) is Some
                ==> !full_items.contains(key),
        forall|name: Seq<char>| #[trigger]
            has_variable(full_unmerge(document, full_items, all_items), name)
                ==> !full_items.contains("env:"@ + name),
        forall|rule: Seq<char>| #[trigger]
            has_rule(full_unmerge(document, full_items, all_items), "allow"@, rule)
                ==> !full_items.contains("permissions.allow:"@ + rule),
        forall|rule: Seq<char>| #[trigger]
            has_rule(full_unmerge(document, full_items, all_items), "deny"@, rule)
                ==> !full_items.contains("permissions.deny:"@ + rule),
{
    let a = keys_without(document, full_items);
    let b = variables_without(a, full_items);
    let c = rules_without(b, "allow"@, "permissions.allow:"@, full_items);
    let d = rules_without(c, "deny"@, "permissions.deny:"@, full_items);
    let e = rules_without(d, "allow"@, "allow:"@, all_items);
    let f = rules_without(e, "deny"@, "deny:"@, all_items);
    lemma_keys_without(document, full_items);
    lemma_variables_without(a, full_items);
    lemma_rules_without(b, "allow"@, "permissions.allow:"@, full_items);
    lemma_rules_without(c, "deny"@, "permissions.deny:"@, full_items);
    lemma_rules_without(d, "allow"@, "allow:"@, all_items);
    lemma_rules_without(e, "deny"@, "deny:"@, all_items);
    assert(f == full_unmerge(document, full_items, all_items));
    assert(shrunk(a, f)) by {
        assert(shrunk(a, b) && shrunk(b, c) && shrunk(c, d) && shrunk(d, e) && shrunk(e, f));
        assert forall|key: Seq<char>| (#[trigger] f.get(key)) is Some implies a.get(key)
            is Some by {
            assert(e.get(key) is Some);
            assert(d.get(key) is Some);
            assert(c.get(key) is Some);
            assert(b.get(key) is Some);
        }
        assert forall|name: Seq<char>| #[trigger] has_variable(f, name) implies has_variable(
            a,
            name,
        ) by {
            assert(has_variable(e, name));
            assert(has_variable(d, name));
            assert(has_variable(c, name));
            assert(has_variable(b, name));
        }
        assert forall|name: Seq<char>, rule: Seq<char>| #[trigger]
            has_rule(f, name, rule) implies has_rule(a, name, rule) by {
            assert(has_rule(e, name, rule));
            assert(has_rule(d, name, rule));
            assert(has_rule(c, name, rule));
            assert(has_rule(b, name, rule));
        }
    }
    assert forall|name: Seq<char>| #[trigger] has_variable(f, name) implies !full_items.contains(
        "env:"@ + name,
    ) by {
        assert(has_variable(e, name));
        assert(has_variable(d, name));
        assert(has_variable(c, name));
        assert(has_variable(b, name));
    }
    assert forall|rule: Seq<char>| #[trigger] has_rule(f, "allow"@, rule) implies
        !full_items.contains("permissions.allow:"@ + rule) by {
        assert(has_rule(e, "allow"@, rule));
        assert(has_rule(d, "allow"@, rule));
        assert(has_rule(c, "allow"@, rule));
    }
    assert forall|rule: Seq<char>| #[trigger] has_rule(f, "deny"@, rule) implies
        !full_items.contains("permissions.deny:"@ + rule) by {
        assert(has_rule(e, "deny"@, rule));
        assert(has_rule(d, "deny"@, rule));
    }
    assert forall|key: Seq<char>| (#[trigger] f.get(key)) is Some implies !full_items.contains(
        key,
    ) by {
        assert(a.get(key) is Some);
    }
}

/// A list holds a string as an item exactly where its strings hold it.
pub proof fn lemma_texts_contains(list: Seq<JsonValue>, s: Seq<char>)
    ensures
        texts(list).contains(s) <==> list.contains(JsonValue::Text(s)),
    decreases list.len(),
{
    let found = JsonValue::Text(s);
    if list.len() > 0 {
        let rest = list.drop_last();
        lemma_texts_contains(rest, s);
        if texts(list).contains(s) {
            let i = choose|i: int| 0 <= i < texts(list).len() && texts(list)[i] == s;
            if i < texts(rest).len() {
                assert(texts(rest)[i] == s);
                let j = choose|j: int| 0 <= j < rest.len() && rest[j] == found;
                assert(list[j] == found);
            } else {
                assert(list[list.len() - 1] == found);
            }
        }
        if list.contains(found) {
            let j = choose|j: int| 0 <= j < list.len() && list[j] == found;
            if j < rest.len() {
                assert(rest[j] == found);
                let i = choose|i: int| 0 <= i < texts(rest).len() && texts(rest)[i] == s;
                assert(texts(list)[i] == s);
            } else {
                assert(texts(list)[texts(list).len() - 1] == s);
            }
        }
    }
}

/// A string of a merged list was in the list before or came in with the
/// merge.
pub proof fn lemma_merged_list_contains(
    have: Seq<JsonValue>,
    offered: Seq<JsonValue>,
    rule: Seq<char>,
)
    requires
        merged_list(have, offered).contains(JsonValue::Text(rule)),
    ensures
        have.contains(JsonValue::Text(rule)) || added(have, offered).contains(rule),
{
    let merged = merged_list(have, offered);
    let strings = merged_texts(have, offered);
    let kept = crate::lists::fresh(Set::empty(), texts(have));
    let i = choose|i: int| 0 <= i < merged.len() && merged[i] == JsonValue::Text(rule);
    assert(strings[i] == rule);
    if i < kept.len() {
        assert(kept[i] == rule);
        assert(kept.contains(rule));
        crate::lists::lemma_fresh(Set::empty(), texts(have));
        lemma_texts_contains(have, rule);
    } else {
        assert(added(have, offered)[i - kept.len()] == rule);
    }
}

/// Whether the list `name` of permissions holds `rule`.
pub open spec fn lists_rule(permissions: JsonValue, name: Seq<char>, rule: Seq<char>) -> bool {
    match permissions.get(name) {
        Some(JsonValue::List(list)) => list.contains(JsonValue::Text(rule)),
        _ => false,
    }
}

/// A rule that permissions list after a merge of their list `name` was
/// listed before or is one of the strings added.
pub proof fn lemma_list_merged_accounts(
    permissions: JsonValue,
    offered: Option<Seq<JsonValue>>,
    name: Seq<char>,
    rule: Seq<char>,
)
    requires
        list_merged(permissions, offered, name) is Some,
        lists_rule((list_merged(permissions, offered, name)->0).0, name, rule),
    ensures
        lists_rule(permissions, name, rule) || (list_merged(permissions, offered, name)->0).1.contains(
            rule,
        ),
{
    if let Some(list) = offered {
        let have = held_list(permissions, name)->0;
        lemma_member_with_member(
            permissions->Object_0,
            name,
            JsonValue::List(merged_list(have, list)),
            name,
        );
        lemma_merged_list_contains(have, list, rule);
    }
}

/// The permissions that a target without any is given list no rule.
pub proof fn lemma_default_lists_nothing(name: Seq<char>, rule: Seq<char>)
    ensures
        !lists_rule(default_permissions(), name, rule),
{
    let members = default_permissions()->Object_0;
    lemma_key_index(members, name);
    let empty = Seq::<JsonValue>::empty();
    assert(members[0].1 == JsonValue::List(empty));
    assert(members[1].1 == JsonValue::List(empty));
    assert(!empty.contains(JsonValue::Text(rule)));
}

/// A rule that permissions list after a merge was listed before or is named
/// by one of the items of the merge.
pub proof fn lemma_permissions_merged_accounts(
    permissions: JsonValue,
    offered: JsonValue,
    allow_tag: Seq<char>,
    deny_tag: Seq<char>,
    rule: Seq<char>,
)
    requires
        permissions_merged(permissions, offered, allow_tag, deny_tag) is Ok,
    ensures
        lists_rule(
            (permissions_merged(permissions, offered, allow_tag, deny_tag)->Ok_0).0,
            "allow"@,
            rule,
        ) ==> lists_rule(permissions, "allow"@, rule) || (permissions_merged(
            permissions,
            offered,
            allow_tag,
            deny_tag,
        )->Ok_0).1.contains(allow_tag + rule),
        lists_rule(
            (permissions_merged(permissions, offered, allow_tag, deny_tag)->Ok_0).0,
            "deny"@,
            rule,
        ) ==> lists_rule(permissions, "deny"@, rule) || (permissions_merged(
            permissions,
            offered,
            allow_tag,
            deny_tag,
        )->Ok_0).1.contains(deny_tag + rule),
{
    let allow = offered_list(offered, "allow"@);
    let deny = offered_list(offered, "deny"@);
    let first = list_merged(permissions, allow, "allow"@)->0;
    let second = list_merged(first.0, deny, "deny"@)->0;
    let items = tag_all(allow_tag, first.1) + tag_all(deny_tag, second.1);
    lemma_allow_is_not_deny();
    lemma_list_merged_keeps(permissions, allow, "allow"@, "deny"@);
    lemma_list_merged_keeps(first.0, deny, "deny"@, "allow"@);
    if lists_rule(second.0, "allow"@, rule) {
        lemma_list_merged_accounts(permissions, allow, "allow"@, rule);
        if first.1.contains(rule) {
            let i = choose|i: int| 0 <= i < first.1.len() && first.1[i] == rule;
            assert(items[i] == allow_tag + rule);
        }
    }
    if lists_rule(second.0, "deny"@, rule) {
        lemma_list_merged_accounts(first.0, deny, "deny"@, rule);
        if second.1.contains(rule) {
            let i = choose|i: int| 0 <= i < second.1.len() && second.1[i] == rule;
            assert(items[first.1.len() + i] == deny_tag + rule);
        }
    }
}

/// A key of merged variables was a key before or is one of the names added.
pub proof fn lemma_env_merged_names(
    have: Seq<(Seq<char>, JsonValue)>,
    offered: Seq<(Seq<char>, JsonValue)>,
    key: Seq<char>,
)
    requires
        has_key(env_merged(have, offered).0, key),
    ensures
        has_key(have, key) || env_merged(have, offered).1.contains(key),
    decreases offered.len(),
{
    if offered.len() > 0 {
        let rest = offered.drop_last();
        let before = env_merged(have, rest);
        let after = env_merged(have, offered);
        lemma_member_push(before.0, offered.last(), key);
        if has_key(before.0, key) {
            lemma_env_merged_names(have, rest, key);
            if before.1.contains(key) {
                let i = choose|i: int| 0 <= i < before.1.len() && before.1[i] == key;
                assert(after.1[i] == key);
            }
        } else {
            assert(after.1[after.1.len() - 1] == key);
        }
    }
}

/// Whether every top-level member but `permissions` and `env`, every
/// variable and every rule that `after` holds was in `before` or is named by
/// one of the items, as a full merge names what it adds.
pub open spec fn accounted(before: JsonValue, after: JsonValue, items: Seq<Seq<char>>) -> bool {
    &&& forall|key: Seq<char>|
        key != "permissions"@ && key != "env"@ && (#[trigger] after.get(key)) is Some
            ==> before.get(key) is Some || items.contains(key)
    &&& forall|name: Seq<char>| #[trigger]
        has_variable(after, name) ==> has_variable(before, name) || items.contains("env:"@ + name)
    &&& forall|rule: Seq<char>| #[trigger]
        has_rule(after, "allow"@, rule) ==> has_rule(before, "allow"@, rule) || items.contains(
            "permissions.allow:"@ + rule,
        )
    &&& forall|rule: Seq<char>| #[trigger]
        has_rule(after, "deny"@, rule) ==> has_rule(before, "deny"@, rule) || items.contains(
            "permissions.deny:"@ + rule,
        )
}

/// The items of one step of a full merge name what the step adds.
pub proof fn lemma_step_accounts(
    members: Seq<(Seq<char>, JsonValue)>,
    key: Seq<char>,
    value: JsonValue,
)
    requires
        full_step(members, key, value) is Ok,
    ensures
        accounted(
            JsonValue::Object(members),
            JsonValue::Object((full_step(members, key, value)->Ok_0).0),
            (full_step(members, key, value)->Ok_0).1,
        ),
{
    let merged = (full_step(members, key, value)->Ok_0).0;
    let items = (full_step(members, key, value)->Ok_0).1;
    let before = JsonValue::Object(members);
    let after = JsonValue::Object(merged);
    lemma_permissions_is_not_env();
    assert forall|other: Seq<char>| other != key implies #[trigger] after.get(other)
        == before.get(other) by {
        lemma_step_keeps_other(members, key, value, other);
    }
    if key == "permissions"@ {
        let had = member_or(members, key, default_permissions());
        let permissions = (permissions_merged(
            had,
            value,
            "permissions.allow:"@,
            "permissions.deny:"@,
        )->Ok_0).0;
        lemma_member_with_member(members, key, permissions, key);
        assert(after.get("env"@) == before.get("env"@));
        assert forall|rule: Seq<char>| #[trigger] has_rule(after, "allow"@, rule) implies has_rule(
            before,
            "allow"@,
            rule,
        ) || items.contains("permissions.allow:"@ + rule) by {
            lemma_permissions_merged_accounts(
                had,
                value,
                "permissions.allow:"@,
                "permissions.deny:"@,
                rule,
            );
            lemma_default_lists_nothing("allow"@, rule);
        }
        assert forall|rule: Seq<char>| #[trigger] has_rule(after, "deny"@, rule) implies has_rule(
            before,
            "deny"@,
            rule,
        ) || items.contains("permissions.deny:"@ + rule) by {
            lemma_permissions_merged_accounts(
                had,
                value,
                "permissions.allow:"@,
                "permissions.deny:"@,
                rule,
            );
            lemma_default_lists_nothing("deny"@, rule);
        }
    } else if key == "env"@ {
        assert(after.get("permissions"@) == before.get("permissions"@));
        match (value, member_or(members, key, JsonValue::Object(Seq::empty()))) {
            (JsonValue::Object(offered), JsonValue::Object(have)) => {
                let variables = env_merged(have, offered).0;
                let names = env_merged(have, offered).1;
                lemma_member_with_member(members, key, JsonValue::Object(variables), key);
                assert forall|name: Seq<char>| #[trigger]
                    has_variable(after, name) implies has_variable(before, name) || items.contains(
                    "env:"@ + name,
                ) by {
                    lemma_env_merged_names(have, offered, name);
                    if names.contains(name) {
                        let i = choose|i: int| 0 <= i < names.len() && names[i] == name;
                        assert(items[i] == "env:"@ + name);
                    }
                    if !has_key(members, key) {
                        lemma_key_index(Seq::<(Seq<char>, JsonValue)>::empty(), name);
                    }
                }
            },
            _ => {},
        }
    } else {
        assert(after.get("permissions"@) == before.get("permissions"@));
        assert(after.get("env"@) == before.get("env"@));
        if !has_key(members, key) {
            lemma_member_push(members, (key, value), key);
            assert(items[0] == key);
        }
    }
}

/// What is accounted for over two steps is accounted for over both.
pub proof fn lemma_accounted_twice(
    first: JsonValue,
    second: JsonValue,
    third: JsonValue,
    items: Seq<Seq<char>>,
    more: Seq<Seq<char>>,
)
    requires
        accounted(first, second, items),
        accounted(second, third, more),
    ensures
        accounted(first, third, items + more),
{
    let all = items + more;
    assert forall|s: Seq<char>| items.contains(s) || more.contains(s) implies all.contains(s) by {
        if items.contains(s) {
            let i = choose|i: int| 0 <= i < items.len() && items[i] == s;
            assert(all[i] == s);
        } else {
            let i = choose|i: int| 0 <= i < more.len() && more[i] == s;
            assert(all[items.len() + i] == s);
        }
    }
    assert forall|key: Seq<char>|
        key != "permissions"@ && key != "env"@ && (#[trigger] third.get(key)) is Some implies first.get(
        key,
    ) is Some || all.contains(key) by {
        if !more.contains(key) {
            assert(second.get(key) is Some);
        }
    }
    assert forall|name: Seq<char>| #[trigger] has_variable(third, name) implies has_variable(
        first,
        name,
    ) || all.contains("env:"@ + name) by {
        if !more.contains("env:"@ + name) {
            assert(has_variable(second, name));
        }
    }
    assert forall|rule: Seq<char>| #[trigger] has_rule(third, "allow"@, rule) implies has_rule(
        first,
        "allow"@,
        rule,
    ) || all.contains("permissions.allow:"@ + rule) by {
        if !more.contains("permissions.allow:"@ + rule) {
            assert(has_rule(second, "allow"@, rule));
        }
    }
    assert forall|rule: Seq<char>| #[trigger] has_rule(third, "deny"@, rule) implies has_rule(
        first,
        "deny"@,
        rule,
    ) || all.contains("permissions.deny:"@ + rule) by {
        if !more.contains("permissions.deny:"@ + rule) {
            assert(has_rule(second, "deny"@, rule));
        }
    }
}

/// The items of a full merge name everything that the merge adds.
pub proof fn lemma_fold_accounts(
    members: Seq<(Seq<char>, JsonValue)>,
    offered: Seq<(Seq<char>, JsonValue)>,
)
    requires
        full_fold(members, offered) is Ok,
    ensures
        accounted(
            JsonValue::Object(members),
            JsonValue::Object((full_fold(members, offered)->Ok_0).0),
            (full_fold(members, offered)->Ok_0).1,
        ),
    decreases offered.len(),
{
    if offered.len() > 0 {
        let rest = offered.drop_last();
        let last = offered.last();
        let before = full_fold(members, rest)->Ok_0;
        let step = full_step(before.0, last.0, last.1)->Ok_0;
        lemma_fold_accounts(members, rest);
        lemma_step_accounts(before.0, last.0, last.1);
        lemma_accounted_twice(
            JsonValue::Object(members),
            JsonValue::Object(before.0),
            JsonValue::Object(step.0),
            before.1,
            step.1,
        );
    }
}

/// A full merge from a source of which the history holds no record, then a
/// full unmerge of that source: the document is back at what it was before
/// the merge for everything that the merge brought in. A top-level member
/// other than `permissions` and `env`, a variable or a rule that the target
/// lacked before the merge, it lacks again; and the history is what it was.
pub proof fn lemma_full_merge_round_trip(
    target: JsonValue,
    source: JsonValue,
    history: Seq<RecordView>,
    name: Seq<char>,
    timestamp: Seq<char>,
)
    requires
        full_merge(target, source) is Ok,
        forall|i: int| 0 <= i < history.len() ==> (#[trigger] history[i]).source != name,
    ensures
        ({
            let merged = (full_merge(target, source)->Ok_0).0;
            let record = RecordView {
                source: name,
                timestamp: timestamp,
                merged_items: (full_merge(target, source)->Ok_0).1,
                full_merge: true,
            };
            let later = history.push(record);
            let restored = full_unmerge(
                merged,
                collected(later, name, true),
                collected(later, name, false),
            );
            &&& without_source(later, name) == history
            &&& forall|key: Seq<char>|
                key != "permissions"@ && key != "env"@ && target.get(key) is None ==> (
                #[trigger] restored.get(key)) is None
            &&& forall|variable: Seq<char>|
                !has_variable(target, variable) ==> !#[trigger] has_variable(restored, variable)
            &&& forall|rule: Seq<char>|
                !has_rule(target, "allow"@, rule) ==> !#[trigger] has_rule(
                    restored,
                    "allow"@,
                    rule,
                )
            &&& forall|rule: Seq<char>|
                !has_rule(target, "deny"@, rule) ==> !#[trigger] has_rule(restored, "deny"@, rule)
        }),
{
    let merged = (full_merge(target, source)->Ok_0).0;
    let items = (full_merge(target, source)->Ok_0).1;
    let record = RecordView {
        source: name,
        timestamp: timestamp,
        merged_items: items,
        full_merge: true,
    };
    let later = history.push(record);
    lemma_unknown_source(history, name, true);
    lemma_unknown_source(history, name, false);
    assert(later.drop_last() =~= history);
    assert(collected(later, name, true) =~= items);
    assert(collected(later, name, false) =~= items);
    assert(without_source(later, name) == history) by {
        reveal(Seq::filter);
    }
    let restored = full_unmerge(merged, items, items);
    lemma_full_unmerge_removes(merged, items, items);
    match (target, source) {
        (JsonValue::Object(members), JsonValue::Object(offered)) => {
            lemma_fold_accounts(members, offered);
        },
        _ => {},
    }
    assert(accounted(target, merged, items));
    assert forall|key: Seq<char>|
        key != "permissions"@ && key != "env"@ && target.get(key) is None implies (
    #[trigger] restored.get(key)) is None by {
        if restored.get(key) is Some {
            assert(merged.get(key) is Some);
        }
    }
    assert forall|variable: Seq<char>| !has_variable(target, variable) implies !#[trigger]
        has_variable(restored, variable) by {
        if has_variable(restored, variable) {
            assert(has_variable(merged, variable));
        }
    }
    assert forall|rule: Seq<char>| !has_rule(target, "allow"@, rule) implies !#[trigger]
        has_rule(restored, "allow"@, rule) by {
        if has_rule(restored, "allow"@, rule) {
            assert(has_rule(merged, "allow"@, rule));
        }
    }
    assert forall|rule: Seq<char>| !has_rule(target, "deny"@, rule) implies !#[trigger] has_rule(
        restored,
        "deny"@,
        rule,
    ) by {
        if has_rule(restored, "deny"@, rule) {
            assert(has_rule(merged, "deny"@, rule));
        }
    }
}

} // verus!
