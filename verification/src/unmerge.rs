//! Undoing merges: what a document is without the items that the history
//! holds for a source.

use vstd::prelude::*;
use crate::history::{collected, forget_source, items_from, record_views, without_source};
use crate::history::MergeHistory;
use crate::json::{
    lemma_view_list, lemma_view_object, list_view, members_view, put_member, with_member, Json,
    JsonValue,
};
use crate::merge::MergeManager;
use crate::shape::{
    lemma_full_unmerge_well_formed, lemma_scoped_unmerge_well_formed, well_formed,
};
use crate::text::{contains_text, tagged, views};

verus! {

/// A list without the strings that `items` name behind `tag`. What is no
/// string stays.
pub open spec fn list_without(list: Seq<JsonValue>, tag: Seq<char>, items: Seq<Seq<char>>) -> Seq<
    JsonValue,
> {
    list.filter(|item: JsonValue| !(item is Text && items.contains(tag + item->Text_0)))
}

/// Members without those whose key `items` name behind `tag`.
pub open spec fn members_without(
    members: Seq<(Seq<char>, JsonValue)>,
    tag: Seq<char>,
    items: Seq<Seq<char>>,
) -> Seq<(Seq<char>, JsonValue)> {
    members.filter(|entry: (Seq<char>, JsonValue)| !items.contains(tag + entry.0))
}

/// A document whose list `permissions.<name>` has lost the rules that
/// `items` name behind `tag`. A document without such a list is unchanged.
pub open spec fn rules_without(
    target: JsonValue,
    name: Seq<char>,
    tag: Seq<char>,
    items: Seq<Seq<char>>,
) -> JsonValue {
    match target.get("permissions"@) {
        Some(permissions) => match permissions.get(name) {
            Some(JsonValue::List(list)) => JsonValue::Object(
                with_member(
                    target->Object_0,
                    "permissions"@,
                    JsonValue::Object(
                        with_member(
                            permissions->Object_0,
                            name,
                            JsonValue::List(list_without(list, tag, items)),
                        ),
                    ),
                ),
            ),
            _ => target,
        },
        None => target,
    }
}

/// A document whose object `env` has lost the variables that `items` name
/// behind `env:`. A document without such an object is unchanged.
pub open spec fn variables_without(target: JsonValue, items: Seq<Seq<char>>) -> JsonValue {
    match target.get("env"@) {
        Some(JsonValue::Object(variables)) => JsonValue::Object(
            with_member(
                target->Object_0,
                "env"@,
                JsonValue::Object(members_without(variables, "env:"@, items)),
            ),
        ),
        _ => target,
    }
}

/// A document whose top-level members have lost those whose key is one of
/// `items`. What is no object is unchanged.
pub open spec fn keys_without(target: JsonValue, items: Seq<Seq<char>>) -> JsonValue {
    match target {
        JsonValue::Object(members) => JsonValue::Object(
            members_without(members, Seq::empty(), items),
        ),
        _ => target,
    }
}

/// What undoing the merges of permissions leaves: the document without the
/// rules that `items` name as `allow:` or `deny:` and the rule.
pub open spec fn scoped_unmerge(target: JsonValue, items: Seq<Seq<char>>) -> JsonValue {
    rules_without(rules_without(target, "allow"@, "allow:"@, items), "deny"@, "deny:"@, items)
}

/// What undoing the full merges leaves. `full_items` are the items of the
/// full merges: the document loses the top-level members, the variables and
/// the rules that they name. It then loses the rules that `all_items`, the
/// items of every merge, name as a merge of permissions names them.
pub open spec fn full_unmerge(
    target: JsonValue,
    full_items: Seq<Seq<char>>,
    all_items: Seq<Seq<char>>,
) -> JsonValue {
    scoped_unmerge(
        rules_without(
            rules_without(
                variables_without(keys_without(target, full_items), full_items),
                "allow"@,
                "permissions.allow:"@,
                full_items,
            ),
            "deny"@,
            "permissions.deny:"@,
            full_items,
        ),
        all_items,
    )
}

/// The items of `list` but the strings that `items` name behind `tag`.
fn filter_list(list: &Vec<Json>, tag: &str, items: &Vec<String>) -> (kept: Vec<Json>)
    ensures
        list_view(kept@) == list_without(list_view(list@), tag@, views(items@)),
{
    let ghost all = list_view(list@);
    let mut kept: Vec<Json> = Vec::new();
    let mut i: usize = 0;
    proof {
        reveal(Seq::filter);
        assert(all.take(0) =~= Seq::empty());
        assert(list_view(kept@) =~= list_without(all.take(0), tag@, views(items@)));
    }
    while i < list.len()
        invariant
            i <= list.len(),
            all == list_view(list@),
            list_view(kept@) == list_without(all.take(i as int), tag@, views(items@)),
        decreases list.len() - i,
    {
        proof {
            reveal(Seq::filter);
            assert(all.take(i + 1).drop_last() =~= all.take(i as int));
            assert(all.take(i + 1).last() == list@[i as int]@);
        }
        let named = match &list[i] {
            Json::Text(s) => contains_text(items, tagged(tag, s.as_str()).as_str()),
            _ => false,
        };
        if !named {
            let ghost before = kept@;
            kept.push(list[i].clone());
            assert(list_view(kept@) =~= list_view(before).push(list@[i as int]@));
        }
        i += 1;
    }
    assert(all.take(list.len() as int) =~= all);
    kept
}

/// The members but those whose key `items` name behind `tag`.
fn filter_members(members: &Vec<(String, Json)>, tag: &str, items: &Vec<String>) -> (kept: Vec<
    (String, Json),
>)
    ensures
        members_view(kept@) == members_without(members_view(members@), tag@, views(items@)),
{
    let ghost all = members_view(members@);
    let mut kept: Vec<(String, Json)> = Vec::new();
    let mut i: usize = 0;
    proof {
        reveal(Seq::filter);
        assert(all.take(0) =~= Seq::empty());
        assert(members_view(kept@) =~= members_without(all.take(0), tag@, views(items@)));
    }
    while i < members.len()
        invariant
            i <= members.len(),
            all == members_view(members@),
            members_view(kept@) == members_without(all.take(i as int), tag@, views(items@)),
        decreases members.len() - i,
    {
        proof {
            reveal(Seq::filter);
            assert(all.take(i + 1).drop_last() =~= all.take(i as int));
            assert(all.take(i + 1).last() == all[i as int]);
        }
        if !contains_text(items, tagged(tag, members[i].0.as_str()).as_str()) {
            let ghost before = kept@;
            kept.push((members[i].0.clone(), members[i].1.clone()));
            assert(members_view(kept@) =~= members_view(before).push(all[i as int]));
        }
        i += 1;
    }
    assert(all.take(members.len() as int) =~= all);
    kept
}

/// Takes from the list `permissions.<name>` of `target` the rules that
/// `items` name behind `tag`.
fn remove_rules(target: &mut Json, name: &str, tag: &str, items: &Vec<String>)
    ensures
        final(target)@ == rules_without(old(target)@, name@, tag@, views(items@)),
{
    let found: &Json = match target.get("permissions") {
        Some(found) => found,
        None => {
            return ;
        },
    };
    let kept: Vec<Json> = match found.get(name) {
        Some(Json::List(list)) => {
            proof {
                lemma_view_list(*list);
            }
            filter_list(list, tag, items)
        },
        _ => {
            return ;
        },
    };
    let mut permissions: Json = found.clone();
    proof {
        lemma_view_list(kept);
    }
    match &mut permissions {
        Json::Object(members) => {
            proof {
                lemma_view_object(*members);
            }
            put_member(members, name, Json::List(kept));
            proof {
                lemma_view_object(*members);
            }
        },
        _ => {},
    }
    match target {
        Json::Object(members) => {
            proof {
                lemma_view_object(*members);
            }
            put_member(members, "permissions", permissions);
            proof {
                lemma_view_object(*members);
            }
        },
        _ => {},
    }
}

/// Takes from the object `env` of `target` the variables that `items` name
/// behind `env:`.
fn remove_variables(target: &mut Json, items: &Vec<String>)
    ensures
        final(target)@ == variables_without(old(target)@, views(items@)),
{
    let kept: Vec<(String, Json)> = match target.get("env") {
        Some(Json::Object(variables)) => {
            proof {
                lemma_view_object(*variables);
            }
            filter_members(variables, "env:", items)
        },
        _ => {
            return ;
        },
    };
    proof {
        lemma_view_object(kept);
    }
    match target {
        Json::Object(members) => {
            proof {
                lemma_view_object(*members);
            }
            put_member(members, "env", Json::Object(kept));
            proof {
                lemma_view_object(*members);
            }
        },
        _ => {},
    }
}

/// Takes from the top-level members of `target` those whose key is one of
/// `items`.
fn remove_keys(target: &mut Json, items: &Vec<String>)
    ensures
        final(target)@ == keys_without(old(target)@, views(items@)),
{
    let kept: Vec<(String, Json)> = match &*target {
        Json::Object(members) => {
            proof {
                lemma_view_object(*members);
                reveal_strlit("");
                assert(""@ =~= Seq::<char>::empty());
            }
            filter_members(members, "", items)
        },
        _ => {
            return ;
        },
    };
    proof {
        lemma_view_object(kept);
    }
    *target = Json::Object(kept);
}

impl MergeManager {
    /// Takes back the permissions that were merged from `source_name`: the
    /// rules that the records of that source name as allowed or denied leave
    /// the target's lists, and every record of that source leaves the
    /// history, whatever kind of merge it records. With no record of the
    /// source, nothing changes. A well-formed target stays well formed.
    pub fn unmerge_permissions(
        &self,
        target: &mut Json,
        history: &mut Vec<MergeHistory>,
        source_name: &str,
    )
        ensures
            final(target)@ == scoped_unmerge(
                old(target)@,
                collected(record_views(old(history)@), source_name@, false),
            ),
            record_views(final(history)@) == without_source(
                record_views(old(history)@),
                source_name@,
            ),
            well_formed(old(target)@) ==> well_formed(final(target)@),
    {
        let items = items_from(history, source_name, false);
        remove_rules(target, "allow", "allow:", &items);
        remove_rules(target, "deny", "deny:", &items);
        forget_source(history, source_name);
        proof {
            if well_formed(old(target)@) {
                lemma_scoped_unmerge_well_formed(old(target)@, views(items@));
            }
        }
    }

    /// Takes back everything that full merges from `source_name` added: the
    /// top-level members, the variables and the rules that their records
    /// name. Then takes back the permissions merged from that source, as
    /// [`MergeManager::unmerge_permissions`] does, which also drops every
    /// record of the source from the history. A well-formed target stays
    /// well formed.
    pub fn unmerge_full(
        &self,
        target: &mut Json,
        history: &mut Vec<MergeHistory>,
        source_name: &str,
    )
        ensures
            final(target)@ == full_unmerge(
                old(target)@,
                collected(record_views(old(history)@), source_name@, true),
                collected(record_views(old(history)@), source_name@, false),
            ),
            record_views(final(history)@) == without_source(
                record_views(old(history)@),
                source_name@,
            ),
            well_formed(old(target)@) ==> well_formed(final(target)@),
    {
        proof {
            if well_formed(old(target)@) {
                lemma_full_unmerge_well_formed(
                    old(target)@,
                    collected(record_views(old(history)@), source_name@, true),
                    collected(record_views(old(history)@), source_name@, false),
                );
            }
        }
        let items = items_from(history, source_name, true);
        remove_keys(target, &items);
        remove_variables(target, &items);
        remove_rules(target, "allow", "permissions.allow:", &items);
        remove_rules(target, "deny", "permissions.deny:", &items);
        self.unmerge_permissions(target, history, source_name);
    }
}

} // verus!
