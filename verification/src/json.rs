//! JSON documents as plain data: the shape that the merge engine reads and
//! rewrites, with numbers carried through untouched.

use vstd::prelude::*;
use crate::text::same_text;

verus! {

/// A JSON number, as `serde_json` holds it. Nothing here looks inside one.
#[verifier::external_type_specification]
#[verifier::external_body]
pub struct ExNumber(serde_json::Number);

/// `Clone` for `serde_json::Number` is derived over an enum of `u64`, `i64`
/// and `f64` (all `Copy`): the clone is the same number.
pub assume_specification[ <serde_json::Number as Clone>::clone ](
    number: &serde_json::Number,
) -> (copy: serde_json::Number)
    ensures
        copy == *number,
;

/// A JSON document. An object keeps its members in a list; a reader takes the
/// first member that has the key it looks for.
#[derive(Debug, PartialEq, Eq)]
pub enum Json {
    Null,
    Bool(bool),
    Number(serde_json::Number),
    Text(String),
    List(Vec<Json>),
    Object(Vec<(String, Json)>),
}

/// What a [`Json`] stands for: the same tree over sequences of characters.
pub enum JsonValue {
    Null,
    Bool(bool),
    Number(serde_json::Number),
    Text(Seq<char>),
    List(Seq<JsonValue>),
    Object(Seq<(Seq<char>, JsonValue)>),
}

/// The value that a document stands for.
pub open spec fn value_of(json: Json) -> JsonValue
    decreases json,
{
    match json {
        Json::Null => JsonValue::Null,
        Json::Bool(b) => JsonValue::Bool(b),
        Json::Number(n) => JsonValue::Number(n),
        Json::Text(s) => JsonValue::Text(s@),
        Json::List(items) => JsonValue::List(
            Seq::new(
                items@.len(),
                |i: int|
                    if 0 <= i < items@.len() {
                        value_of(items@[i])
                    } else {
                        JsonValue::Null
                    },
            ),
        ),
        Json::Object(members) => JsonValue::Object(
            Seq::new(
                members@.len(),
                |i: int|
                    (
                        members@[i].0@,
                        if 0 <= i < members@.len() {
                            value_of(members@[i].1)
                        } else {
                            JsonValue::Null
                        },
                    ),
            ),
        ),
    }
}

impl View for Json {
    type V = JsonValue;

    open spec fn view(&self) -> JsonValue {
        value_of(*self)
    }
}

/// The values that a list of documents stands for.
pub open spec fn list_view(items: Seq<Json>) -> Seq<JsonValue> {
    Seq::new(items.len(), |i: int| items[i]@)
}

/// The members that a list of members stands for, each key by its characters.
pub open spec fn members_view(members: Seq<(String, Json)>) -> Seq<(Seq<char>, JsonValue)> {
    Seq::new(members.len(), |i: int| (members[i].0@, members[i].1@))
}

/// A list stands for the values of its items.
pub proof fn lemma_view_list(items: Vec<Json>)
    ensures
        Json::List(items)@ == JsonValue::List(list_view(items@)),
{
    assert(Json::List(items)@->List_0 =~= list_view(items@));
}

/// An object stands for its members, each with its key's characters.
pub proof fn lemma_view_object(members: Vec<(String, Json)>)
    ensures
        Json::Object(members)@ == JsonValue::Object(members_view(members@)),
{
    assert(Json::Object(members)@->Object_0 =~= members_view(members@));
}

/// The position of the first member that has `key`, or the number of members
/// where none has it.
pub open spec fn key_index(members: Seq<(Seq<char>, JsonValue)>, key: Seq<char>) -> int
    decreases members.len(),
{
    if members.len() == 0 {
        0
    } else if members[0].0 == key {
        0
    } else {
        1 + key_index(members.skip(1), key)
    }
}

/// Whether a member has `key`.
pub open spec fn has_key(members: Seq<(Seq<char>, JsonValue)>, key: Seq<char>) -> bool {
    key_index(members, key) < members.len()
}

/// The value of the first member that has `key`.
pub open spec fn member(members: Seq<(Seq<char>, JsonValue)>, key: Seq<char>) -> Option<
    JsonValue,
> {
    if has_key(members, key) {
        Some(members[key_index(members, key)].1)
    } else {
        None
    }
}

/// The members with `value` under `key`: in the place of the first member
/// that has the key, or at the end where none has it.
pub open spec fn with_member(
    members: Seq<(Seq<char>, JsonValue)>,
    key: Seq<char>,
    value: JsonValue,
) -> Seq<(Seq<char>, JsonValue)> {
    if has_key(members, key) {
        members.update(key_index(members, key), (key, value))
    } else {
        members.push((key, value))
    }
}

impl JsonValue {
    /// The value under `key`, where this is an object that has the key.
    pub open spec fn get(self, key: Seq<char>) -> Option<JsonValue> {
        match self {
            JsonValue::Object(members) => member(members, key),
            _ => None,
        }
    }
}

/// `key_index` is in range, points at a member with the key where one exists,
/// and no member before it has the key.
pub proof fn lemma_key_index(members: Seq<(Seq<char>, JsonValue)>, key: Seq<char>)
    ensures
        0 <= key_index(members, key) <= members.len(),
        has_key(members, key) ==> members[key_index(members, key)].0 == key,
        forall|j: int| 0 <= j < key_index(members, key) ==> (#[trigger] members[j]).0 != key,
    decreases members.len(),
{
    if members.len() > 0 && members[0].0 != key {
        let rest = members.skip(1);
        lemma_key_index(rest, key);
        assert forall|j: int| 0 <= j < key_index(members, key) implies (#[trigger] members[j]).0
            != key by {
            if j > 0 {
                assert(members[j] == rest[j - 1]);
            }
        }
    }
}

/// A position that holds the first member with the key, or the length where
/// no member has it, is `key_index`.
pub proof fn lemma_key_index_is(members: Seq<(Seq<char>, JsonValue)>, key: Seq<char>, i: int)
    requires
        0 <= i <= members.len(),
        i < members.len() ==> members[i].0 == key,
        forall|j: int| 0 <= j < i ==> (#[trigger] members[j]).0 != key,
    ensures
        key_index(members, key) == i,
{
    lemma_key_index(members, key);
}

/// What is found under a key after a value was put under `key`: that value
/// under `key` itself, and under any other key what was there before.
pub proof fn lemma_member_with_member(
    members: Seq<(Seq<char>, JsonValue)>,
    key: Seq<char>,
    value: JsonValue,
    other: Seq<char>,
)
    ensures
        member(with_member(members, key, value), other) == if other == key {
            Some(value)
        } else {
            member(members, other)
        },
        has_key(with_member(members, key, value), other) == (other == key || has_key(
            members,
            other,
        )),
{
    let put = with_member(members, key, value);
    let i = key_index(members, key);
    let j = key_index(members, other);
    lemma_key_index(members, key);
    lemma_key_index(members, other);
    if other == key {
        lemma_key_index_is(put, key, i);
    } else if j < members.len() {
        lemma_key_index_is(put, other, j);
    } else {
        assert forall|n: int| 0 <= n < put.len() implies (#[trigger] put[n]).0 != other by {
            if n < members.len() {
                assert(members[n].0 != other);
            }
        }
        lemma_key_index_is(put, other, put.len() as int);
    }
}

/// Putting under a key the value that is found there changes nothing.
pub proof fn lemma_with_member_same(
    members: Seq<(Seq<char>, JsonValue)>,
    key: Seq<char>,
    value: JsonValue,
)
    requires
        member(members, key) == Some(value),
    ensures
        with_member(members, key, value) == members,
{
    lemma_key_index(members, key);
    assert(with_member(members, key, value) =~= members);
}

/// What is found under a key after a member came in at the end: what was
/// there before, and the new member's value where nothing was.
pub proof fn lemma_member_push(
    members: Seq<(Seq<char>, JsonValue)>,
    entry: (Seq<char>, JsonValue),
    other: Seq<char>,
)
    ensures
        member(members.push(entry), other) == if has_key(members, other) {
            member(members, other)
        } else if other == entry.0 {
            Some(entry.1)
        } else {
            None
        },
        has_key(members.push(entry), other) == (other == entry.0 || has_key(members, other)),
{
    let more = members.push(entry);
    let j = key_index(members, other);
    lemma_key_index(members, other);
    if j < members.len() {
        lemma_key_index_is(more, other, j);
    } else if other == entry.0 {
        lemma_key_index_is(more, other, members.len() as int);
    } else {
        lemma_key_index_is(more, other, more.len() as int);
    }
}

/// Whether no two members have the same key.
pub open spec fn distinct_keys(members: Seq<(Seq<char>, JsonValue)>) -> bool {
    forall|i: int, j: int|
        0 <= i < j < members.len() ==> (#[trigger] members[i]).0 != (#[trigger] members[j]).0
}

/// The position of the first member that has `key`.
pub fn find_member(members: &Vec<(String, Json)>, key: &str) -> (found: Option<usize>)
    ensures
        match found {
            Some(i) => i < members.len() && i == key_index(members_view(members@), key@),
            None => !has_key(members_view(members@), key@),
        },
{
    let mut i: usize = 0;
    while i < members.len()
        invariant
            i <= members.len(),
            forall|j: int| 0 <= j < i ==> (#[trigger] members_view(members@)[j]).0 != key@,
        decreases members.len() - i,
    {
        if same_text(members[i].0.as_str(), key) {
            proof {
                lemma_key_index_is(members_view(members@), key@, i as int);
            }
            return Some(i);
        }
        i += 1;
    }
    proof {
        lemma_key_index_is(members_view(members@), key@, members.len() as int);
    }
    None
}

/// Puts `value` under `key`: in the place of the first member that has the
/// key, or at the end where none has it.
pub fn put_member(members: &mut Vec<(String, Json)>, key: &str, value: Json)
    ensures
        members_view(final(members)@) == with_member(
            members_view(old(members)@),
            key@,
            value@,
        ),
{
    let found = find_member(members, key);
    let entry: (String, Json) = (key.to_owned(), value);
    match found {
        Some(i) => {
            members.set(i, entry);
        },
        None => {
            members.push(entry);
        },
    }
    assert(members_view(members@) =~= with_member(members_view(old(members)@), key@, value@));
}

impl Json {
    /// The value under `key`, where this is an object that has the key.
    pub fn get(&self, key: &str) -> (found: Option<&Json>)
        ensures
            match found {
                Some(value) => self@.get(key@) == Some(value@),
                None => self@.get(key@) is None,
            },
    {
        match self {
            Json::Object(members) => {
                proof {
                    lemma_view_object(*members);
                }
                match find_member(members, key) {
                    Some(i) => Some(&members[i].1),
                    None => None,
                }
            },
            _ => None,
        }
    }
}

impl Clone for Json {
    fn clone(&self) -> (copy: Json)
        ensures
            copy@ == self@,
        decreases self,
    {
        match self {
            Json::Null => Json::Null,
            Json::Bool(b) => Json::Bool(*b),
            Json::Number(n) => Json::Number(n.clone()),
            Json::Text(s) => Json::Text(s.clone()),
            Json::List(items) => {
                let mut copies: Vec<Json> = Vec::new();
                let mut i: usize = 0;
                while i < items.len()
                    invariant
                        i <= items.len(),
                        copies@.len() == i,
                        forall|j: int| 0 <= j < i ==> (#[trigger] copies@[j])@ == items@[j]@,
                        Json::List(*items) == *self,
                    decreases items.len() - i,
                {
                    proof {
                        vstd::std_specs::vec::axiom_vec_index_decreases(*items, i as int);
                        assert(decreases_to!(*self => (*self)->List_0));
                    }
                    copies.push(items[i].clone());
                    i += 1;
                }
                proof {
                    lemma_view_list(*items);
                    lemma_view_list(copies);
                    assert(list_view(copies@) =~= list_view(items@));
                }
                Json::List(copies)
            },
            Json::Object(members) => {
                let mut copies: Vec<(String, Json)> = Vec::new();
                let mut i: usize = 0;
                while i < members.len()
                    invariant
                        i <= members.len(),
                        copies@.len() == i,
                        forall|j: int|
                            0 <= j < i ==> (#[trigger] copies@[j]).0@ == members@[j].0@
                                && copies@[j].1@ == members@[j].1@,
                        Json::Object(*members) == *self,
                    decreases members.len() - i,
                {
                    proof {
                        vstd::std_specs::vec::axiom_vec_index_decreases(*members, i as int);
                        assert(decreases_to!(*self => (*self)->Object_0));
                        assert(decreases_to!(members@[i as int] => members@[i as int].1));
                    }
                    copies.push((members[i].0.clone(), members[i].1.clone()));
                    i += 1;
                }
                proof {
                    lemma_view_object(*members);
                    lemma_view_object(copies);
                    assert(members_view(copies@) =~= members_view(members@));
                }
                Json::Object(copies)
            },
        }
    }
}

} // verus!
