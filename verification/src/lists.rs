//! Lists of rules as sets of strings: what two lists hold together, and what
//! the second adds to the first.

use vstd::prelude::*;
use crate::json::{list_view, Json, JsonValue};
use crate::text::{contains_text, views};

verus! {

/// The strings among the items of a list, in the order of the list.
pub open spec fn texts(list: Seq<JsonValue>) -> Seq<Seq<char>>
    decreases list.len(),
{
    if list.len() == 0 {
        Seq::empty()
    } else {
        let rest = texts(list.drop_last());
        match list.last() {
            JsonValue::Text(s) => rest.push(s),
            _ => rest,
        }
    }
}

/// The strings of `offered` that `have` lacks, each once, in the order in
/// which `offered` first names them.
pub open spec fn fresh(have: Set<Seq<char>>, offered: Seq<Seq<char>>) -> Seq<Seq<char>>
    decreases offered.len(),
{
    if offered.len() == 0 {
        Seq::empty()
    } else {
        let rest = fresh(have, offered.drop_last());
        let s = offered.last();
        if have.contains(s) || rest.contains(s) {
            rest
        } else {
            rest.push(s)
        }
    }
}

/// The list whose items are the given strings.
pub open spec fn text_list(strings: Seq<Seq<char>>) -> Seq<JsonValue> {
    Seq::new(strings.len(), |i: int| JsonValue::Text(strings[i]))
}

/// Each string with `tag` in front of it.
pub open spec fn tag_all(tag: Seq<char>, strings: Seq<Seq<char>>) -> Seq<Seq<char>> {
    Seq::new(strings.len(), |i: int| tag + strings[i])
}

/// The strings that merging `offered` into `have` adds to it.
pub open spec fn added(have: Seq<JsonValue>, offered: Seq<JsonValue>) -> Seq<Seq<char>> {
    fresh(texts(have).to_set(), texts(offered))
}

/// The strings of a merged list: those of `have`, each once, then those that
/// `offered` adds.
pub open spec fn merged_texts(have: Seq<JsonValue>, offered: Seq<JsonValue>) -> Seq<Seq<char>> {
    fresh(Set::empty(), texts(have)) + added(have, offered)
}

/// The list that merging `offered` into `have` leaves.
pub open spec fn merged_list(have: Seq<JsonValue>, offered: Seq<JsonValue>) -> Seq<JsonValue> {
    text_list(merged_texts(have, offered))
}

/// `fresh` names nothing twice, and names exactly the strings of `offered`
/// that `have` lacks.
pub proof fn lemma_fresh(have: Set<Seq<char>>, offered: Seq<Seq<char>>)
    ensures
        fresh(have, offered).no_duplicates(),
        forall|s: Seq<char>|
            (#[trigger] fresh(have, offered).contains(s)) <==> (offered.contains(s)
                && !have.contains(s)),
    decreases offered.len(),
{
    let out = fresh(have, offered);
    if offered.len() > 0 {
        let before = offered.drop_last();
        let rest = fresh(have, before);
        let last = offered.last();
        lemma_fresh(have, before);
        assert forall|s: Seq<char>|
            (#[trigger] out.contains(s)) <==> (offered.contains(s) && !have.contains(s)) by {
            if out.contains(s) {
                let i = choose|i: int| 0 <= i < out.len() && out[i] == s;
                if i < rest.len() {
                    assert(rest[i] == s);
                    assert(rest.contains(s));
                    let j = choose|j: int| 0 <= j < before.len() && before[j] == s;
                    assert(offered[j] == s);
                } else {
                    assert(s == last);
                    assert(offered[offered.len() - 1] == s);
                }
            }
            if offered.contains(s) && !have.contains(s) {
                let j = choose|j: int| 0 <= j < offered.len() && offered[j] == s;
                if j < before.len() {
                    assert(before[j] == s);
                    assert(before.contains(s));
                    assert(rest.contains(s));
                    let i = choose|i: int| 0 <= i < rest.len() && rest[i] == s;
                    assert(out[i] == s);
                } else {
                    assert(s == last);
                    if rest.contains(s) {
                        let i = choose|i: int| 0 <= i < rest.len() && rest[i] == s;
                        assert(out[i] == s);
                    } else {
                        assert(out[out.len() - 1] == s);
                    }
                }
            }
        }
    }
}

/// The strings of a list stay in it when the list grows at its end.
pub proof fn lemma_texts_push(list: Seq<JsonValue>, item: JsonValue)
    ensures
        texts(list.push(item)) == match item {
            JsonValue::Text(s) => texts(list).push(s),
            _ => texts(list),
        },
{
    assert(list.push(item).drop_last() =~= list);
}

/// What `fresh` names when one more string is offered.
pub proof fn lemma_fresh_push(have: Set<Seq<char>>, offered: Seq<Seq<char>>, s: Seq<char>)
    ensures
        fresh(have, offered.push(s)) == if have.contains(s) || fresh(have, offered).contains(s) {
            fresh(have, offered)
        } else {
            fresh(have, offered).push(s)
        },
{
    assert(offered.push(s).drop_last() =~= offered);
}

/// The strings of a list of strings are those strings.
pub proof fn lemma_texts_of_text_list(strings: Seq<Seq<char>>)
    ensures
        texts(text_list(strings)) == strings,
    decreases strings.len(),
{
    if strings.len() > 0 {
        let before = strings.drop_last();
        lemma_texts_of_text_list(before);
        assert(text_list(strings).drop_last() =~= text_list(before));
        assert(texts(text_list(strings)) =~= strings);
    } else {
        assert(texts(text_list(strings)) =~= strings);
    }
}

/// Where nothing is named twice and `have` is empty, `fresh` keeps the list.
pub proof fn lemma_fresh_of_distinct(offered: Seq<Seq<char>>)
    requires
        offered.no_duplicates(),
    ensures
        fresh(Set::empty(), offered) == offered,
    decreases offered.len(),
{
    if offered.len() > 0 {
        let before = offered.drop_last();
        lemma_fresh_of_distinct(before);
        lemma_fresh(Set::empty(), before);
        if before.contains(offered.last()) {
            let j = choose|j: int| 0 <= j < before.len() && before[j] == offered.last();
            assert(offered[j] == offered[offered.len() - 1]);
        }
        assert(fresh(Set::empty(), offered) =~= offered);
    }
}

/// Where `have` holds every offered string, `fresh` names none.
pub proof fn lemma_fresh_of_known(have: Set<Seq<char>>, offered: Seq<Seq<char>>)
    requires
        forall|s: Seq<char>| offered.contains(s) ==> have.contains(s),
    ensures
        fresh(have, offered) == Seq::<Seq<char>>::empty(),
    decreases offered.len(),
{
    if offered.len() > 0 {
        let before = offered.drop_last();
        assert forall|s: Seq<char>| before.contains(s) implies have.contains(s) by {
            let j = choose|j: int| 0 <= j < before.len() && before[j] == s;
            assert(offered[j] == s);
        }
        lemma_fresh_of_known(have, before);
        assert(offered[offered.len() - 1] == offered.last());
        assert(offered.contains(offered.last()));
    }
}

/// A merged list names nothing twice, and names exactly the strings of the
/// two lists.
pub proof fn lemma_merged_texts(have: Seq<JsonValue>, offered: Seq<JsonValue>)
    ensures
        merged_texts(have, offered).no_duplicates(),
        merged_texts(have, offered).to_set() == texts(have).to_set().union(
            texts(offered).to_set(),
        ),
{
    let kept = fresh(Set::empty(), texts(have));
    let more = added(have, offered);
    let all = merged_texts(have, offered);
    lemma_fresh(Set::empty(), texts(have));
    lemma_fresh(texts(have).to_set(), texts(offered));
    assert forall|i: int, j: int| 0 <= i < kept.len() && 0 <= j < more.len() implies kept[i]
        != more[j] by {
        assert(kept.contains(kept[i]));
        assert(more.contains(more[j]));
    }
    vstd::seq_lib::lemma_no_dup_in_concat(kept, more);
    assert forall|s: Seq<char>|
        all.to_set().contains(s) <==> texts(have).to_set().union(
            texts(offered).to_set(),
        ).contains(s) by {
        if all.contains(s) {
            let i = choose|i: int| 0 <= i < all.len() && all[i] == s;
            if i < kept.len() {
                assert(kept[i] == s);
                assert(kept.contains(s));
            } else {
                assert(more[i - kept.len()] == s);
                assert(more.contains(s));
            }
        }
        if texts(have).contains(s) {
            assert(kept.contains(s));
            let i = choose|i: int| 0 <= i < kept.len() && kept[i] == s;
            assert(all[i] == s);
        } else if texts(offered).contains(s) {
            assert(more.contains(s));
            let i = choose|i: int| 0 <= i < more.len() && more[i] == s;
            assert(all[kept.len() + i] == s);
        }
    }
    assert(all.to_set() =~= texts(have).to_set().union(texts(offered).to_set()));
}

/// A merged list has as many items as there are different strings in the two
/// lists together.
pub proof fn lemma_merged_list_len(have: Seq<JsonValue>, offered: Seq<JsonValue>)
    ensures
        merged_list(have, offered).len() == texts(have).to_set().union(
            texts(offered).to_set(),
        ).len(),
{
    lemma_merged_texts(have, offered);
    merged_texts(have, offered).unique_seq_to_set();
}

/// Adds to `seen` each string item of `from` that it lacks, and returns the
/// strings added, in the order of `from`.
fn absorb(seen: &mut Vec<String>, from: &Vec<Json>) -> (new: Vec<String>)
    ensures
        views(new@) == fresh(views(old(seen)@).to_set(), texts(list_view(from@))),
        views(final(seen)@) == views(old(seen)@) + views(new@),
{
    let ghost have = views(seen@).to_set();
    let ghost start = views(seen@);
    let ghost offered = list_view(from@);
    let mut new: Vec<String> = Vec::new();
    let mut i: usize = 0;
    assert(offered.take(0) =~= Seq::<JsonValue>::empty());
    assert(views(seen@) =~= start + views(new@));
    while i < from.len()
        invariant
            i <= from.len(),
            offered == list_view(from@),
            have == start.to_set(),
            views(new@) == fresh(have, texts(offered.take(i as int))),
            views(seen@) == start + views(new@),
        decreases from.len() - i,
    {
        proof {
            assert(offered.take(i + 1) =~= offered.take(i as int).push(offered[i as int]));
            lemma_texts_push(offered.take(i as int), offered[i as int]);
        }
        match &from[i] {
            Json::Text(s) => {
                proof {
                    lemma_fresh_push(have, texts(offered.take(i as int)), s@);
                    let known = views(seen@);
                    if known.contains(s@) {
                        let k = choose|k: int| 0 <= k < known.len() && known[k] == s@;
                        if k < start.len() {
                            assert(start[k] == s@);
                            assert(start.contains(s@));
                        } else {
                            assert(views(new@)[k - start.len()] == s@);
                        }
                    }
                    if start.contains(s@) {
                        let k = choose|k: int| 0 <= k < start.len() && start[k] == s@;
                        assert(known[k] == s@);
                    }
                    if views(new@).contains(s@) {
                        let k = choose|k: int| 0 <= k < new@.len() && views(new@)[k] == s@;
                        assert(known[start.len() + k] == s@);
                    }
                }
                if !contains_text(seen, s.as_str()) {
                    let ghost seen_before = seen@;
                    let ghost new_before = new@;
                    seen.push(s.clone());
                    new.push(s.clone());
                    proof {
                        assert(views(new@) =~= views(new_before).push(s@));
                        assert(views(seen@) =~= views(seen_before).push(s@));
                        assert(views(seen@) =~= start + views(new@));
                    }
                }
            },
            _ => {},
        }
        i += 1;
    }
    assert(offered.take(from.len() as int) =~= offered);
    new
}

/// Merges the strings of `offered` into those of `have`. Returns the merged
/// list, which holds each string once, and the strings that `offered` added.
pub fn merge_lists(have: &Vec<Json>, offered: &Vec<Json>) -> (merged: (Vec<Json>, Vec<String>))
    ensures
        list_view(merged.0@) == merged_list(list_view(have@), list_view(offered@)),
        views(merged.1@) == added(list_view(have@), list_view(offered@)),
{
    let mut seen: Vec<String> = Vec::new();
    assert(views(seen@).to_set() =~= Set::<Seq<char>>::empty());
    let kept = absorb(&mut seen, have);
    proof {
        lemma_fresh(Set::empty(), texts(list_view(have@)));
        assert(views(seen@) =~= views(kept@));
        assert(views(seen@).to_set() =~= texts(list_view(have@)).to_set());
    }
    let new = absorb(&mut seen, offered);
    let mut list: Vec<Json> = Vec::new();
    let mut i: usize = 0;
    while i < seen.len()
        invariant
            i <= seen.len(),
            list@.len() == i,
            forall|j: int| 0 <= j < i ==> (#[trigger] list@[j])@ == JsonValue::Text(seen@[j]@),
        decreases seen.len() - i,
    {
        list.push(Json::Text(seen[i].clone()));
        i += 1;
    }
    assert(list_view(list@) =~= text_list(views(seen@)));
    (list, new)
}

} // verus!
