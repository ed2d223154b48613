//! The record of one merge, and the ordered history of a context's merges.

use vstd::prelude::*;
use crate::text::{same_text, views};

verus! {

/// What one merge did: where the content came from, when, what it added, and
/// whether it was a full merge or one of the permissions alone.
#[derive(Debug, PartialEq, Eq)]
pub struct MergeHistory {
    pub source: String,
    pub timestamp: String,
    pub merged_items: Vec<String>,
    pub full_merge: bool,
}

/// What a [`MergeHistory`] holds, over sequences of characters.
pub struct RecordView {
    pub source: Seq<char>,
    pub timestamp: Seq<char>,
    pub merged_items: Seq<Seq<char>>,
    pub full_merge: bool,
}

impl View for MergeHistory {
    type V = RecordView;

    open spec fn view(&self) -> RecordView {
        RecordView {
            source: self.source@,
            timestamp: self.timestamp@,
            merged_items: views(self.merged_items@),
            full_merge: self.full_merge,
        }
    }
}

/// What each record of a history holds.
pub open spec fn record_views(history: Seq<MergeHistory>) -> Seq<RecordView> {
    Seq::new(history.len(), |i: int| history[i]@)
}

/// Whether a record is one of `source`, and a full merge where only those
/// are asked for.
pub open spec fn counts(record: RecordView, source: Seq<char>, full_only: bool) -> bool {
    record.source == source && (full_only ==> record.full_merge)
}

/// The items of the records that count, in the order of the history.
pub open spec fn collected(history: Seq<RecordView>, source: Seq<char>, full_only: bool) -> Seq<
    Seq<char>,
>
    decreases history.len(),
{
    if history.len() == 0 {
        Seq::empty()
    } else {
        let rest = collected(history.drop_last(), source, full_only);
        if counts(history.last(), source, full_only) {
            rest + history.last().merged_items
        } else {
            rest
        }
    }
}

/// The history without the records of `source`.
pub open spec fn without_source(history: Seq<RecordView>, source: Seq<char>) -> Seq<RecordView> {
    history.filter(|record: RecordView| record.source != source)
}

/// An item is collected exactly when a record that counts holds it.
pub proof fn lemma_collected(
    history: Seq<RecordView>,
    source: Seq<char>,
    full_only: bool,
    item: Seq<char>,
)
    ensures
        collected(history, source, full_only).contains(item) <==> exists|i: int|
            0 <= i < history.len() && counts(#[trigger] history[i], source, full_only)
                && history[i].merged_items.contains(item),
    decreases history.len(),
{
    let all = collected(history, source, full_only);
    if history.len() > 0 {
        let before = history.drop_last();
        let rest = collected(before, source, full_only);
        let last = history.last();
        lemma_collected(before, source, full_only, item);
        if all.contains(item) {
            let k = choose|k: int| 0 <= k < all.len() && all[k] == item;
            if k < rest.len() {
                assert(rest[k] == item);
                assert(rest.contains(item));
                let i = choose|i: int|
                    0 <= i < before.len() && counts(#[trigger] before[i], source, full_only)
                        && before[i].merged_items.contains(item);
                assert(history[i] == before[i]);
            } else {
                assert(last.merged_items[k - rest.len()] == item);
                assert(history[history.len() - 1] == last);
            }
        }
        if exists|i: int|
            0 <= i < history.len() && counts(#[trigger] history[i], source, full_only)
                && history[i].merged_items.contains(item) {
            let i = choose|i: int|
                0 <= i < history.len() && counts(#[trigger] history[i], source, full_only)
                    && history[i].merged_items.contains(item);
            if i < before.len() {
                assert(before[i] == history[i]);
                assert(rest.contains(item));
                let k = choose|k: int| 0 <= k < rest.len() && rest[k] == item;
                assert(all[k] == item);
            } else {
                let j = choose|j: int|
                    0 <= j < last.merged_items.len() && last.merged_items[j] == item;
                assert(all[rest.len() + j] == item);
            }
        }
    }
}

/// A history that holds no record of `source` collects nothing for it, and
/// loses nothing when the records of `source` leave.
pub proof fn lemma_unknown_source(history: Seq<RecordView>, source: Seq<char>, full_only: bool)
    requires
        forall|i: int| 0 <= i < history.len() ==> (#[trigger] history[i]).source != source,
    ensures
        collected(history, source, full_only) == Seq::<Seq<char>>::empty(),
        without_source(history, source) == history,
    decreases history.len(),
{
    reveal(Seq::filter);
    if history.len() > 0 {
        let before = history.drop_last();
        assert forall|i: int| 0 <= i < before.len() implies (#[trigger] before[i]).source
            != source by {
            assert(before[i] == history[i]);
        }
        lemma_unknown_source(before, source, full_only);
        assert(history.last() == history[history.len() - 1]);
        assert(without_source(history, source) =~= history);
    } else {
        assert(without_source(history, source) =~= history);
    }
}

/// A history from which the records of `source` were dropped holds none of
/// them, so that dropping them again, or unmerging the source again, changes
/// nothing.
pub proof fn lemma_without_source_forgets(history: Seq<RecordView>, source: Seq<char>)
    ensures
        forall|i: int|
            0 <= i < without_source(history, source).len() ==> (#[trigger] without_source(
                history,
                source,
            )[i]).source != source,
    decreases history.len(),
{
    reveal(Seq::filter);
    if history.len() > 0 {
        let rest = history.drop_last();
        lemma_without_source_forgets(rest, source);
        let kept = without_source(history, source);
        assert forall|i: int| 0 <= i < kept.len() implies (#[trigger] kept[i]).source
            != source by {
            if i < without_source(rest, source).len() {
                assert(kept[i] == without_source(rest, source)[i]);
            }
        }
    }
}

impl Clone for MergeHistory {
    fn clone(&self) -> (copy: MergeHistory)
        ensures
            copy@ == self@,
    {
        let mut items: Vec<String> = Vec::new();
        let mut i: usize = 0;
        while i < self.merged_items.len()
            invariant
                i <= self.merged_items.len(),
                items@.len() == i,
                forall|j: int| 0 <= j < i ==> (#[trigger] items@[j])@ == self.merged_items@[j]@,
            decreases self.merged_items.len() - i,
        {
            items.push(self.merged_items[i].clone());
            i += 1;
        }
        assert(views(items@) =~= views(self.merged_items@));
        MergeHistory {
            source: self.source.clone(),
            timestamp: self.timestamp.clone(),
            merged_items: items,
            full_merge: self.full_merge,
        }
    }
}

/// The items that the records of `source` hold, in the order of the history;
/// with `full_only`, those of its full merges alone.
pub fn items_from(history: &Vec<MergeHistory>, source: &str, full_only: bool) -> (items: Vec<
    String,
>)
    ensures
        views(items@) == collected(record_views(history@), source@, full_only),
{
    let ghost records = record_views(history@);
    let mut items: Vec<String> = Vec::new();
    let mut i: usize = 0;
    assert(views(items@) =~= collected(records.take(0), source@, full_only));
    while i < history.len()
        invariant
            i <= history.len(),
            records == record_views(history@),
            views(items@) == collected(records.take(i as int), source@, full_only),
        decreases history.len() - i,
    {
        let record = &history[i];
        proof {
            assert(records.take(i + 1).drop_last() =~= records.take(i as int));
            assert(records.take(i + 1).last() == record@);
        }
        if same_text(record.source.as_str(), source) && (!full_only || record.full_merge) {
            let ghost before = views(items@);
            let mut j: usize = 0;
            assert(views(items@) =~= before + record@.merged_items.take(0));
            while j < record.merged_items.len()
                invariant
                    j <= record.merged_items.len(),
                    views(items@) == before + record@.merged_items.take(j as int),
                decreases record.merged_items.len() - j,
            {
                let ghost so_far = items@;
                items.push(record.merged_items[j].clone());
                proof {
                    let offered = record@.merged_items;
                    assert(views(items@) =~= views(so_far).push(offered[j as int]));
                    assert(offered.take(j + 1) =~= offered.take(j as int).push(offered[j as int]));
                    assert(views(items@) =~= before + offered.take(j + 1));
                }
                j += 1;
            }
            assert(record@.merged_items.take(j as int) =~= record@.merged_items);
        }
        i += 1;
    }
    assert(records.take(history.len() as int) =~= records);
    items
}

/// Drops the records of `source` from a history; the others keep their order.
pub fn forget_source(history: &mut Vec<MergeHistory>, source: &str)
    ensures
        record_views(final(history)@) == without_source(record_views(old(history)@), source@),
{
    let ghost records = record_views(history@);
    let mut kept: Vec<MergeHistory> = Vec::new();
    let mut i: usize = 0;
    proof {
        reveal(Seq::filter);
        assert(record_views(kept@) =~= without_source(records.take(0), source@));
    }
    while i < history.len()
        invariant
            i <= history.len(),
            records == record_views(history@),
            record_views(kept@) == without_source(records.take(i as int), source@),
        decreases history.len() - i,
    {
        proof {
            reveal(Seq::filter);
            assert(records.take(i + 1).drop_last() =~= records.take(i as int));
            assert(records.take(i + 1).last() == history@[i as int]@);
        }
        if !same_text(history[i].source.as_str(), source) {
            let ghost before = kept@;
            kept.push(history[i].clone());
            assert(record_views(kept@) =~= record_views(before).push(history@[i as int]@));
        }
        i += 1;
    }
    assert(records.take(history.len() as int) =~= records);
    *history = kept;
}

} // verus!
