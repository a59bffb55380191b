//! What holds of taking one registry into another.

use vstd::prelude::*;

use crate::ordered_map::{position_of, Entry};
use crate::registry::{
    absorbed, distinct_keys, lemma_position_of, merged, record_of, summed, SelectorView,
};

verus! {

/// The record that a key has after two registries were put together, from
/// the records it had in each.
pub open spec fn combined(ours: Option<SelectorView>, theirs: Option<SelectorView>) -> Option<
    SelectorView,
> {
    match (ours, theirs) {
        (Some(x), Some(y)) => Some(summed(x, y)),
        (Some(x), None) => Some(x),
        (None, Some(y)) => Some(y),
        (None, None) => None,
    }
}

/// Both records are missing, or both are there with the same tallies.
pub open spec fn same_tallies(a: Option<SelectorView>, b: Option<SelectorView>) -> bool {
    match (a, b) {
        (Some(x), Some(y)) => x.counter == y.counter && x.markup_class_counter
            == y.markup_class_counter && x.markup_id_counter == y.markup_id_counter
            && x.selector_string_counter == y.selector_string_counter && x.anchor_counter
            == y.anchor_counter && x.style_counter == y.style_counter && x.script_counter
            == y.script_counter && x.prefix_counter == y.prefix_counter,
        (None, None) => true,
        _ => false,
    }
}

proof fn lemma_position_after_update(entries: Seq<Entry>, i: int, entry: Entry, key: Seq<char>)
    requires
        0 <= i < entries.len(),
        entry.0 == entries[i].0,
    ensures
        position_of(entries.update(i, entry), key) == position_of(entries, key),
    decreases entries.len(),
{
    let after = entries.update(i, entry);
    if i == entries.len() - 1 {
        assert(after.drop_last() == entries.drop_last());
    } else {
        assert(after.drop_last() == entries.drop_last().update(i, entry));
        lemma_position_after_update(entries.drop_last(), i, entry, key);
    }
}

proof fn lemma_position_after_push(entries: Seq<Entry>, entry: Entry, key: Seq<char>)
    ensures
        position_of(entries.push(entry), key) == match position_of(entries, key) {
            Some(i) => Some(i),
            None => if entry.0 == key {
                Some(entries.len() as int)
            } else {
                None
            },
        },
{
    assert(entries.push(entry).drop_last() == entries);
}

proof fn lemma_absorbed_record(entries: Seq<Entry>, incoming: Entry, key: Seq<char>)
    ensures
        record_of(absorbed(entries, incoming), key) == if incoming.0 == key {
            combined(record_of(entries, key), Some(incoming.1))
        } else {
            record_of(entries, key)
        },
{
    lemma_position_of(entries, incoming.0);
    lemma_position_of(entries, key);
    match position_of(entries, incoming.0) {
        Some(i) => {
            lemma_position_after_update(
                entries,
                i,
                (incoming.0, summed(entries[i].1, incoming.1)),
                key,
            );
        },
        None => {
            lemma_position_after_push(entries, incoming, key);
        },
    }
}

/// Taking in a registry keeps the keys apart.
pub proof fn lemma_merged_keys_distinct(ours: Seq<Entry>, theirs: Seq<Entry>)
    requires
        distinct_keys(ours),
    ensures
        distinct_keys(merged(ours, theirs)),
    decreases theirs.len(),
{
    if theirs.len() > 0 {
        let before = merged(ours, theirs.drop_last());
        lemma_merged_keys_distinct(ours, theirs.drop_last());
        lemma_position_of(before, theirs.last().0);
    }
}

/// After a registry with distinct keys was taken in, a key has the record it
/// had here with the tallies of its record there added, or the one record it
/// had.
pub proof fn lemma_merged_record(ours: Seq<Entry>, theirs: Seq<Entry>, key: Seq<char>)
    requires
        distinct_keys(theirs),
    ensures
        record_of(merged(ours, theirs), key) == combined(
            record_of(ours, key),
            record_of(theirs, key),
        ),
    decreases theirs.len(),
{
    if theirs.len() > 0 {
        let front = theirs.drop_last();
        let last = theirs.last();
        assert forall|i: int, j: int| 0 <= i < j < front.len() implies front[i].0 != front[j].0 by {
            assert(front[i] == theirs[i] && front[j] == theirs[j]);
        }
        lemma_merged_record(ours, front, key);
        lemma_absorbed_record(merged(ours, front), last, key);
        lemma_position_of(front, key);
        if last.0 == key {
            if position_of(front, key) is Some {
                let i = position_of(front, key).unwrap();
                assert(front[i] == theirs[i]);
                assert(theirs[i].0 != theirs[theirs.len() - 1].0);
            }
        }
    }
}

/// Merging is commutative over the tallies: whichever of two registries
/// takes the other in, each key ends with the same tallies.
pub proof fn lemma_merge_commutes(a: Seq<Entry>, b: Seq<Entry>, key: Seq<char>)
    requires
        distinct_keys(a),
        distinct_keys(b),
    ensures
        same_tallies(record_of(merged(a, b), key), record_of(merged(b, a), key)),
{
    lemma_merged_record(a, b, key);
    lemma_merged_record(b, a, key);
}

/// Merging is associative: taking in `b` and then `c` gives each key the
/// record that taking in `b` merged with `c` gives it.
pub proof fn lemma_merge_associates(a: Seq<Entry>, b: Seq<Entry>, c: Seq<Entry>, key: Seq<char>)
    requires
        distinct_keys(b),
        distinct_keys(c),
    ensures
        record_of(merged(merged(a, b), c), key) == record_of(merged(a, merged(b, c)), key),
{
    lemma_merged_record(a, b, key);
    lemma_merged_record(merged(a, b), c, key);
    lemma_merged_keys_distinct(b, c);
    lemma_merged_record(b, c, key);
    lemma_merged_record(a, merged(b, c), key);
}

} // verus!
