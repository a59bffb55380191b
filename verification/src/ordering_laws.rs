//! What holds of a registry ordered by frequency.

use vstd::prelude::*;
use vstd::seq_lib::to_multiset_build;

use crate::ordered_map::{by_frequency, placed_by_frequency, Entry};

verus! {

/// No entry stands before one that was met more often.
pub open spec fn descending(entries: Seq<Entry>) -> bool {
    forall|i: int, j: int|
        0 <= i < j < entries.len() ==> entries[i].1.counter >= entries[j].1.counter
}

proof fn lemma_placed(sorted: Seq<Entry>, entry: Entry)
    requires
        descending(sorted),
    ensures
        descending(placed_by_frequency(sorted, entry)),
        placed_by_frequency(sorted, entry).len() == sorted.len() + 1,
        placed_by_frequency(sorted, entry).to_multiset() == sorted.to_multiset().insert(entry),
        forall|i: int|
            0 <= i < placed_by_frequency(sorted, entry).len() ==> #[trigger] placed_by_frequency(
                sorted,
                entry,
            )[i] == entry || sorted.contains(placed_by_frequency(sorted, entry)[i]),
    decreases sorted.len(),
{
    let placed = placed_by_frequency(sorted, entry);
    if sorted.len() == 0 {
        to_multiset_build(sorted, entry);
        assert(placed =~= sorted.push(entry));
    } else if sorted.last().1.counter >= entry.1.counter {
        to_multiset_build(sorted, entry);
        assert forall|i: int| 0 <= i < placed.len() implies #[trigger] placed[i] == entry
            || sorted.contains(placed[i]) by {
            if i < sorted.len() {
                assert(sorted[i] == placed[i]);
            }
        }
    } else {
        let front = sorted.drop_last();
        let last = sorted.last();
        let inner = placed_by_frequency(front, entry);
        assert forall|i: int, j: int| 0 <= i < j < front.len() implies front[i].1.counter
            >= front[j].1.counter by {
            assert(front[i] == sorted[i] && front[j] == sorted[j]);
        }
        lemma_placed(front, entry);
        to_multiset_build(inner, last);
        to_multiset_build(front, last);
        assert(front.push(last) =~= sorted);
        assert(front.to_multiset().insert(entry).insert(last) =~= front.to_multiset().insert(
            last,
        ).insert(entry));
        assert forall|i: int, j: int| 0 <= i < j < placed.len() implies placed[i].1.counter
            >= placed[j].1.counter by {
            if j == placed.len() - 1 {
                assert(placed[i] == inner[i]);
                if inner[i] != entry {
                    let k = choose|k: int| 0 <= k < front.len() && front[k] == inner[i];
                    assert(sorted[k] == front[k]);
                }
            } else {
                assert(placed[i] == inner[i] && placed[j] == inner[j]);
            }
        }
        assert forall|i: int| 0 <= i < placed.len() implies #[trigger] placed[i] == entry
            || sorted.contains(placed[i]) by {
            if i < inner.len() {
                assert(placed[i] == inner[i]);
                if inner[i] != entry {
                    let k = choose|k: int| 0 <= k < front.len() && front[k] == inner[i];
                    assert(sorted[k] == front[k]);
                }
            } else {
                assert(sorted[sorted.len() - 1] == placed[i]);
            }
        }
    }
}

/// Ordering by frequency keeps every entry, as often as it stood there, and
/// puts no entry before one that was met more often.
pub proof fn lemma_by_frequency(entries: Seq<Entry>)
    ensures
        by_frequency(entries).len() == entries.len(),
        by_frequency(entries).to_multiset() == entries.to_multiset(),
        descending(by_frequency(entries)),
    decreases entries.len(),
{
    if entries.len() == 0 {
        assert(by_frequency(entries) =~= entries);
    } else {
        lemma_by_frequency(entries.drop_last());
        lemma_placed(by_frequency(entries.drop_last()), entries.last());
        to_multiset_build(entries.drop_last(), entries.last());
        assert(entries.drop_last().push(entries.last()) =~= entries);
    }
}

} // verus!
