//! What reading a text adds to the registry, and what writing looks up.
//!
//! Reading a text yields the selectors met in it, one after the other, each
//! with the kind of place it was met in. The registry after reading is the
//! registry before with each of them noted in turn.

use vstd::prelude::*;

use crate::ordered_map::{map_get_index, map_get_index_of, position_of, Entry};
use crate::registry::{
    added, all_balanced, balanced, distinct_keys, has_sigil, kind_of, kinds_agree,
    lemma_position_of, record_of, RegistryView, SelectorUsage, Selectors,
};

verus! {

/// A selector met in a text: its key and the kind of place.
pub type Occurrence = (Seq<char>, Option<SelectorUsage>);

/// The entries after each of `occurrences` has been noted, in order.
pub open spec fn noted(entries: Seq<Entry>, occurrences: Seq<Occurrence>) -> Seq<Entry>
    decreases occurrences.len(),
{
    if occurrences.len() == 0 {
        entries
    } else if has_sigil(occurrences.last().0) {
        added(noted(entries, occurrences.drop_last()), occurrences.last().0, occurrences.last().1)
    } else {
        noted(entries, occurrences.drop_last())
    }
}

/// The registry after each of `occurrences` has been noted. The counts of
/// the ordinals stay as they are.
pub open spec fn noted_in(registry: RegistryView, occurrences: Seq<Occurrence>) -> RegistryView {
    RegistryView {
        entries: noted(registry.entries, occurrences),
        class_counter: registry.class_counter,
        id_counter: registry.id_counter,
    }
}

/// The occurrence of `key`, if it carries a sigil; a key without one is no
/// selector and is not noted.
pub open spec fn occurrence(key: Seq<char>, usage: Option<SelectorUsage>) -> Seq<Occurrence> {
    if has_sigil(key) {
        seq![(key, usage)]
    } else {
        Seq::empty()
    }
}

/// The occurrences of all parts, in order.
pub open spec fn gathered(parts: Seq<Seq<Occurrence>>) -> Seq<Occurrence>
    decreases parts.len(),
{
    if parts.len() == 0 {
        Seq::empty()
    } else {
        gathered(parts.drop_last()) + parts.last()
    }
}

/// The new name registered for `key`, if there is one.
pub open spec fn replacement_of(entries: Seq<Entry>, key: Seq<char>) -> Option<Seq<char>> {
    match record_of(entries, key) {
        Some(record) => record.replacement,
        None => None,
    }
}

/// Noting one list of occurrences after another is noting the two as one.
pub proof fn lemma_noted_concat(entries: Seq<Entry>, first: Seq<Occurrence>, then: Seq<Occurrence>)
    ensures
        noted(entries, first + then) == noted(noted(entries, first), then),
    decreases then.len(),
{
    if then.len() == 0 {
        assert(first + then == first);
    } else {
        assert((first + then).drop_last() == first + then.drop_last());
        assert((first + then).last() == then.last());
        lemma_noted_concat(entries, first, then.drop_last());
    }
}

/// One part more adds its occurrences behind those gathered before.
pub proof fn lemma_gathered_push(parts: Seq<Seq<Occurrence>>, part: Seq<Occurrence>)
    ensures
        gathered(parts.push(part)) == gathered(parts) + part,
{
    assert(parts.push(part).drop_last() == parts);
}

/// Noting one occurrence is adding it.
pub proof fn lemma_noted_one(entries: Seq<Entry>, key: Seq<char>, usage: Option<SelectorUsage>)
    requires
        has_sigil(key),
    ensures
        noted(entries, seq![(key, usage)]) == added(entries, key, usage),
{
    let one = seq![(key, usage)];
    assert(one.drop_last() == Seq::<Occurrence>::empty());
    assert(noted(entries, one.drop_last()) == entries);
}

/// Adding a selector keeps what holds of a registry: totals that agree
/// with their breakdowns, keys that stand once, and kinds that follow the
/// sigils.
pub proof fn lemma_added_keeps(entries: Seq<Entry>, key: Seq<char>, usage: Option<SelectorUsage>)
    requires
        has_sigil(key),
    ensures
        all_balanced(entries) ==> all_balanced(added(entries, key, usage)),
        distinct_keys(entries) ==> distinct_keys(added(entries, key, usage)),
        kinds_agree(entries) ==> kinds_agree(added(entries, key, usage)),
{
    lemma_position_of(entries, key);
    let after = added(entries, key, usage);
    match position_of(entries, key) {
        Some(i) => {
            if all_balanced(entries) {
                assert(balanced(entries[i].1));
                assert forall|j: int| 0 <= j < after.len() implies balanced(
                    #[trigger] after[j].1,
                ) by {
                    if j != i {
                        assert(after[j] == entries[j]);
                    }
                }
            }
            if kinds_agree(entries) {
                assert(has_sigil(entries[i].0));
                assert forall|j: int| 0 <= j < after.len() implies has_sigil(
                    #[trigger] after[j].0,
                ) && after[j].1.kind == Some(kind_of(after[j].0)) by {
                    if j != i {
                        assert(after[j] == entries[j]);
                    }
                }
            }
        },
        None => {
            if all_balanced(entries) {
                assert forall|j: int| 0 <= j < after.len() implies balanced(
                    #[trigger] after[j].1,
                ) by {
                    if j < entries.len() {
                        assert(after[j] == entries[j]);
                    }
                }
            }
            if kinds_agree(entries) {
                assert forall|j: int| 0 <= j < after.len() implies has_sigil(
                    #[trigger] after[j].0,
                ) && after[j].1.kind == Some(kind_of(after[j].0)) by {
                    if j < entries.len() {
                        assert(after[j] == entries[j]);
                    }
                }
            }
        },
    }
}

/// After any number of selectors were noted, the total of every record
/// still agrees with its breakdown, every key still stands once, and every
/// kind still follows its sigil.
pub proof fn lemma_noted_keeps(entries: Seq<Entry>, occurrences: Seq<Occurrence>)
    ensures
        all_balanced(entries) ==> all_balanced(noted(entries, occurrences)),
        distinct_keys(entries) ==> distinct_keys(noted(entries, occurrences)),
        kinds_agree(entries) ==> kinds_agree(noted(entries, occurrences)),
    decreases occurrences.len(),
{
    if occurrences.len() > 0 {
        lemma_noted_keeps(entries, occurrences.drop_last());
        if has_sigil(occurrences.last().0) {
            lemma_added_keeps(
                noted(entries, occurrences.drop_last()),
                occurrences.last().0,
                occurrences.last().1,
            );
        }
    }
}

/// Records `selector` in the registry with one more occurrence in the given
/// kind of place.
pub fn add_selector_to_map(selector: &str, selectors: &mut Selectors, usage: Option<SelectorUsage>)
    requires
        has_sigil(selector@),
    ensures
        final(selectors)@ == noted_in(old(selectors)@, seq![(selector@, usage)]),
{
    proof {
        lemma_noted_one(selectors@.entries, selector@, usage);
    }
    selectors.add(selector.to_owned(), usage);
}

/// Records `key` with one more occurrence where it carries a sigil, and
/// leaves the registry alone where it does not.
pub fn note_selector(key: &str, selectors: &mut Selectors, usage: Option<SelectorUsage>)
    ensures
        final(selectors)@ == noted_in(old(selectors)@, occurrence(key@, usage)),
{
    if key.is_empty() {
        return ;
    }
    let sigil = key.get_char(0);
    if sigil == '.' || sigil == '#' {
        add_selector_to_map(key, selectors, usage);
    }
}

/// Fetches the new name of `selector`. There is none for a selector that the
/// registry does not hold, nor for one that was left without a new name:
/// such a selector stays as it is written.
pub fn get_encoded_selector(selector: &str, selectors: &Selectors) -> (encoded: Option<String>)
    ensures
        match encoded {
            Some(name) => replacement_of(selectors@.entries, selector@) == Some(name@),
            None => replacement_of(selectors@.entries, selector@) is None,
        },
{
    proof {
        lemma_position_of(selectors@.entries, selector@);
    }
    match map_get_index_of(&selectors.map, selector) {
        Some(place) => match map_get_index(&selectors.map, place) {
            Some((_, record)) => match &record.replacement {
                Some(name) => Some(name.clone()),
                None => None,
            },
            None => None,
        },
        None => None,
    }
}

} // verus!
