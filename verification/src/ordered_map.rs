//! The insertion-ordered map behind the registry.
//!
//! The map itself comes from the `indexmap` crate. Its contents are spoken of
//! as a sequence of key and record pairs, in the order in which the map walks
//! them, and each call into the crate is stated over that sequence.

use core::cmp::Ordering;
use indexmap::IndexMap;
use vstd::prelude::*;

use crate::registry::{Selector, SelectorView};

verus! {

/// `indexmap::IndexMap`: a hash map that walks its entries in the order in
/// which their keys were first inserted.
#[verifier::external_type_specification]
#[verifier::external_body]
#[verifier::reject_recursive_types(K)]
#[verifier::reject_recursive_types(V)]
#[verifier::reject_recursive_types(S)]
pub struct ExIndexMap<K, V, S>(IndexMap<K, V, S>);

/// One entry of the registry as plain values: the key and its record.
pub type Entry = (Seq<char>, SelectorView);

/// The entries that a map holds, in the order in which it walks them.
pub uninterp spec fn entries_of(map: &IndexMap<String, Selector>) -> Seq<Entry>;

/// The first place at which `key` stands in `entries`.
pub open spec fn position_of(entries: Seq<Entry>, key: Seq<char>) -> Option<int>
    decreases entries.len(),
{
    if entries.len() == 0 {
        None
    } else {
        match position_of(entries.drop_last(), key) {
            Some(i) => Some(i),
            None => if entries.last().0 == key {
                Some(entries.len() - 1)
            } else {
                None
            },
        }
    }
}

/// The entries after `record` has been stored under `key`: in the place of
/// the record that the key had, or at the end for a key that is new.
pub open spec fn stored(entries: Seq<Entry>, key: Seq<char>, record: SelectorView) -> Seq<Entry> {
    match position_of(entries, key) {
        Some(i) => entries.update(i, (key, record)),
        None => entries.push((key, record)),
    }
}

/// `sorted` with `entry` put behind every entry that was met at least as
/// often.
pub open spec fn placed_by_frequency(sorted: Seq<Entry>, entry: Entry) -> Seq<Entry>
    decreases sorted.len(),
{
    if sorted.len() == 0 {
        seq![entry]
    } else if sorted.last().1.counter >= entry.1.counter {
        sorted.push(entry)
    } else {
        placed_by_frequency(sorted.drop_last(), entry).push(sorted.last())
    }
}

/// The entries ordered from the most often met to the least; entries that
/// were met equally often keep the order they had.
pub open spec fn by_frequency(entries: Seq<Entry>) -> Seq<Entry>
    decreases entries.len(),
{
    if entries.len() == 0 {
        Seq::empty()
    } else {
        placed_by_frequency(by_frequency(entries.drop_last()), entries.last())
    }
}

/// How two records compare when the one met more often is to come first.
pub fn frequency_order(x: &Selector, y: &Selector) -> (order: Ordering)
    ensures
        order == (if y.counter < x.counter {
            Ordering::Less
        } else if y.counter == x.counter {
            Ordering::Equal
        } else {
            Ordering::Greater
        }),
{
    if y.counter < x.counter {
        Ordering::Less
    } else if y.counter == x.counter {
        Ordering::Equal
    } else {
        Ordering::Greater
    }
}

/// `IndexMap::new`: a map without entries.
#[verifier::external_body]
pub(crate) fn map_new() -> (map: IndexMap<String, Selector>)
    ensures
        entries_of(&map) == Seq::<Entry>::empty(),
{
    IndexMap::new()
}

/// `IndexMap::len`: the number of entries.
#[verifier::external_body]
pub(crate) fn map_len(map: &IndexMap<String, Selector>) -> (len: usize)
    ensures
        len == entries_of(map).len(),
{
    map.len()
}

/// `IndexMap::get_index`: the key and record at a place in the order, and
/// nothing for a place past the end. A map holds each key once, so the key
/// handed back is found at that place and at no other.
#[verifier::external_body]
pub(crate) fn map_get_index<'a>(map: &'a IndexMap<String, Selector>, index: usize) -> (entry:
    Option<(&'a String, &'a Selector)>)
    ensures
        match entry {
            Some((key, record)) => index < entries_of(map).len() && key@ == entries_of(
                map,
            )[index as int].0 && record@ == entries_of(map)[index as int].1 && position_of(
                entries_of(map),
                key@,
            ) == Some(index as int),
            None => index >= entries_of(map).len(),
        },
{
    map.get_index(index)
}

/// `IndexMap::get_index_of`: the place of a key in the order, and nothing
/// for a key that the map does not hold.
#[verifier::external_body]
pub(crate) fn map_get_index_of(map: &IndexMap<String, Selector>, key: &str) -> (index: Option<
    usize,
>)
    ensures
        match index {
            Some(i) => position_of(entries_of(map), key@) == Some(i as int),
            None => position_of(entries_of(map), key@) is None,
        },
{
    map.get_index_of(key)
}

/// `IndexMap::insert`: a key that the map holds keeps its place and gets the
/// new record, and the record it had is handed back; a new key goes to the
/// end of the order.
#[verifier::external_body]
pub(crate) fn map_insert(map: &mut IndexMap<String, Selector>, key: String, record: Selector) -> (previous:
    Option<Selector>)
    ensures
        entries_of(final(map)) == stored(entries_of(old(map)), key@, record@),
        match previous {
            Some(earlier) => position_of(entries_of(old(map)), key@) is Some && earlier@
                == entries_of(old(map))[position_of(entries_of(old(map)), key@).unwrap()].1,
            None => position_of(entries_of(old(map)), key@) is None,
        },
{
    map.insert(key, record)
}

/// `IndexMap::sort_by` with `frequency_order`: a stable sort, so the entries
/// come out from the most often met to the least and equals keep their
/// order.
#[verifier::external_body]
pub(crate) fn map_sort_by_frequency(map: &mut IndexMap<String, Selector>)
    ensures
        entries_of(final(map)) == by_frequency(entries_of(old(map))),
{
    map.sort_by(|_, x, _, y| frequency_order(x, y))
}

} // verus!
