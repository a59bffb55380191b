//! What holds of a registry once its names are handed out.

use vstd::prelude::*;

use crate::allocation::{
    held_back, lemma_turn, lemma_unnamed_bound, lemma_walk, lemma_walks_settle, named_at,
    processed, unnamed, walked, walked_once, walked_times,
};
use crate::encode_selector::radix_name;
use crate::encoder_laws::lemma_to_radix_injective;
use crate::ordered_map::Entry;
use crate::registry::{RegistryView, SelectorType};

verus! {

/// No entry has a new name yet.
pub open spec fn all_unnamed(entries: Seq<Entry>) -> bool {
    forall|i: int| 0 <= i < entries.len() ==> (#[trigger] entries[i]).1.replacement is None
}

/// Every record has a kind.
pub open spec fn kinds_known(entries: Seq<Entry>) -> bool {
    forall|i: int| 0 <= i < entries.len() ==> (#[trigger] entries[i]).1.kind is Some
}

/// The two registries hold the same keys with the same kinds and tallies, in
/// the same order; they may differ in the new names.
pub open spec fn same_but_names(a: Seq<Entry>, b: Seq<Entry>) -> bool {
    &&& a.len() == b.len()
    &&& forall|i: int|
        0 <= i < a.len() ==> (#[trigger] a[i]).0 == b[i].0 && a[i].1.kind == b[i].1.kind
            && a[i].1.counter == b[i].1.counter && a[i].1.markup_class_counter
            == b[i].1.markup_class_counter && a[i].1.markup_id_counter == b[i].1.markup_id_counter
            && a[i].1.selector_string_counter == b[i].1.selector_string_counter
            && a[i].1.anchor_counter == b[i].1.anchor_counter && a[i].1.style_counter
            == b[i].1.style_counter && a[i].1.script_counter == b[i].1.script_counter
            && a[i].1.prefix_counter == b[i].1.prefix_counter && (a[i].1.replacement is Some
            ==> b[i].1.replacement == a[i].1.replacement)
}

proof fn lemma_walk_keeps_records(state: RegistryView, chars: Seq<char>, inv: Seq<usize>, upto: nat)
    requires
        upto <= state.entries.len(),
    ensures
        same_but_names(state.entries, walked(state, chars, inv, upto).entries),
    decreases upto,
{
    if upto > 0 {
        let before = walked(state, chars, inv, (upto - 1) as nat);
        lemma_walk_keeps_records(state, chars, inv, (upto - 1) as nat);
        lemma_turn(before, chars, inv, upto - 1);
        let after = named_at(before, chars, inv, upto - 1);
        assert forall|i: int| 0 <= i < state.entries.len() implies (#[trigger] state.entries[i]).0
            == after.entries[i].0 && state.entries[i].1.kind == after.entries[i].1.kind
            && state.entries[i].1.counter == after.entries[i].1.counter
            && state.entries[i].1.markup_class_counter == after.entries[i].1.markup_class_counter
            && state.entries[i].1.markup_id_counter == after.entries[i].1.markup_id_counter
            && state.entries[i].1.selector_string_counter
            == after.entries[i].1.selector_string_counter && state.entries[i].1.anchor_counter
            == after.entries[i].1.anchor_counter && state.entries[i].1.style_counter
            == after.entries[i].1.style_counter && state.entries[i].1.script_counter
            == after.entries[i].1.script_counter && state.entries[i].1.prefix_counter
            == after.entries[i].1.prefix_counter && (state.entries[i].1.replacement is Some
            ==> after.entries[i].1.replacement == state.entries[i].1.replacement) by {
            assert(state.entries[i].0 == before.entries[i].0);
            if i != upto - 1 {
                assert(after.entries[i] == before.entries[i]);
            }
        }
    }
}

proof fn lemma_walks_keep_records(state: RegistryView, chars: Seq<char>, inv: Seq<usize>, walks: nat)
    ensures
        same_but_names(state.entries, walked_times(state, chars, inv, walks).entries),
    decreases walks,
{
    if walks > 0 {
        let next = walked_once(state, chars, inv);
        lemma_walk_keeps_records(state, chars, inv, state.entries.len());
        lemma_walks_keep_records(next, chars, inv, (walks - 1) as nat);
        let last = walked_times(next, chars, inv, (walks - 1) as nat);
        assert forall|i: int| 0 <= i < state.entries.len() implies (#[trigger] state.entries[i]).0
            == last.entries[i].0 && state.entries[i].1.kind == last.entries[i].1.kind
            && state.entries[i].1.counter == last.entries[i].1.counter
            && state.entries[i].1.markup_class_counter == last.entries[i].1.markup_class_counter
            && state.entries[i].1.markup_id_counter == last.entries[i].1.markup_id_counter
            && state.entries[i].1.selector_string_counter
            == last.entries[i].1.selector_string_counter && state.entries[i].1.anchor_counter
            == last.entries[i].1.anchor_counter && state.entries[i].1.style_counter
            == last.entries[i].1.style_counter && state.entries[i].1.script_counter
            == last.entries[i].1.script_counter && state.entries[i].1.prefix_counter
            == last.entries[i].1.prefix_counter && (state.entries[i].1.replacement is Some
            ==> last.entries[i].1.replacement == state.entries[i].1.replacement) by {
            assert(state.entries[i].0 == next.entries[i].0);
            assert(next.entries[i].0 == last.entries[i].0);
        }
    }
}

/// Handing out the names leaves every key in its place with its kind and its
/// tallies, and leaves a name that was given before as it was.
pub proof fn lemma_processing_keeps_records(state: RegistryView, chars: Seq<char>, inv: Seq<usize>)
    ensures
        same_but_names(state.entries, processed(state, chars, inv).entries),
{
    lemma_walks_keep_records(state, chars, inv, state.entries.len() + 1);
}

proof fn lemma_walk_descends(state: RegistryView, chars: Seq<char>, inv: Seq<usize>, lo: nat, hi: nat)
    requires
        lo <= hi <= state.entries.len(),
    ensures
        unnamed(walked(state, chars, inv, hi).entries) <= unnamed(
            walked(state, chars, inv, lo).entries,
        ),
    decreases hi,
{
    if lo < hi {
        lemma_walk_descends(state, chars, inv, lo, (hi - 1) as nat);
        lemma_walk(state, chars, inv, (hi - 1) as nat);
        lemma_turn(walked(state, chars, inv, (hi - 1) as nat), chars, inv, hi - 1);
    }
}

/// Where a walk names nothing, every entry without a name is held back.
pub proof fn lemma_settled_unnamed_are_held_back(
    state: RegistryView,
    chars: Seq<char>,
    inv: Seq<usize>,
    i: int,
)
    requires
        walked_once(state, chars, inv) == state,
        0 <= i < state.entries.len(),
        state.entries[i].1.kind is Some,
        state.entries[i].1.replacement is None,
    ensures
        held_back(state.entries, i),
{
    let len = state.entries.len();
    lemma_walk_descends(state, chars, inv, (i + 1) as nat, len);
    lemma_walk_descends(state, chars, inv, i as nat, (i + 1) as nat);
    lemma_walk(state, chars, inv, i as nat);
    lemma_walk(state, chars, inv, (i + 1) as nat);
    assert(walked(state, chars, inv, i as nat) == state);
    assert(named_at(state, chars, inv, i) == state);
    if !held_back(state.entries, i) {
        assert(named_at(state, chars, inv, i).entries[i].1.replacement is Some);
    }
}

/// After the names are handed out, every entry has a name but the classes
/// that were met in markup `class` attributes only and whose own names no
/// class has been given.
pub proof fn lemma_unnamed_after_processing(
    state: RegistryView,
    chars: Seq<char>,
    inv: Seq<usize>,
    i: int,
)
    requires
        kinds_known(state.entries),
        0 <= i < state.entries.len(),
    ensures
        processed(state, chars, inv).entries.len() == state.entries.len(),
        processed(state, chars, inv).entries[i].1.replacement is None ==> held_back(
            processed(state, chars, inv).entries,
            i,
        ),
{
    let done = processed(state, chars, inv);
    lemma_unnamed_bound(state.entries);
    lemma_walks_settle(state, chars, inv, state.entries.len() + 1);
    lemma_processing_keeps_records(state, chars, inv);
    assert(state.entries[i].1.kind is Some);
    if done.entries[i].1.replacement is None {
        lemma_settled_unnamed_are_held_back(done, chars, inv, i);
    }
}

/// The next ordinal of a kind.
pub open spec fn counter_of(state: RegistryView, kind: SelectorType) -> usize {
    match kind {
        SelectorType::Class => state.class_counter,
        SelectorType::Id => state.id_counter,
    }
}

/// No two entries of one kind share a new name, no entry has the name of an
/// ordinal that is still to come, and the ordinals left suffice.
pub open spec fn names_apart(state: RegistryView, chars: Seq<char>, inv: Seq<usize>) -> bool {
    &&& state.class_counter + unnamed(state.entries) <= usize::MAX
    &&& state.id_counter + unnamed(state.entries) <= usize::MAX
    &&& forall|i: int, j: int|
        0 <= i < j < state.entries.len() && (#[trigger] state.entries[i]).1.kind is Some
            && state.entries[i].1.kind == (#[trigger] state.entries[j]).1.kind
            && state.entries[i].1.replacement is Some ==> state.entries[i].1.replacement
            != state.entries[j].1.replacement
    &&& forall|i: int, k: nat|
        0 <= i < state.entries.len() && (#[trigger] state.entries[i]).1.kind is Some && k
            >= counter_of(state, state.entries[i].1.kind.unwrap())
            ==> state.entries[i].1.replacement != Some(#[trigger] radix_name(k, chars, inv))
}

proof fn lemma_turn_keeps_names_apart(state: RegistryView, chars: Seq<char>, inv: Seq<usize>, i: int)
    requires
        inv.len() < chars.len(),
        chars.no_duplicates(),
        0 <= i < state.entries.len(),
        names_apart(state, chars, inv),
    ensures
        names_apart(named_at(state, chars, inv, i), chars, inv),
{
    let next = named_at(state, chars, inv, i);
    lemma_turn(state, chars, inv, i);
    if next != state {
        let kind = state.entries[i].1.kind.unwrap();
        let ordinal = counter_of(state, kind) as nat;
        let name = radix_name(ordinal, chars, inv);
        assert(next.entries[i].1.replacement == Some(name));
        assert forall|a: int, b: int|
            0 <= a < b < next.entries.len() && (#[trigger] next.entries[a]).1.kind is Some
                && next.entries[a].1.kind == (#[trigger] next.entries[b]).1.kind
                && next.entries[a].1.replacement is Some implies next.entries[a].1.replacement
            != next.entries[b].1.replacement by {
            if a == i {
                assert(next.entries[b] == state.entries[b]);
                assert(state.entries[b].1.kind == Some(kind));
                assert(state.entries[b].1.replacement != Some(radix_name(ordinal, chars, inv)));
            } else if b == i {
                assert(next.entries[a] == state.entries[a]);
                assert(state.entries[a].1.kind == Some(kind));
                assert(state.entries[a].1.replacement != Some(radix_name(ordinal, chars, inv)));
            } else {
                assert(next.entries[a] == state.entries[a]);
                assert(next.entries[b] == state.entries[b]);
            }
        }
        assert forall|a: int, k: nat|
            0 <= a < next.entries.len() && (#[trigger] next.entries[a]).1.kind is Some && k
                >= counter_of(next, next.entries[a].1.kind.unwrap()) implies next.entries[a].1.replacement
            != Some(#[trigger] radix_name(k, chars, inv)) by {
            if a == i {
                if radix_name(k, chars, inv) == name {
                    lemma_to_radix_injective(k, ordinal, chars, inv);
                }
            } else {
                assert(next.entries[a] == state.entries[a]);
                assert(k >= counter_of(state, state.entries[a].1.kind.unwrap()));
            }
        }
    }
}

proof fn lemma_walk_keeps_names_apart(state: RegistryView, chars: Seq<char>, inv: Seq<usize>, upto: nat)
    requires
        inv.len() < chars.len(),
        chars.no_duplicates(),
        upto <= state.entries.len(),
        names_apart(state, chars, inv),
    ensures
        names_apart(walked(state, chars, inv, upto), chars, inv),
    decreases upto,
{
    if upto > 0 {
        lemma_walk_keeps_names_apart(state, chars, inv, (upto - 1) as nat);
        lemma_walk(state, chars, inv, (upto - 1) as nat);
        lemma_turn_keeps_names_apart(
            walked(state, chars, inv, (upto - 1) as nat),
            chars,
            inv,
            upto - 1,
        );
    }
}

proof fn lemma_walks_keep_names_apart(state: RegistryView, chars: Seq<char>, inv: Seq<usize>, walks: nat)
    requires
        inv.len() < chars.len(),
        chars.no_duplicates(),
        names_apart(state, chars, inv),
    ensures
        names_apart(walked_times(state, chars, inv, walks), chars, inv),
    decreases walks,
{
    if walks > 0 {
        lemma_walk_keeps_names_apart(state, chars, inv, state.entries.len());
        lemma_walks_keep_names_apart(
            walked_once(state, chars, inv),
            chars,
            inv,
            (walks - 1) as nat,
        );
    }
}

/// Over an alphabet without repeated characters, handing out the names to a
/// registry that has none yet gives no two classes the same name, and no
/// two ids.
pub proof fn lemma_names_differ(
    state: RegistryView,
    chars: Seq<char>,
    inv: Seq<usize>,
    i: int,
    j: int,
)
    requires
        inv.len() < chars.len(),
        chars.no_duplicates(),
        all_unnamed(state.entries),
        state.class_counter + state.entries.len() <= usize::MAX,
        state.id_counter + state.entries.len() <= usize::MAX,
        0 <= i < j < state.entries.len(),
        state.entries[i].1.kind is Some,
        state.entries[i].1.kind == state.entries[j].1.kind,
        processed(state, chars, inv).entries[i].1.replacement is Some,
    ensures
        processed(state, chars, inv).entries[i].1.replacement != processed(
            state,
            chars,
            inv,
        ).entries[j].1.replacement,
{
    lemma_unnamed_bound(state.entries);
    assert(names_apart(state, chars, inv));
    lemma_walks_keep_names_apart(state, chars, inv, state.entries.len() + 1);
    lemma_processing_keeps_records(state, chars, inv);
    let done = processed(state, chars, inv);
    assert(state.entries[i].0 == done.entries[i].0);
    assert(state.entries[j].0 == done.entries[j].0);
}

} // verus!
