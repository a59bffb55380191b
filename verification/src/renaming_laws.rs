//! What holds of a registry whose selectors already carry the names that
//! handing out would give them.

use vstd::prelude::*;

use crate::allocation::{
    bare_name, held_back, is_issued, lemma_settled_stays, markup_only, named_at, processed,
    walked, walked_once, walked_times,
};
use crate::allocation_laws::{all_unnamed, counter_of, kinds_known};
use crate::encode_selector::radix_name;
use crate::ordered_map::Entry;
use crate::registry::{RegistryView, SelectorType, SelectorView};

verus! {

/// Whether a record is one that handing out may hold back: a class met in
/// markup `class` attributes and nowhere else.
pub open spec fn is_kept(record: SelectorView) -> bool {
    record.kind == Some(SelectorType::Class) && markup_only(record)
}

/// How many of the first `upto` entries are of the given kind and get a
/// name.
pub open spec fn rank_before(entries: Seq<Entry>, kind: SelectorType, upto: nat) -> nat
    decreases upto,
{
    if upto == 0 {
        0
    } else {
        rank_before(entries, kind, (upto - 1) as nat) + if entries[upto - 1].1.kind == Some(kind)
            && !is_kept(entries[upto - 1].1) {
            1nat
        } else {
            0nat
        }
    }
}

/// The sigil of a kind.
pub open spec fn sigil_char(kind: SelectorType) -> char {
    match kind {
        SelectorType::Class => '.',
        SelectorType::Id => '#',
    }
}

/// The name that the entry at `i` is given where no class has to give up
/// its own name: that of the next ordinal of its kind.
pub open spec fn name_in_turn(state: RegistryView, chars: Seq<char>, inv: Seq<usize>, i: int) -> Seq<
    char,
> {
    let kind = state.entries[i].1.kind.unwrap();
    radix_name(
        (counter_of(state, kind) + rank_before(state.entries, kind, i as nat)) as nat,
        chars,
        inv,
    )
}

/// Every selector that gets a name is written as its sigil and the name it
/// will get, and no class that is held back is written as a name that a
/// class will get.
#[verifier::opaque]
pub open spec fn carries_own_names(state: RegistryView, chars: Seq<char>, inv: Seq<usize>) -> bool {
    &&& forall|i: int|
        0 <= i < state.entries.len() && !is_kept((#[trigger] state.entries[i]).1)
            ==> state.entries[i].0 == seq![sigil_char(state.entries[i].1.kind.unwrap())]
            + name_in_turn(state, chars, inv, i)
    &&& forall|i: int, m: nat|
        0 <= i < state.entries.len() && is_kept((#[trigger] state.entries[i]).1)
            && state.class_counter <= m < state.class_counter + rank_before(
            state.entries,
            SelectorType::Class,
            state.entries.len(),
        ) ==> bare_name(state.entries[i].0) != #[trigger] radix_name(m, chars, inv)
}

/// The registry after the first `upto` entries have had their turn, where
/// every entry that is not held back gets the name of its turn.
pub open spec fn named_in_turn(state: RegistryView, chars: Seq<char>, inv: Seq<usize>, upto: nat) -> RegistryView {
    RegistryView {
        entries: Seq::new(
            state.entries.len(),
            |j: int|
                if j < upto && !is_kept(state.entries[j].1) {
                    (
                        state.entries[j].0,
                        SelectorView {
                            replacement: Some(name_in_turn(state, chars, inv, j)),
                            ..state.entries[j].1
                        },
                    )
                } else {
                    state.entries[j]
                },
        ),
        class_counter: (state.class_counter + rank_before(
            state.entries,
            SelectorType::Class,
            upto,
        )) as usize,
        id_counter: (state.id_counter + rank_before(state.entries, SelectorType::Id, upto)) as usize,
    }
}

proof fn lemma_rank_grows(entries: Seq<Entry>, kind: SelectorType, lo: nat, hi: nat)
    requires
        lo <= hi,
    ensures
        rank_before(entries, kind, lo) <= rank_before(entries, kind, hi),
        rank_before(entries, kind, hi) <= hi,
    decreases hi,
{
    if hi > 0 {
        if lo < hi {
            lemma_rank_grows(entries, kind, lo, (hi - 1) as nat);
        } else {
            lemma_rank_grows(entries, kind, (lo - 1) as nat, (hi - 1) as nat);
        }
    }
}

proof fn lemma_not_issued(
    state: RegistryView,
    chars: Seq<char>,
    inv: Seq<usize>,
    upto: nat,
    i: int,
)
    requires
        all_unnamed(state.entries),
        kinds_known(state.entries),
        carries_own_names(state, chars, inv),
        upto <= state.entries.len(),
        0 <= i < state.entries.len(),
        is_kept(state.entries[i].1),
    ensures
        !is_issued(named_in_turn(state, chars, inv, upto).entries, bare_name(state.entries[i].0)),
{
    reveal(carries_own_names);
    let now = named_in_turn(state, chars, inv, upto).entries;
    let bare = bare_name(state.entries[i].0);
    let len = state.entries.len();
    assert forall|j: int| 0 <= j < now.len() implies !((#[trigger] now[j]).1.kind == Some(
        SelectorType::Class,
    ) && now[j].1.replacement == Some(bare)) by {
        if j < upto && !is_kept(state.entries[j].1) {
            if now[j].1.kind == Some(SelectorType::Class) {
                let m = (state.class_counter + rank_before(
                    state.entries,
                    SelectorType::Class,
                    j as nat,
                )) as nat;
                lemma_rank_grows(state.entries, SelectorType::Class, (j + 1) as nat, len);
                assert(now[j].1.replacement == Some(radix_name(m, chars, inv)));
                assert(is_kept(state.entries[i].1));
                assert(bare != radix_name(m, chars, inv));
            }
        } else {
            assert(now[j] == state.entries[j]);
        }
    }
}

proof fn lemma_turn_in_turn(state: RegistryView, chars: Seq<char>, inv: Seq<usize>, i: int)
    requires
        all_unnamed(state.entries),
        kinds_known(state.entries),
        carries_own_names(state, chars, inv),
        0 <= i < state.entries.len(),
        state.class_counter + state.entries.len() <= usize::MAX,
        state.id_counter + state.entries.len() <= usize::MAX,
    ensures
        named_at(named_in_turn(state, chars, inv, i as nat), chars, inv, i) == named_in_turn(
            state,
            chars,
            inv,
            (i + 1) as nat,
        ),
{
    let len = state.entries.len();
    let before = named_in_turn(state, chars, inv, i as nat);
    let after = named_in_turn(state, chars, inv, (i + 1) as nat);
    let next = named_at(before, chars, inv, i);
    let classes = rank_before(state.entries, SelectorType::Class, i as nat);
    let ids = rank_before(state.entries, SelectorType::Id, i as nat);
    lemma_rank_grows(state.entries, SelectorType::Class, (i + 1) as nat, len);
    lemma_rank_grows(state.entries, SelectorType::Id, (i + 1) as nat, len);
    lemma_rank_grows(state.entries, SelectorType::Class, i as nat, (i + 1) as nat);
    lemma_rank_grows(state.entries, SelectorType::Id, i as nat, (i + 1) as nat);
    assert(before.entries[i] == state.entries[i]);
    assert(state.entries[i].1.replacement is None);
    assert(state.entries[i].1.kind is Some);
    assert(before.class_counter == state.class_counter + classes);
    assert(before.id_counter == state.id_counter + ids);
    if is_kept(state.entries[i].1) {
        lemma_not_issued(state, chars, inv, i as nat, i);
        assert(held_back(before.entries, i));
        assert(next == before);
        assert(rank_before(state.entries, SelectorType::Class, (i + 1) as nat) == classes);
        assert(rank_before(state.entries, SelectorType::Id, (i + 1) as nat) == ids);
        assert forall|j: int| 0 <= j < len implies after.entries[j] == before.entries[j] by {}
        assert(after.entries =~= before.entries);
    } else {
        assert(!held_back(before.entries, i));
        match state.entries[i].1.kind {
            Some(SelectorType::Class) => {
                assert(rank_before(state.entries, SelectorType::Class, (i + 1) as nat) == classes
                    + 1);
                assert(rank_before(state.entries, SelectorType::Id, (i + 1) as nat) == ids);
                assert(name_in_turn(state, chars, inv, i) == radix_name(
                    before.class_counter as nat,
                    chars,
                    inv,
                ));
                assert(next.class_counter == after.class_counter);
                assert(next.id_counter == after.id_counter);
            },
            Some(SelectorType::Id) => {
                assert(rank_before(state.entries, SelectorType::Class, (i + 1) as nat) == classes);
                assert(rank_before(state.entries, SelectorType::Id, (i + 1) as nat) == ids + 1);
                assert(name_in_turn(state, chars, inv, i) == radix_name(
                    before.id_counter as nat,
                    chars,
                    inv,
                ));
                assert(next.class_counter == after.class_counter);
                assert(next.id_counter == after.id_counter);
            },
            None => {},
        }
        assert forall|j: int| 0 <= j < len implies next.entries[j] == after.entries[j] by {
            if j != i {
                assert(next.entries[j] == before.entries[j]);
            }
        }
        assert(next.entries =~= after.entries);
    }
}

proof fn lemma_walked_in_turn(state: RegistryView, chars: Seq<char>, inv: Seq<usize>, upto: nat)
    requires
        all_unnamed(state.entries),
        kinds_known(state.entries),
        carries_own_names(state, chars, inv),
        upto <= state.entries.len(),
        state.class_counter + state.entries.len() <= usize::MAX,
        state.id_counter + state.entries.len() <= usize::MAX,
    ensures
        walked(state, chars, inv, upto) == named_in_turn(state, chars, inv, upto),
    decreases upto,
{
    if upto == 0 {
        assert(named_in_turn(state, chars, inv, 0).entries =~= state.entries);
    } else {
        lemma_walked_in_turn(state, chars, inv, (upto - 1) as nat);
        lemma_turn_in_turn(state, chars, inv, upto - 1);
    }
}

proof fn lemma_settled_in_turn(state: RegistryView, chars: Seq<char>, inv: Seq<usize>, upto: nat)
    requires
        all_unnamed(state.entries),
        kinds_known(state.entries),
        carries_own_names(state, chars, inv),
        upto <= state.entries.len(),
    ensures
        walked(
            named_in_turn(state, chars, inv, state.entries.len()),
            chars,
            inv,
            upto,
        ) == named_in_turn(state, chars, inv, state.entries.len()),
    decreases upto,
{
    if upto > 0 {
        let i = upto - 1;
        let done = named_in_turn(state, chars, inv, state.entries.len());
        lemma_settled_in_turn(state, chars, inv, i as nat);
        if is_kept(state.entries[i].1) {
            lemma_not_issued(state, chars, inv, state.entries.len(), i);
            assert(done.entries[i] == state.entries[i]);
            assert(held_back(done.entries, i));
        } else {
            assert(done.entries[i].1.replacement is Some);
        }
    }
}

/// Where every selector that gets a name is already written as that name,
/// in the order of the registry, and no class that is held back is written
/// as one of them, handing out the names gives each selector its own name:
/// rewriting with such a registry writes every name as it stands.
pub proof fn lemma_own_names_are_handed_out(
    state: RegistryView,
    chars: Seq<char>,
    inv: Seq<usize>,
    i: int,
)
    requires
        all_unnamed(state.entries),
        kinds_known(state.entries),
        carries_own_names(state, chars, inv),
        state.class_counter + state.entries.len() <= usize::MAX,
        state.id_counter + state.entries.len() <= usize::MAX,
        0 <= i < state.entries.len(),
    ensures
        processed(state, chars, inv).entries.len() == state.entries.len(),
        processed(state, chars, inv).entries[i].0 == state.entries[i].0,
        processed(state, chars, inv).entries[i].1.replacement == if is_kept(state.entries[i].1) {
            None
        } else {
            Some(bare_name(state.entries[i].0))
        },
{
    reveal(carries_own_names);
    let len = state.entries.len();
    let done = named_in_turn(state, chars, inv, len);
    lemma_walked_in_turn(state, chars, inv, len);
    lemma_settled_in_turn(state, chars, inv, len);
    assert(walked_once(state, chars, inv) == done);
    assert(walked_once(done, chars, inv) == done);
    lemma_settled_stays(done, chars, inv, len);
    assert(processed(state, chars, inv) == walked_times(done, chars, inv, len));
    if !is_kept(state.entries[i].1) {
        let name = name_in_turn(state, chars, inv, i);
        let sigil = seq![sigil_char(state.entries[i].1.kind.unwrap())];
        assert((sigil + name).subrange(1, (sigil + name).len() as int) =~= name);
    }
}

} // verus!
