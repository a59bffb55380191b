//! Handing out the short names.
//!
//! The entries are walked in their order and each gets the name of the next
//! ordinal of its kind. A class that was met in markup `class` attributes
//! only is held back, since renaming it would gain nothing, unless its own
//! name has been handed out to another class. Handing out names can make a
//! held-back class collide later, so the walk is repeated until one walk
//! names nothing.

use vstd::prelude::*;

use crate::encode_selector::{alphabet_usable, is_alphabet_usable, radix_name, to_radix};
use crate::ordered_map::{map_get_index, map_insert, map_len, Entry};
use crate::registry::{
    kinds_agree, Config, RegistryView, SelectorType, SelectorView, Selectors,
};

verus! {

/// A key without its sigil.
pub open spec fn bare_name(key: Seq<char>) -> Seq<char> {
    key.subrange(1, key.len() as int)
}

/// Whether `name` has been handed out to a class.
pub open spec fn is_issued(entries: Seq<Entry>, name: Seq<char>) -> bool {
    exists|j: int|
        0 <= j < entries.len() && (#[trigger] entries[j]).1.kind == Some(SelectorType::Class)
            && entries[j].1.replacement == Some(name)
}

/// Whether a record was met in markup `class` attributes and nowhere else.
pub open spec fn markup_only(record: SelectorView) -> bool {
    record.markup_class_counter == record.counter
}

/// Whether the entry at `i` is to stay without a new name: a class met in
/// markup only whose own name no class has been given.
pub open spec fn held_back(entries: Seq<Entry>, i: int) -> bool {
    entries[i].1.kind == Some(SelectorType::Class) && markup_only(entries[i].1) && !is_issued(
        entries,
        bare_name(entries[i].0),
    )
}

/// The registry after the entry at `i` has had its turn: an entry without a
/// name that is not held back gets the name of the next ordinal of its kind.
pub open spec fn named_at(state: RegistryView, chars: Seq<char>, inv: Seq<usize>, i: int) -> RegistryView {
    let key = state.entries[i].0;
    let record = state.entries[i].1;
    if record.replacement is Some || held_back(state.entries, i) {
        state
    } else {
        match record.kind {
            Some(SelectorType::Class) => RegistryView {
                entries: state.entries.update(
                    i,
                    (
                        key,
                        SelectorView {
                            replacement: Some(radix_name(state.class_counter as nat, chars, inv)),
                            ..record
                        },
                    ),
                ),
                class_counter: (state.class_counter + 1) as usize,
                id_counter: state.id_counter,
            },
            Some(SelectorType::Id) => RegistryView {
                entries: state.entries.update(
                    i,
                    (
                        key,
                        SelectorView {
                            replacement: Some(radix_name(state.id_counter as nat, chars, inv)),
                            ..record
                        },
                    ),
                ),
                class_counter: state.class_counter,
                id_counter: (state.id_counter + 1) as usize,
            },
            None => state,
        }
    }
}

/// The registry after the first `upto` entries have had their turn.
pub open spec fn walked(state: RegistryView, chars: Seq<char>, inv: Seq<usize>, upto: nat) -> RegistryView
    decreases upto,
{
    if upto == 0 {
        state
    } else {
        named_at(walked(state, chars, inv, (upto - 1) as nat), chars, inv, upto - 1)
    }
}

/// The registry after one walk over all entries.
pub open spec fn walked_once(state: RegistryView, chars: Seq<char>, inv: Seq<usize>) -> RegistryView {
    walked(state, chars, inv, state.entries.len())
}

/// The registry after `walks` walks.
pub open spec fn walked_times(state: RegistryView, chars: Seq<char>, inv: Seq<usize>, walks: nat) -> RegistryView
    decreases walks,
{
    if walks == 0 {
        state
    } else {
        walked_times(walked_once(state, chars, inv), chars, inv, (walks - 1) as nat)
    }
}

/// The registry with its names handed out. One walk more than there are
/// entries is always enough for a walk that names nothing.
pub open spec fn processed(state: RegistryView, chars: Seq<char>, inv: Seq<usize>) -> RegistryView {
    walked_times(state, chars, inv, state.entries.len() + 1)
}

/// The registry with each count raised to the first ordinal of a run, where
/// it lies below.
pub open spec fn started(registry: RegistryView, start: usize) -> RegistryView {
    RegistryView {
        entries: registry.entries,
        class_counter: if registry.class_counter < start {
            start
        } else {
            registry.class_counter
        },
        id_counter: if registry.id_counter < start {
            start
        } else {
            registry.id_counter
        },
    }
}

/// Whether names can be handed out from the ordinal `start` on: every
/// record has the kind of its key, and no count passes the largest ordinal
/// before every entry without a name has one.
pub open spec fn ready_for_names(registry: RegistryView, start: usize) -> bool {
    &&& kinds_agree(registry.entries)
    &&& started(registry, start).class_counter + unnamed(registry.entries) <= usize::MAX
    &&& started(registry, start).id_counter + unnamed(registry.entries) <= usize::MAX
}

/// The number of entries without a new name.
pub open spec fn unnamed(entries: Seq<Entry>) -> nat
    decreases entries.len(),
{
    if entries.len() == 0 {
        0
    } else {
        unnamed(entries.drop_last()) + if entries.last().1.replacement is None {
            1nat
        } else {
            0nat
        }
    }
}

/// No more entries are without a name than there are entries.
pub proof fn lemma_unnamed_bound(entries: Seq<Entry>)
    ensures
        unnamed(entries) <= entries.len(),
    decreases entries.len(),
{
    if entries.len() > 0 {
        lemma_unnamed_bound(entries.drop_last());
    }
}

/// Giving a name to an entry that had none leaves one entry less without.
pub proof fn lemma_unnamed_after_naming(entries: Seq<Entry>, i: int, entry: Entry)
    requires
        0 <= i < entries.len(),
        entries[i].1.replacement is None,
        entry.1.replacement is Some,
    ensures
        unnamed(entries.update(i, entry)) + 1 == unnamed(entries),
    decreases entries.len(),
{
    let after = entries.update(i, entry);
    if i == entries.len() - 1 {
        assert(after.drop_last() == entries.drop_last());
    } else {
        assert(after.drop_last() == entries.drop_last().update(i, entry));
        lemma_unnamed_after_naming(entries.drop_last(), i, entry);
    }
}

/// One turn names at most one entry, and changes the registry only by
/// naming one.
pub proof fn lemma_turn(state: RegistryView, chars: Seq<char>, inv: Seq<usize>, i: int)
    requires
        0 <= i < state.entries.len(),
    ensures
        named_at(state, chars, inv, i).entries.len() == state.entries.len(),
        named_at(state, chars, inv, i) == state || unnamed(
            named_at(state, chars, inv, i).entries,
        ) + 1 == unnamed(state.entries),
        forall|j: int|
            0 <= j < state.entries.len() && j != i ==> named_at(state, chars, inv, i).entries[j]
                == state.entries[j],
        named_at(state, chars, inv, i).entries[i].0 == state.entries[i].0,
{
    let next = named_at(state, chars, inv, i);
    if next != state {
        lemma_unnamed_after_naming(state.entries, i, next.entries[i]);
    }
}

/// A walk never leaves more entries without a name, and leaves as many only
/// where it changed nothing.
pub proof fn lemma_walk(state: RegistryView, chars: Seq<char>, inv: Seq<usize>, upto: nat)
    requires
        upto <= state.entries.len(),
    ensures
        walked(state, chars, inv, upto).entries.len() == state.entries.len(),
        unnamed(walked(state, chars, inv, upto).entries) <= unnamed(state.entries),
        unnamed(walked(state, chars, inv, upto).entries) == unnamed(state.entries) ==> walked(
            state,
            chars,
            inv,
            upto,
        ) == state,
        forall|j: int|
            upto <= j < state.entries.len() ==> walked(state, chars, inv, upto).entries[j]
                == state.entries[j],
        forall|j: int|
            0 <= j < state.entries.len() ==> walked(state, chars, inv, upto).entries[j].0
                == state.entries[j].0,
    decreases upto,
{
    if upto > 0 {
        lemma_walk(state, chars, inv, (upto - 1) as nat);
        lemma_turn(walked(state, chars, inv, (upto - 1) as nat), chars, inv, upto - 1);
    }
}

/// Once a walk names nothing, no later walk does.
pub proof fn lemma_settled_stays(state: RegistryView, chars: Seq<char>, inv: Seq<usize>, walks: nat)
    requires
        walked_once(state, chars, inv) == state,
    ensures
        walked_times(state, chars, inv, walks) == state,
    decreases walks,
{
    if walks > 0 {
        lemma_settled_stays(state, chars, inv, (walks - 1) as nat);
    }
}

/// With more walks than entries without a name, the last walk names nothing.
pub proof fn lemma_walks_settle(state: RegistryView, chars: Seq<char>, inv: Seq<usize>, walks: nat)
    requires
        unnamed(state.entries) < walks,
    ensures
        walked_once(walked_times(state, chars, inv, walks), chars, inv) == walked_times(
            state,
            chars,
            inv,
            walks,
        ),
        walked_times(state, chars, inv, walks).entries.len() == state.entries.len(),
    decreases walks,
{
    let next = walked_once(state, chars, inv);
    lemma_walk(state, chars, inv, state.entries.len());
    if next == state {
        lemma_settled_stays(state, chars, inv, walks);
    } else {
        lemma_walks_settle(next, chars, inv, (walks - 1) as nat);
    }
}

impl Selectors {
    /// Tells whether `name` is the new name of a class.
    pub fn has_issued(&self, name: &String) -> (issued: bool)
        ensures
            issued == is_issued(self@.entries, name@),
    {
        let count = map_len(&self.map);
        let mut j: usize = 0;
        while j < count
            invariant
                j <= count,
                count == self@.entries.len(),
                !is_issued(self@.entries.take(j as int), name@),
            decreases count - j,
        {
            let ghost entries = self@.entries;
            match map_get_index(&self.map, j) {
                Some((_, record)) => {
                    let found = match record.kind {
                        Some(SelectorType::Class) => match &record.replacement {
                            Some(given) => *given == *name,
                            None => false,
                        },
                        _ => false,
                    };
                    if found {
                        assert(entries[j as int].1.replacement == Some(name@));
                        return true;
                    }
                },
                None => {},
            }
            proof {
                let before = entries.take(j as int);
                let after = entries.take(j + 1);
                if is_issued(after, name@) {
                    let k = choose|k: int|
                        0 <= k < after.len() && (#[trigger] after[k]).1.kind == Some(
                            SelectorType::Class,
                        ) && after[k].1.replacement == Some(name@);
                    if k < j {
                        assert(before[k] == after[k]);
                    }
                }
            }
            j = j + 1;
        }
        assert(self@.entries.take(count as int) == self@.entries);
        false
    }

    /// Tells whether the names can be handed out: the alphabet has a
    /// character that may lead a name, every record has the kind of its
    /// key, and the ordinals from the first one on suffice for the entries
    /// without a name.
    pub fn can_process(&self, config: &Config) -> (ok: bool)
        ensures
            ok == (alphabet_usable(config.alphabet) && ready_for_names(
                self@,
                config.start_index,
            )),
    {
        if !is_alphabet_usable(&config.alphabet) {
            return false;
        }
        let ghost entries = self@.entries;
        let count = map_len(&self.map);
        let mut without: usize = 0;
        let mut i: usize = 0;
        assert(entries.take(0) =~= Seq::<Entry>::empty());
        while i < count
            invariant
                entries == self@.entries,
                count == entries.len(),
                i <= count,
                without <= i,
                without == unnamed(entries.take(i as int)),
                kinds_agree(entries.take(i as int)),
            decreases count - i,
        {
            let ghost upto = entries.take(i + 1);
            assert(upto.drop_last() == entries.take(i as int));
            assert(upto.last() == entries[i as int]);
            match map_get_index(&self.map, i) {
                Some((key, record)) => {
                    let agrees = if key.as_str().is_empty() {
                        false
                    } else {
                        let sigil = key.as_str().get_char(0);
                        match record.kind {
                            Some(SelectorType::Class) => sigil == '.',
                            Some(SelectorType::Id) => sigil == '#',
                            None => false,
                        }
                    };
                    if !agrees {
                        assert(!has_sigil_and_kind(entries, i as int));
                        return false;
                    }
                    if record.replacement.is_none() {
                        without = without + 1;
                    }
                    assert forall|j: int| 0 <= j < upto.len() implies has_sigil_and_kind(
                        upto,
                        j,
                    ) by {
                        if j < i {
                            assert(has_sigil_and_kind(entries.take(i as int), j));
                        }
                    }
                },
                None => {},
            }
            i = i + 1;
        }
        assert(entries.take(count as int) == entries);
        let class_from = if self.class_counter < config.start_index {
            config.start_index
        } else {
            self.class_counter
        };
        let id_from = if self.id_counter < config.start_index {
            config.start_index
        } else {
            self.id_counter
        };
        class_from <= usize::MAX - without && id_from <= usize::MAX - without
    }

    /// Hands out the names: walks over the entries, in their order, until a
    /// walk names nothing. A count that lies below the first ordinal of the
    /// settings starts there. The entries keep their order and their
    /// tallies, and the two counts end behind the last ordinal handed out.
    pub fn process(&mut self, config: &mut Config)
        requires
            alphabet_usable(old(config).alphabet),
            ready_for_names(old(self)@, old(config).start_index),
        ensures
            final(self)@ == processed(
                started(old(self)@, old(config).start_index),
                old(config).alphabet.0@,
                old(config).alphabet.1@,
            ),
            final(self)@ == walked_once(
                final(self)@,
                old(config).alphabet.0@,
                old(config).alphabet.1@,
            ),
            ready_for_names(final(self)@, old(config).start_index),
            *final(config) == *old(config),
    {
        let ghost chars = config.alphabet.0@;
        let ghost inv = config.alphabet.1@;
        if self.class_counter < config.start_index {
            self.class_counter = config.start_index;
        }
        if self.id_counter < config.start_index {
            self.id_counter = config.start_index;
        }
        let ghost first = self@;
        assert(first == started(old(self)@, config.start_index));
        let count = map_len(&self.map);
        let ghost mut budget: nat = (count + 1) as nat;
        proof {
            lemma_unnamed_bound(first.entries);
        }
        loop
            invariant
                *config == *old(config),
                chars == config.alphabet.0@,
                inv == config.alphabet.1@,
                alphabet_usable(config.alphabet),
                count == self@.entries.len(),
                count == first.entries.len(),
                kinds_agree(self@.entries),
                processed(first, chars, inv) == walked_times(self@, chars, inv, budget),
                unnamed(self@.entries) < budget,
                self@.class_counter >= config.start_index,
                self@.id_counter >= config.start_index,
                self@.class_counter + unnamed(self@.entries) <= usize::MAX,
                self@.id_counter + unnamed(self@.entries) <= usize::MAX,
            ensures
                self@ == processed(first, chars, inv),
                walked_once(self@, chars, inv) == self@,
                kinds_agree(self@.entries),
                self@.class_counter >= config.start_index,
                self@.id_counter >= config.start_index,
                self@.class_counter + unnamed(self@.entries) <= usize::MAX,
                self@.id_counter + unnamed(self@.entries) <= usize::MAX,
                *config == *old(config),
            decreases unnamed(self@.entries),
        {
            let ghost start = self@;
            let mut changed = false;
            let mut i: usize = 0;
            while i < count
                invariant
                    *config == *old(config),
                    chars == config.alphabet.0@,
                    inv == config.alphabet.1@,
                    alphabet_usable(config.alphabet),
                    i <= count,
                    count == start.entries.len(),
                    count == self@.entries.len(),
                    kinds_agree(self@.entries),
                    self@ == walked(start, chars, inv, i as nat),
                    changed <==> self@ != start,
                    self@.class_counter >= config.start_index,
                    self@.id_counter >= config.start_index,
                    self@.class_counter + unnamed(self@.entries) <= usize::MAX,
                    self@.id_counter + unnamed(self@.entries) <= usize::MAX,
                decreases count - i,
            {
                let ghost now = self@;
                proof {
                    lemma_turn(now, chars, inv, i as int);
                    lemma_walk(start, chars, inv, i as nat);
                    lemma_walk(start, chars, inv, (i + 1) as nat);
                }
                let turn = match map_get_index(&self.map, i) {
                    Some((key, record)) => {
                        if record.replacement.is_none() {
                            let hold = match record.kind {
                                Some(SelectorType::Class) => {
                                    if record.markup_class_counter == record.counter {
                                        let length = key.as_str().unicode_len();
                                        let bare = key.as_str().substring_char(1, length).to_owned();
                                        !self.has_issued(&bare)
                                    } else {
                                        false
                                    }
                                },
                                _ => false,
                            };
                            if hold {
                                None
                            } else {
                                let mut renamed = record.duplicate();
                                match record.kind {
                                    Some(SelectorType::Class) => {
                                        renamed.set_replacement(
                                            to_radix(&self.class_counter, &config.alphabet),
                                        );
                                        Some((key.clone(), renamed, true))
                                    },
                                    Some(SelectorType::Id) => {
                                        renamed.set_replacement(
                                            to_radix(&self.id_counter, &config.alphabet),
                                        );
                                        Some((key.clone(), renamed, false))
                                    },
                                    None => None,
                                }
                            }
                        } else {
                            None
                        }
                    },
                    None => None,
                };
                match turn {
                    Some((key, renamed, class)) => {
                        proof {
                            lemma_unnamed_after_naming(
                                now.entries,
                                i as int,
                                (key@, renamed@),
                            );
                        }
                        map_insert(&mut self.map, key, renamed);
                        if class {
                            self.class_counter = self.class_counter + 1;
                        } else {
                            self.id_counter = self.id_counter + 1;
                        }
                        changed = true;
                        assert(self@ == named_at(now, chars, inv, i as int));
                        assert(self@.entries[i as int] != start.entries[i as int]);
                        assert forall|j: int| 0 <= j < self@.entries.len() implies has_sigil_and_kind(
                            self@.entries,
                            j,
                        ) by {
                            assert(has_sigil_and_kind(now.entries, j));
                        }
                    },
                    None => {
                        assert(self@ == named_at(now, chars, inv, i as int));
                    },
                }
                i = i + 1;
            }
            proof {
                lemma_walk(start, chars, inv, count as nat);
            }
            if !changed {
                proof {
                    lemma_settled_stays(start, chars, inv, budget);
                }
                break ;
            }
            proof {
                budget = (budget - 1) as nat;
            }
        }
    }
}

/// The key at `j` carries a sigil and its record the kind of the key.
pub open spec fn has_sigil_and_kind(entries: Seq<Entry>, j: int) -> bool {
    crate::registry::has_sigil(entries[j].0) && entries[j].1.kind == Some(
        crate::registry::kind_of(entries[j].0),
    )
}

} // verus!
