//! The records kept for each selector and the settings of a run.

use indexmap::IndexMap;
use vstd::prelude::*;

use crate::encode_selector::{alphabet_chars, into_alphabet_set, invalid_first_positions};
use crate::ordered_map::{
    by_frequency, entries_of, map_get_index, map_get_index_of, map_insert, map_len, map_new,
    map_sort_by_frequency, position_of, Entry,
};

verus! {

/// The stage that a run has reached.
#[derive(Clone, Copy, Debug, PartialEq, Eq, Structural)]
pub enum ProcessingSteps {
    ReadingFromFiles,
    EncodingSelectors,
    WritingToFiles,
}

impl Default for ProcessingSteps {
    fn default() -> (step: Self)
        ensures
            step == ProcessingSteps::ReadingFromFiles,
    {
        ProcessingSteps::ReadingFromFiles
    }
}

/// Settings of a run.
#[derive(Debug)]
pub struct Config {
    pub input: String,
    pub output: String,
    pub alphabet: (Vec<char>, Vec<usize>),
    pub start_index: usize,
    pub current_step: ProcessingSteps,
    pub parallel: bool,
    pub sort: bool,
    pub custom_attributes: Vec<(String, String)>,
}

impl Default for Config {
    fn default() -> (config: Self)
        ensures
            config.input@.len() == 0,
            config.output@.len() == 0,
            config.alphabet.0@ == alphabet_chars(
                "0123456789abcdefghijklmnopqrstuvwxyzABCDEFGHIJKLMNOPQRSTUVWXYZ"@,
            ),
            config.alphabet.1@ == invalid_first_positions(config.alphabet.0@),
            config.start_index == 0,
            config.current_step == ProcessingSteps::ReadingFromFiles,
            !config.parallel,
            config.sort,
            config.custom_attributes@.len() == 0,
    {
        Config {
            input: String::new(),
            output: String::new(),
            alphabet: into_alphabet_set(
                "0123456789abcdefghijklmnopqrstuvwxyzABCDEFGHIJKLMNOPQRSTUVWXYZ",
            ),
            start_index: 0,
            current_step: ProcessingSteps::ReadingFromFiles,
            parallel: false,
            sort: true,
            custom_attributes: Vec::new(),
        }
    }
}

impl Clone for Config {
    fn clone(&self) -> (copy: Self)
        ensures
            copy.input@ == self.input@,
            copy.output@ == self.output@,
            copy.alphabet.0@ == self.alphabet.0@,
            copy.alphabet.1@ == self.alphabet.1@,
            copy.start_index == self.start_index,
            copy.current_step == self.current_step,
            copy.parallel == self.parallel,
            copy.sort == self.sort,
            copy.custom_attributes.deep_view() == self.custom_attributes.deep_view(),
    {
        let mut custom_attributes: Vec<(String, String)> = Vec::new();
        let mut i: usize = 0;
        while i < self.custom_attributes.len()
            invariant
                i <= self.custom_attributes@.len(),
                custom_attributes@.len() == i,
                forall|j: int|
                    0 <= j < i ==> custom_attributes@[j].0@ == self.custom_attributes@[j].0@
                        && custom_attributes@[j].1@ == self.custom_attributes@[j].1@,
            decreases self.custom_attributes@.len() - i,
        {
            custom_attributes.push(
                (self.custom_attributes[i].0.clone(), self.custom_attributes[i].1.clone()),
            );
            i = i + 1;
        }
        assert(custom_attributes.deep_view() =~= self.custom_attributes.deep_view());
        Config {
            input: self.input.clone(),
            output: self.output.clone(),
            alphabet: (self.alphabet.0.clone(), self.alphabet.1.clone()),
            start_index: self.start_index,
            current_step: self.current_step,
            parallel: self.parallel,
            sort: self.sort,
            custom_attributes,
        }
    }
}

/// Whether a selector names a class or an id.
#[derive(Clone, Copy, Debug, PartialEq, Eq, Structural)]
pub enum SelectorType {
    Class,
    Id,
}

/// The kind of place in which a selector was met.
#[derive(Clone, Copy, Debug)]
pub enum SelectorUsage {
    MarkupClass,
    MarkupId,
    SelectorString,
    Anchor,
    Style,
    Script,
    Prefix,
}

/// What is known of one selector: its kind, the name it is to be replaced
/// with, and how often it was met in each kind of place.
#[derive(Clone, Debug, Default)]
pub struct Selector {
    pub kind: Option<SelectorType>,
    pub replacement: Option<String>,
    pub counter: u64,
    pub markup_class_counter: u64,
    pub markup_id_counter: u64,
    pub selector_string_counter: u64,
    pub anchor_counter: u64,
    pub style_counter: u64,
    pub script_counter: u64,
    pub prefix_counter: u64,
}

/// A selector record as plain values.
pub struct SelectorView {
    pub kind: Option<SelectorType>,
    pub replacement: Option<Seq<char>>,
    pub counter: u64,
    pub markup_class_counter: u64,
    pub markup_id_counter: u64,
    pub selector_string_counter: u64,
    pub anchor_counter: u64,
    pub style_counter: u64,
    pub script_counter: u64,
    pub prefix_counter: u64,
}

impl View for Selector {
    type V = SelectorView;

    open spec fn view(&self) -> SelectorView {
        SelectorView {
            kind: self.kind,
            replacement: match self.replacement {
                Some(name) => Some(name@),
                None => None,
            },
            counter: self.counter,
            markup_class_counter: self.markup_class_counter,
            markup_id_counter: self.markup_id_counter,
            selector_string_counter: self.selector_string_counter,
            anchor_counter: self.anchor_counter,
            style_counter: self.style_counter,
            script_counter: self.script_counter,
            prefix_counter: self.prefix_counter,
        }
    }
}

/// A tally raised by `by`, held at the largest value it can take.
pub open spec fn raised(tally: u64, by: u64) -> u64 {
    if tally + by > u64::MAX {
        u64::MAX
    } else {
        (tally + by) as u64
    }
}

/// Whether a selector key starts with the sigil of a class or of an id.
pub open spec fn has_sigil(key: Seq<char>) -> bool {
    key.len() > 0 && (key[0] == '.' || key[0] == '#')
}

/// The kind that the sigil of `key` stands for.
pub open spec fn kind_of(key: Seq<char>) -> SelectorType
    recommends
        has_sigil(key),
{
    if key[0] == '.' {
        SelectorType::Class
    } else {
        SelectorType::Id
    }
}

/// The record of a selector of the given kind that has not been met yet.
pub open spec fn unseen(kind: SelectorType) -> SelectorView {
    SelectorView {
        kind: Some(kind),
        replacement: None,
        counter: 0,
        markup_class_counter: 0,
        markup_id_counter: 0,
        selector_string_counter: 0,
        anchor_counter: 0,
        style_counter: 0,
        script_counter: 0,
        prefix_counter: 0,
    }
}

/// The record after one more occurrence in the given kind of place; without
/// a kind of place the record stays as it is.
pub open spec fn counted(record: SelectorView, usage: Option<SelectorUsage>) -> SelectorView {
    match usage {
        None => record,
        Some(place) => {
            let total = SelectorView { counter: raised(record.counter, 1), ..record };
            match place {
                SelectorUsage::MarkupClass => SelectorView {
                    markup_class_counter: raised(record.markup_class_counter, 1),
                    ..total
                },
                SelectorUsage::MarkupId => SelectorView {
                    markup_id_counter: raised(record.markup_id_counter, 1),
                    ..total
                },
                SelectorUsage::SelectorString => SelectorView {
                    selector_string_counter: raised(record.selector_string_counter, 1),
                    ..total
                },
                SelectorUsage::Anchor => SelectorView {
                    anchor_counter: raised(record.anchor_counter, 1),
                    ..total
                },
                SelectorUsage::Style => SelectorView {
                    style_counter: raised(record.style_counter, 1),
                    ..total
                },
                SelectorUsage::Script => SelectorView {
                    script_counter: raised(record.script_counter, 1),
                    ..total
                },
                SelectorUsage::Prefix => SelectorView {
                    prefix_counter: raised(record.prefix_counter, 1),
                    ..total
                },
            }
        },
    }
}

/// The record with the tallies of `incoming` added to its own.
pub open spec fn summed(record: SelectorView, incoming: SelectorView) -> SelectorView {
    SelectorView {
        kind: record.kind,
        replacement: record.replacement,
        counter: raised(record.counter, incoming.counter),
        markup_class_counter: raised(record.markup_class_counter, incoming.markup_class_counter),
        markup_id_counter: raised(record.markup_id_counter, incoming.markup_id_counter),
        selector_string_counter: raised(
            record.selector_string_counter,
            incoming.selector_string_counter,
        ),
        anchor_counter: raised(record.anchor_counter, incoming.anchor_counter),
        style_counter: raised(record.style_counter, incoming.style_counter),
        script_counter: raised(record.script_counter, incoming.script_counter),
        prefix_counter: raised(record.prefix_counter, incoming.prefix_counter),
    }
}

/// The occurrences of a record over all kinds of places.
pub open spec fn breakdown_total(record: SelectorView) -> int {
    record.markup_class_counter + record.markup_id_counter + record.selector_string_counter
        + record.anchor_counter + record.style_counter + record.script_counter
        + record.prefix_counter
}

/// The total of a record agrees with its breakdown: it is their sum, held at
/// the largest value a tally can take.
pub open spec fn balanced(record: SelectorView) -> bool {
    record.counter == if breakdown_total(record) > u64::MAX {
        u64::MAX as int
    } else {
        breakdown_total(record)
    }
}

impl Selector {
    /// A record for `selector` that has not been met yet. The kind follows
    /// the sigil.
    pub fn new(selector: &str) -> (record: Self)
        requires
            has_sigil(selector@),
        ensures
            record@ == unseen(kind_of(selector@)),
    {
        let sigil = selector.get_char(0);
        Selector {
            kind: if sigil == '.' {
                Some(SelectorType::Class)
            } else {
                Some(SelectorType::Id)
            },
            replacement: None,
            counter: 0,
            markup_class_counter: 0,
            markup_id_counter: 0,
            selector_string_counter: 0,
            anchor_counter: 0,
            style_counter: 0,
            script_counter: 0,
            prefix_counter: 0,
        }
    }

    /// Notes one more occurrence in the given kind of place. Tallies stop at
    /// the largest value they can take.
    pub fn count(&mut self, usage: Option<SelectorUsage>)
        ensures
            final(self)@ == counted(old(self)@, usage),
            balanced(old(self)@) ==> balanced(final(self)@),
    {
        match usage {
            None => {},
            Some(place) => {
                self.counter = self.counter.saturating_add(1);
                match place {
                    SelectorUsage::MarkupClass => {
                        self.markup_class_counter = self.markup_class_counter.saturating_add(1);
                    },
                    SelectorUsage::MarkupId => {
                        self.markup_id_counter = self.markup_id_counter.saturating_add(1);
                    },
                    SelectorUsage::SelectorString => {
                        self.selector_string_counter = self.selector_string_counter.saturating_add(
                            1,
                        );
                    },
                    SelectorUsage::Anchor => {
                        self.anchor_counter = self.anchor_counter.saturating_add(1);
                    },
                    SelectorUsage::Style => {
                        self.style_counter = self.style_counter.saturating_add(1);
                    },
                    SelectorUsage::Script => {
                        self.script_counter = self.script_counter.saturating_add(1);
                    },
                    SelectorUsage::Prefix => {
                        self.prefix_counter = self.prefix_counter.saturating_add(1);
                    },
                }
            },
        }
    }

    /// Adds the tallies of `incoming` to those of this record. Tallies stop
    /// at the largest value they can take.
    pub fn sum(&mut self, incoming: Selector)
        ensures
            final(self)@ == summed(old(self)@, incoming@),
            balanced(old(self)@) && balanced(incoming@) ==> balanced(final(self)@),
    {
        self.counter = self.counter.saturating_add(incoming.counter);
        self.markup_class_counter = self.markup_class_counter.saturating_add(
            incoming.markup_class_counter,
        );
        self.markup_id_counter = self.markup_id_counter.saturating_add(incoming.markup_id_counter);
        self.selector_string_counter = self.selector_string_counter.saturating_add(
            incoming.selector_string_counter,
        );
        self.anchor_counter = self.anchor_counter.saturating_add(incoming.anchor_counter);
        self.style_counter = self.style_counter.saturating_add(incoming.style_counter);
        self.script_counter = self.script_counter.saturating_add(incoming.script_counter);
        self.prefix_counter = self.prefix_counter.saturating_add(incoming.prefix_counter);
    }

    /// Sets the name that the selector is to be replaced with.
    pub fn set_replacement(&mut self, replacement: String)
        ensures
            final(self)@ == (SelectorView { replacement: Some(replacement@), ..old(self)@ }),
    {
        self.replacement = Some(replacement);
    }

    /// A copy of this record.
    pub fn duplicate(&self) -> (copy: Selector)
        ensures
            copy@ == self@,
    {
        Selector {
            kind: self.kind,
            replacement: match &self.replacement {
                Some(name) => Some(name.clone()),
                None => None,
            },
            counter: self.counter,
            markup_class_counter: self.markup_class_counter,
            markup_id_counter: self.markup_id_counter,
            selector_string_counter: self.selector_string_counter,
            anchor_counter: self.anchor_counter,
            style_counter: self.style_counter,
            script_counter: self.script_counter,
            prefix_counter: self.prefix_counter,
        }
    }
}

/// The registry of a run: every selector met so far with its record, in a
/// fixed order, and the next ordinal to hand out to a class and to an id.
#[derive(Debug)]
pub struct Selectors {
    pub map: IndexMap<String, Selector>,
    pub class_counter: usize,
    pub id_counter: usize,
}

/// A registry as plain values.
pub struct RegistryView {
    pub entries: Seq<Entry>,
    pub class_counter: usize,
    pub id_counter: usize,
}

impl View for Selectors {
    type V = RegistryView;

    open spec fn view(&self) -> RegistryView {
        RegistryView {
            entries: entries_of(&self.map),
            class_counter: self.class_counter,
            id_counter: self.id_counter,
        }
    }
}

/// No key stands twice among the entries.
pub open spec fn distinct_keys(entries: Seq<Entry>) -> bool {
    forall|i: int, j: int| 0 <= i < j < entries.len() ==> entries[i].0 != entries[j].0
}

/// Every key carries a sigil and every record the kind of its key.
pub open spec fn kinds_agree(entries: Seq<Entry>) -> bool {
    forall|i: int|
        0 <= i < entries.len() ==> has_sigil(#[trigger] entries[i].0) && entries[i].1.kind == Some(
            kind_of(entries[i].0),
        )
}

/// The total of every record agrees with its breakdown.
pub open spec fn all_balanced(entries: Seq<Entry>) -> bool {
    forall|i: int| 0 <= i < entries.len() ==> balanced(#[trigger] entries[i].1)
}

/// The record kept under `key`, if there is one.
pub open spec fn record_of(entries: Seq<Entry>, key: Seq<char>) -> Option<SelectorView> {
    match position_of(entries, key) {
        Some(i) => Some(entries[i].1),
        None => None,
    }
}

/// The entries after `key` has been met once more in the given kind of
/// place.
pub open spec fn added(entries: Seq<Entry>, key: Seq<char>, usage: Option<SelectorUsage>) -> Seq<
    Entry,
> {
    match position_of(entries, key) {
        Some(i) => entries.update(i, (key, counted(entries[i].1, usage))),
        None => entries.push((key, counted(unseen(kind_of(key)), usage))),
    }
}

/// The entries after one entry of another registry has been taken in: its
/// tallies go to the record that the key has here, and a key that is new is
/// taken over with its record.
pub open spec fn absorbed(entries: Seq<Entry>, incoming: Entry) -> Seq<Entry> {
    match position_of(entries, incoming.0) {
        Some(i) => entries.update(i, (incoming.0, summed(entries[i].1, incoming.1))),
        None => entries.push(incoming),
    }
}

/// The entries after all of `incoming` has been taken in, entry by entry.
pub open spec fn merged(entries: Seq<Entry>, incoming: Seq<Entry>) -> Seq<Entry>
    decreases incoming.len(),
{
    if incoming.len() == 0 {
        entries
    } else {
        absorbed(merged(entries, incoming.drop_last()), incoming.last())
    }
}

/// Where `position_of` finds a key, the key stands there and nowhere before;
/// where it finds none, the key stands nowhere.
pub proof fn lemma_position_of(entries: Seq<Entry>, key: Seq<char>)
    ensures
        match position_of(entries, key) {
            Some(i) => 0 <= i < entries.len() && entries[i].0 == key && forall|j: int|
                0 <= j < i ==> entries[j].0 != key,
            None => forall|j: int| 0 <= j < entries.len() ==> entries[j].0 != key,
        },
    decreases entries.len(),
{
    if entries.len() > 0 {
        lemma_position_of(entries.drop_last(), key);
        match position_of(entries.drop_last(), key) {
            Some(i) => {
                assert(entries.drop_last()[i] == entries[i]);
                assert forall|j: int| 0 <= j < i implies entries[j].0 != key by {
                    assert(entries.drop_last()[j] == entries[j]);
                }
            },
            None => {
                assert forall|j: int| 0 <= j < entries.len() - 1 implies entries[j].0 != key by {
                    assert(entries.drop_last()[j] == entries[j]);
                }
            },
        }
    }
}

impl Selectors {
    /// A registry without entries that starts both counts at zero.
    pub fn new() -> (registry: Self)
        ensures
            registry@.entries == Seq::<Entry>::empty(),
            registry@.class_counter == 0,
            registry@.id_counter == 0,
    {
        Selectors { map: map_new(), class_counter: 0, id_counter: 0 }
    }

    /// Notes that `selector` was met: its record is made if there is none,
    /// and the tally of the given kind of place goes up with the total.
    /// Without a kind of place only the record is made.
    pub fn add(&mut self, selector: String, usage: Option<SelectorUsage>)
        requires
            has_sigil(selector@),
        ensures
            final(self)@.entries == added(old(self)@.entries, selector@, usage),
            final(self)@.class_counter == old(self)@.class_counter,
            final(self)@.id_counter == old(self)@.id_counter,
            all_balanced(old(self)@.entries) ==> all_balanced(final(self)@.entries),
            distinct_keys(old(self)@.entries) ==> distinct_keys(final(self)@.entries),
            kinds_agree(old(self)@.entries) ==> kinds_agree(final(self)@.entries),
    {
        proof {
            lemma_position_of(self@.entries, selector@);
        }
        let mut record = match map_get_index_of(&self.map, selector.as_str()) {
            Some(place) => match map_get_index(&self.map, place) {
                Some((_, current)) => current.duplicate(),
                None => Selector::new(selector.as_str()),
            },
            None => Selector::new(selector.as_str()),
        };
        record.count(usage);
        map_insert(&mut self.map, selector, record);
    }

    /// Takes in another registry: tallies of shared selectors are added up,
    /// selectors that are new here are taken over with their records, behind
    /// those already held.
    pub fn merge(&mut self, incoming: Selectors)
        ensures
            final(self)@.entries == merged(old(self)@.entries, incoming@.entries),
            final(self)@.class_counter == old(self)@.class_counter,
            final(self)@.id_counter == old(self)@.id_counter,
            all_balanced(old(self)@.entries) && all_balanced(incoming@.entries) ==> all_balanced(
                final(self)@.entries,
            ),
            distinct_keys(old(self)@.entries) ==> distinct_keys(final(self)@.entries),
            kinds_agree(old(self)@.entries) && kinds_agree(incoming@.entries) ==> kinds_agree(
                final(self)@.entries,
            ),
    {
        let count = map_len(&incoming.map);
        let ghost theirs = incoming@.entries;
        let ghost ours = self@.entries;
        let mut i: usize = 0;
        while i < count
            invariant
                i <= count,
                count == theirs.len(),
                theirs == entries_of(&incoming.map),
                self@.entries == merged(ours, theirs.take(i as int)),
                self.class_counter == old(self).class_counter,
                self.id_counter == old(self).id_counter,
                all_balanced(ours) && all_balanced(theirs) ==> all_balanced(self@.entries),
                distinct_keys(ours) ==> distinct_keys(self@.entries),
                kinds_agree(ours) && kinds_agree(theirs) ==> kinds_agree(self@.entries),
            decreases count - i,
        {
            proof {
                assert(theirs.take(i + 1).drop_last() == theirs.take(i as int));
                assert(theirs.take(i + 1).last() == theirs[i as int]);
                lemma_position_of(self@.entries, theirs[i as int].0);
            }
            match map_get_index(&incoming.map, i) {
                Some((key, record)) => {
                    let mut kept = match map_get_index_of(&self.map, key.as_str()) {
                        Some(place) => match map_get_index(&self.map, place) {
                            Some((_, current)) => {
                                let mut total = current.duplicate();
                                total.sum(record.duplicate());
                                total
                            },
                            None => record.duplicate(),
                        },
                        None => record.duplicate(),
                    };
                    map_insert(&mut self.map, key.clone(), kept);
                },
                None => {},
            }
            i = i + 1;
        }
        assert(theirs.take(count as int) == theirs);
    }

    /// Reorders the entries from the most often met to the least. Entries
    /// that were met equally often keep their order.
    pub fn sort_by_frequency(&mut self)
        ensures
            final(self)@.entries == by_frequency(old(self)@.entries),
            final(self)@.class_counter == old(self)@.class_counter,
            final(self)@.id_counter == old(self)@.id_counter,
    {
        map_sort_by_frequency(&mut self.map);
    }
}

impl Default for Selectors {
    fn default() -> (registry: Self)
        ensures
            registry@.entries == Seq::<Entry>::empty(),
            registry@.class_counter == 0,
            registry@.id_counter == 0,
    {
        Selectors::new()
    }
}

} // verus!
