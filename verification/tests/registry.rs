use minify_selectors::encode_selector::into_alphabet_set;
use minify_selectors::registry::{Config, Selector, SelectorType, SelectorUsage, Selectors};

fn names(selectors: &Selectors) -> Vec<(String, Option<String>)> {
    selectors
        .map
        .iter()
        .map(|(key, record)| (key.clone(), record.replacement.clone()))
        .collect()
}

fn breakdown(record: &Selector) -> u64 {
    record.markup_class_counter
        + record.markup_id_counter
        + record.selector_string_counter
        + record.anchor_counter
        + record.style_counter
        + record.script_counter
        + record.prefix_counter
}

#[test]
fn new_record_follows_the_sigil() {
    assert_eq!(Selector::new(".foo").kind, Some(SelectorType::Class));
    assert_eq!(Selector::new("#foo").kind, Some(SelectorType::Id));
    assert_eq!(Selector::new(".foo").counter, 0);
    assert_eq!(Selector::new(".foo").replacement, None);
}

#[test]
fn count_raises_total_and_place() {
    let mut record = Selector::new(".foo");
    record.count(Some(SelectorUsage::Style));
    record.count(Some(SelectorUsage::Style));
    record.count(Some(SelectorUsage::MarkupClass));
    record.count(Some(SelectorUsage::Anchor));
    record.count(Some(SelectorUsage::Script));
    record.count(Some(SelectorUsage::Prefix));
    record.count(Some(SelectorUsage::MarkupId));
    record.count(Some(SelectorUsage::SelectorString));
    record.count(None);
    assert_eq!(record.counter, 8);
    assert_eq!(record.style_counter, 2);
    assert_eq!(record.markup_class_counter, 1);
    assert_eq!(record.anchor_counter, 1);
    assert_eq!(record.script_counter, 1);
    assert_eq!(record.prefix_counter, 1);
    assert_eq!(record.markup_id_counter, 1);
    assert_eq!(record.selector_string_counter, 1);
    assert_eq!(record.counter, breakdown(&record));
}

#[test]
fn count_stops_at_the_largest_tally() {
    let mut record = Selector::new(".foo");
    record.counter = u64::MAX;
    record.style_counter = u64::MAX;
    record.count(Some(SelectorUsage::Style));
    assert_eq!(record.counter, u64::MAX);
    assert_eq!(record.style_counter, u64::MAX);
}

#[test]
fn sum_adds_every_tally() {
    let mut ours = Selector::new(".foo");
    ours.count(Some(SelectorUsage::Style));
    let mut theirs = Selector::new(".foo");
    theirs.count(Some(SelectorUsage::Style));
    theirs.count(Some(SelectorUsage::Script));
    ours.sum(theirs);
    assert_eq!(ours.counter, 3);
    assert_eq!(ours.style_counter, 2);
    assert_eq!(ours.script_counter, 1);
    assert_eq!(ours.kind, Some(SelectorType::Class));
}

#[test]
fn set_replacement_sets_the_name() {
    let mut record = Selector::new("#foo");
    record.set_replacement("a".to_string());
    assert_eq!(record.replacement, Some("a".to_string()));
    assert_eq!(record.kind, Some(SelectorType::Id));
}

#[test]
fn add_creates_and_counts() {
    let mut selectors = Selectors::new();
    selectors.add(".foo".to_string(), Some(SelectorUsage::Style));
    selectors.add("#bar".to_string(), Some(SelectorUsage::Anchor));
    selectors.add(".foo".to_string(), Some(SelectorUsage::MarkupClass));
    selectors.add(".seen".to_string(), None);
    assert_eq!(selectors.map.len(), 3);
    let foo = selectors.map.get(".foo").unwrap();
    assert_eq!(foo.counter, 2);
    assert_eq!(foo.style_counter, 1);
    assert_eq!(foo.markup_class_counter, 1);
    assert_eq!(selectors.map.get("#bar").unwrap().kind, Some(SelectorType::Id));
    assert_eq!(selectors.map.get(".seen").unwrap().counter, 0);
    let keys: Vec<&String> = selectors.map.keys().collect();
    assert_eq!(keys, vec![".foo", "#bar", ".seen"]);
    for record in selectors.map.values() {
        assert_eq!(record.counter, breakdown(record));
    }
}

#[test]
fn merge_sums_shared_and_adopts_new() {
    let mut ours = Selectors::new();
    ours.add(".foo".to_string(), Some(SelectorUsage::Style));
    ours.add(".bar".to_string(), Some(SelectorUsage::Style));
    let mut theirs = Selectors::new();
    theirs.add(".baz".to_string(), Some(SelectorUsage::Script));
    theirs.add(".foo".to_string(), Some(SelectorUsage::MarkupClass));
    theirs.add(".foo".to_string(), Some(SelectorUsage::MarkupClass));
    ours.merge(theirs);
    let keys: Vec<&String> = ours.map.keys().collect();
    assert_eq!(keys, vec![".foo", ".bar", ".baz"]);
    let foo = ours.map.get(".foo").unwrap();
    assert_eq!(foo.counter, 3);
    assert_eq!(foo.style_counter, 1);
    assert_eq!(foo.markup_class_counter, 2);
    assert_eq!(ours.map.get(".baz").unwrap().script_counter, 1);
}

fn sample(keys: &[(&str, u64)]) -> Selectors {
    let mut selectors = Selectors::new();
    for (key, times) in keys {
        for _ in 0..*times {
            selectors.add(key.to_string(), Some(SelectorUsage::Style));
        }
    }
    selectors
}

fn tallies(selectors: &Selectors) -> Vec<(String, u64)> {
    let mut all: Vec<(String, u64)> = selectors
        .map
        .iter()
        .map(|(key, record)| (key.clone(), record.counter))
        .collect();
    all.sort();
    all
}

#[test]
fn merge_commutes_over_the_tallies() {
    let mut left = sample(&[(".a", 2), (".b", 1)]);
    left.merge(sample(&[(".b", 4), (".c", 3)]));
    let mut right = sample(&[(".b", 4), (".c", 3)]);
    right.merge(sample(&[(".a", 2), (".b", 1)]));
    assert_eq!(tallies(&left), tallies(&right));
    assert_eq!(
        tallies(&left),
        vec![(".a".to_string(), 2), (".b".to_string(), 5), (".c".to_string(), 3)]
    );
}

#[test]
fn merge_associates() {
    let mut left = sample(&[(".a", 1)]);
    left.merge(sample(&[(".b", 2), (".a", 1)]));
    left.merge(sample(&[(".c", 3), (".b", 1)]));
    let mut inner = sample(&[(".b", 2), (".a", 1)]);
    inner.merge(sample(&[(".c", 3), (".b", 1)]));
    let mut right = sample(&[(".a", 1)]);
    right.merge(inner);
    assert_eq!(tallies(&left), tallies(&right));
    let order: Vec<&String> = left.map.keys().collect();
    let other: Vec<&String> = right.map.keys().collect();
    assert_eq!(order, other);
}

#[test]
fn sort_by_frequency_is_stable() {
    let mut selectors = sample(&[(".one", 1), (".three", 3), (".uno", 1), (".tres", 3), (".two", 2)]);
    selectors.sort_by_frequency();
    let keys: Vec<&String> = selectors.map.keys().collect();
    assert_eq!(keys, vec![".three", ".tres", ".two", ".one", ".uno"]);
}

fn base62() -> Config {
    Config::default()
}

#[test]
fn default_config_has_the_base62_alphabet() {
    let config = Config::default();
    assert_eq!(config.alphabet.0.len(), 62);
    assert_eq!(config.alphabet.1, vec![0, 1, 2, 3, 4, 5, 6, 7, 8, 9]);
    assert_eq!(config.start_index, 0);
    assert!(config.sort);
    assert!(!config.parallel);
    assert!(config.custom_attributes.is_empty());
    let copy = config.clone();
    assert_eq!(copy.alphabet, config.alphabet);
}

#[test]
fn process_counts_classes_and_ids_apart() {
    let mut selectors = Selectors::new();
    selectors.add(".foo".to_string(), Some(SelectorUsage::Style));
    selectors.add(".bar".to_string(), Some(SelectorUsage::Style));
    selectors.add("#baz".to_string(), Some(SelectorUsage::Style));
    let mut config = base62();
    selectors.process(&mut config);
    assert_eq!(
        names(&selectors),
        vec![
            (".foo".to_string(), Some("a".to_string())),
            (".bar".to_string(), Some("b".to_string())),
            ("#baz".to_string(), Some("a".to_string())),
        ]
    );
    assert_eq!(selectors.class_counter, 2);
    assert_eq!(selectors.id_counter, 1);
}

#[test]
fn process_starts_at_the_counts() {
    let mut selectors = Selectors::new();
    selectors.class_counter = 52;
    selectors.id_counter = 51;
    selectors.add(".foo".to_string(), Some(SelectorUsage::Style));
    selectors.add("#baz".to_string(), Some(SelectorUsage::Style));
    let mut config = base62();
    selectors.process(&mut config);
    assert_eq!(selectors.map.get(".foo").unwrap().replacement, Some("a0".to_string()));
    assert_eq!(selectors.map.get("#baz").unwrap().replacement, Some("Z".to_string()));
}

#[test]
fn process_holds_back_markup_only_classes() {
    let mut selectors = Selectors::new();
    selectors.add(".only-in-markup".to_string(), Some(SelectorUsage::MarkupClass));
    selectors.add(".styled".to_string(), Some(SelectorUsage::Style));
    selectors.add("#only-in-markup".to_string(), Some(SelectorUsage::MarkupId));
    let mut config = base62();
    selectors.process(&mut config);
    assert_eq!(selectors.map.get(".only-in-markup").unwrap().replacement, None);
    assert_eq!(selectors.map.get(".styled").unwrap().replacement, Some("a".to_string()));
    assert_eq!(selectors.map.get("#only-in-markup").unwrap().replacement, Some("a".to_string()));
}

#[test]
fn process_names_a_held_back_class_that_collides() {
    // `.a` is met in markup only, but `a` is the name that `.styled` gets.
    let mut selectors = Selectors::new();
    selectors.add(".a".to_string(), Some(SelectorUsage::MarkupClass));
    selectors.add(".b".to_string(), Some(SelectorUsage::MarkupClass));
    selectors.add(".c".to_string(), Some(SelectorUsage::MarkupClass));
    selectors.add(".styled".to_string(), Some(SelectorUsage::Style));
    let mut config = base62();
    selectors.process(&mut config);
    // `.styled` -> a; then `.a` collides and gets b; then `.b` collides and
    // gets c; then `.c` collides and gets d.
    assert_eq!(
        names(&selectors),
        vec![
            (".a".to_string(), Some("b".to_string())),
            (".b".to_string(), Some("c".to_string())),
            (".c".to_string(), Some("d".to_string())),
            (".styled".to_string(), Some("a".to_string())),
        ]
    );
    let mut given: Vec<String> = selectors
        .map
        .values()
        .filter_map(|record| record.replacement.clone())
        .collect();
    given.sort();
    given.dedup();
    assert_eq!(given.len(), 4);
}

#[test]
fn process_leaves_no_skipped_name_among_the_given() {
    let mut selectors = Selectors::new();
    selectors.add(".x".to_string(), Some(SelectorUsage::Style));
    selectors.add(".keep".to_string(), Some(SelectorUsage::MarkupClass));
    selectors.add(".b".to_string(), Some(SelectorUsage::MarkupClass));
    selectors.add(".y".to_string(), Some(SelectorUsage::Style));
    let mut config = base62();
    selectors.process(&mut config);
    let given: Vec<String> = selectors
        .map
        .values()
        .filter(|record| record.kind == Some(SelectorType::Class))
        .filter_map(|record| record.replacement.clone())
        .collect();
    for (key, record) in selectors.map.iter() {
        if record.replacement.is_none() {
            assert!(!given.contains(&key[1..].to_string()));
            assert_eq!(record.markup_class_counter, record.counter);
        }
    }
    assert_eq!(selectors.map.get(".keep").unwrap().replacement, None);
    assert_eq!(selectors.map.get(".x").unwrap().replacement, Some("a".to_string()));
    assert_eq!(selectors.map.get(".y").unwrap().replacement, Some("b".to_string()));
    assert_eq!(selectors.map.get(".b").unwrap().replacement, Some("c".to_string()));
}

#[test]
fn has_issued_finds_class_names_only() {
    let mut selectors = Selectors::new();
    selectors.add(".foo".to_string(), Some(SelectorUsage::Style));
    selectors.add("#one".to_string(), Some(SelectorUsage::Style));
    selectors.add("#two".to_string(), Some(SelectorUsage::Style));
    let mut config = base62();
    selectors.process(&mut config);
    assert!(selectors.has_issued(&"a".to_string()));
    assert!(!selectors.has_issued(&"b".to_string()));
}

#[test]
fn alphabet_of_two_letters() {
    let alphabet = into_alphabet_set("ab");
    assert_eq!(alphabet, (vec!['a', 'b'], vec![]));
}

#[test]
fn process_starts_at_the_first_ordinal_of_the_settings() {
    let mut selectors = Selectors::new();
    selectors.add(".foo".to_string(), Some(SelectorUsage::Style));
    selectors.add("#bar".to_string(), Some(SelectorUsage::Style));
    selectors.add(".baz".to_string(), Some(SelectorUsage::Style));
    let mut config = Config::default();
    config.start_index = 5;
    assert!(selectors.can_process(&config));
    selectors.process(&mut config);
    assert_eq!(selectors.map.get(".foo").unwrap().replacement, Some("f".to_string()));
    assert_eq!(selectors.map.get("#bar").unwrap().replacement, Some("f".to_string()));
    assert_eq!(selectors.map.get(".baz").unwrap().replacement, Some("g".to_string()));
    assert_eq!(selectors.class_counter, 7);
    assert_eq!(selectors.id_counter, 6);
    assert_eq!(config.start_index, 5);
}

#[test]
fn process_keeps_a_count_that_lies_beyond_the_first_ordinal() {
    let mut selectors = Selectors::new();
    selectors.class_counter = 52;
    selectors.add(".foo".to_string(), Some(SelectorUsage::Style));
    selectors.add("#bar".to_string(), Some(SelectorUsage::Style));
    let mut config = Config::default();
    config.start_index = 5;
    selectors.process(&mut config);
    assert_eq!(selectors.map.get(".foo").unwrap().replacement, Some("a0".to_string()));
    assert_eq!(selectors.map.get("#bar").unwrap().replacement, Some("f".to_string()));
}

#[test]
fn process_can_be_called_again() {
    let mut selectors = Selectors::new();
    selectors.add(".foo".to_string(), Some(SelectorUsage::Style));
    let mut config = Config::default();
    selectors.process(&mut config);
    selectors.add(".bar".to_string(), Some(SelectorUsage::Style));
    assert!(selectors.can_process(&config));
    selectors.process(&mut config);
    assert_eq!(selectors.map.get(".foo").unwrap().replacement, Some("a".to_string()));
    assert_eq!(selectors.map.get(".bar").unwrap().replacement, Some("b".to_string()));
}

#[test]
fn can_process_tells_what_stands_in_the_way() {
    let config = Config::default();
    let mut selectors = Selectors::new();
    selectors.add(".foo".to_string(), Some(SelectorUsage::Style));
    assert!(selectors.can_process(&config));

    let mut digits = Config::default();
    digits.alphabet = into_alphabet_set("0123");
    assert!(!selectors.can_process(&digits));

    let mut late = Config::default();
    late.start_index = usize::MAX;
    assert!(!selectors.can_process(&late));
    selectors.map.get_mut(".foo").unwrap().set_replacement("x".to_string());
    assert!(selectors.can_process(&late));

    let mut full = Selectors::new();
    full.add("#bar".to_string(), Some(SelectorUsage::Style));
    full.id_counter = usize::MAX;
    assert!(!full.can_process(&config));
    full.id_counter = usize::MAX - 1;
    assert!(full.can_process(&config));

    let mut wrong = Selectors::new();
    wrong.add(".foo".to_string(), Some(SelectorUsage::Style));
    wrong.map.get_mut(".foo").unwrap().kind = Some(SelectorType::Id);
    assert!(!wrong.can_process(&config));
    wrong.map.get_mut(".foo").unwrap().kind = None;
    assert!(!wrong.can_process(&config));
    let mut bare = Selectors::new();
    bare.map.insert("foo".to_string(), Selector::new(".foo"));
    assert!(!bare.can_process(&config));
    let mut empty = Selectors::new();
    empty.map.insert(String::new(), Selector::new(".foo"));
    assert!(!empty.can_process(&config));
}
