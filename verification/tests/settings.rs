use minify_selectors::config::{Cli, ExternalConfig};
use minify_selectors::encode_selector::{
    into_alphabet_set, is_alphabet_usable, is_invalid_char, is_invalid_first_char, to_radix,
};
use minify_selectors::escapes::{digit_of, read_code_point};
use minify_selectors::registry::{Config, ProcessingSteps};
use minify_selectors::text::{
    append_chars, contains, is_space_char, remove_spaces, replace, same_text, slice_of,
    stands_at, starts_with, to_lower, trim, width_of,
};

fn chars(text: &str) -> Vec<char> {
    text.chars().collect()
}

fn cli() -> Cli {
    Cli {
        config: None,
        input: Some("in".to_string()),
        output: Some("out".to_string()),
        start_index: None,
        alphabet: None,
        parallel: None,
        sort: None,
        custom_class_attribute: None,
        custom_id_attribute: None,
        custom_selector_attribute: None,
        custom_anchor_attribute: None,
        custom_style_attribute: None,
        custom_script_attribute: None,
    }
}

#[test]
fn settings_from_a_bare_command_line() {
    let config = Config::new(&cli(), None);
    assert_eq!(config.input, "in");
    assert_eq!(config.output, "out");
    assert_eq!(config.start_index, 0);
    assert!(!config.parallel);
    assert!(config.sort);
    assert_eq!(config.current_step, ProcessingSteps::ReadingFromFiles);
    assert_eq!(config.alphabet, Config::default().alphabet);
    assert!(config.custom_attributes.is_empty());
}

#[test]
fn settings_from_switches() {
    let mut given = cli();
    given.parallel = Some(None);
    given.sort = Some(Some(false));
    given.start_index = Some(7);
    given.alphabet = Some("abc-".to_string());
    given.custom_class_attribute = Some(vec!["data-class".to_string(), "data-c".to_string()]);
    given.custom_script_attribute = Some(vec!["data-run".to_string()]);
    given.custom_id_attribute = Some(vec!["data-id".to_string()]);
    let config = Config::new(&given, None);
    assert!(config.parallel);
    assert!(!config.sort);
    assert_eq!(config.start_index, 7);
    assert_eq!(config.alphabet, (vec!['a', 'b', 'c', '-'], vec![3]));
    assert_eq!(
        config.custom_attributes,
        vec![
            ("data-class".to_string(), "class".to_string()),
            ("data-c".to_string(), "class".to_string()),
            ("data-id".to_string(), "id".to_string()),
            ("data-run".to_string(), "script".to_string()),
        ]
    );
    given.parallel = Some(Some(false));
    given.sort = Some(None);
    let config = Config::new(&given, None);
    assert!(!config.parallel);
    assert!(config.sort);
}

#[test]
fn settings_from_a_file() {
    let mut given = cli();
    given.input = None;
    given.output = None;
    given.config = Some("settings.json".to_string());
    given.start_index = Some(3);
    given.custom_anchor_attribute = Some(vec!["data-link".to_string()]);
    let file = ExternalConfig {
        input: "src".to_string(),
        output: "dist".to_string(),
        alphabet: Some("xyz".to_string()),
        start_index: None,
        parallel: Some(true),
        sort: None,
    };
    let config = Config::new(&given, Some(&file));
    assert_eq!(config.input, "src");
    assert_eq!(config.output, "dist");
    assert_eq!(config.alphabet, (vec!['x', 'y', 'z'], vec![]));
    assert_eq!(config.start_index, 0);
    assert!(config.parallel);
    assert!(config.sort);
    assert_eq!(
        config.custom_attributes,
        vec![("data-link".to_string(), "anchor".to_string())]
    );
}

#[test]
fn encoder_scenarios() {
    let hex = into_alphabet_set("0123456789abcdef");
    assert_eq!(hex.1, vec![0, 1, 2, 3, 4, 5, 6, 7, 8, 9]);
    assert_eq!(to_radix(&0, &hex), "a");
    assert_eq!(to_radix(&5, &hex), "f");
    assert_eq!(to_radix(&6, &hex), "a0");
    assert_eq!(to_radix(&101, &hex), "ff");
    assert_eq!(to_radix(&102, &hex), "a00");
    let base62 = into_alphabet_set("0123456789abcdefghijklmnopqrstuvwxyzABCDEFGHIJKLMNOPQRSTUVWXYZ");
    assert_eq!(to_radix(&51, &base62), "Z");
    assert_eq!(to_radix(&3275, &base62), "ZZ");
    assert_eq!(to_radix(&12_596_219, &base62), "ZZZZ");
}

#[test]
fn encoder_lengths_step_up_at_the_capacities() {
    // s = 2 leading characters of b = 3: 2, 2 + 6, 2 + 6 + 18 names.
    let alphabet = into_alphabet_set("-ab");
    assert_eq!(alphabet, (vec!['-', 'a', 'b'], vec![0]));
    let lengths: Vec<usize> =
        (0..27).map(|n| to_radix(&n, &alphabet).chars().count()).collect();
    let mut expected = vec![1; 2];
    expected.extend(vec![2; 6]);
    expected.extend(vec![3; 18]);
    expected.push(4);
    assert_eq!(lengths, expected);
    assert_eq!(to_radix(&2, &alphabet), "a-");
    assert_eq!(to_radix(&7, &alphabet), "bb");
    assert_eq!(to_radix(&8, &alphabet), "a--");
}

#[test]
fn encoder_names_are_distinct_and_start_well() {
    let alphabet = into_alphabet_set("a0b1_c-");
    assert_eq!(alphabet.1, vec![1, 3, 4, 6]);
    let mut seen = std::collections::HashSet::new();
    for n in 0..2000usize {
        let name = to_radix(&n, &alphabet);
        let first = name.chars().next().unwrap();
        assert!(first == 'a' || first == 'b' || first == 'c');
        assert!(seen.insert(name));
    }
}

#[test]
fn encoder_takes_the_largest_ordinal() {
    let alphabet = into_alphabet_set("ab");
    let name = to_radix(&usize::MAX, &alphabet);
    assert_eq!(name.chars().count(), 64);
    let one = into_alphabet_set("0123456789abcdefghijklmnopqrstuvwxyzABCDEFGHIJKLMNOPQRSTUVWXYZ");
    assert_eq!(to_radix(&usize::MAX, &one).chars().count(), 11);
}

#[test]
fn alphabets() {
    assert_eq!(into_alphabet_set("AaBC"), (vec!['A', 'a', 'B', 'C'], vec![]));
    assert_eq!(
        into_alphabet_set("AABCD123B"),
        (vec!['A', 'B', 'C', 'D', '1', '2', '3'], vec![4, 5, 6])
    );
    assert_eq!(into_alphabet_set(""), (vec![], vec![]));
    assert_eq!(into_alphabet_set("\u{e9}.\u{7f}\u{80}"), (vec!['\u{e9}', '\u{80}'], vec![]));
    assert!(is_alphabet_usable(&into_alphabet_set("a1")));
    assert!(!is_alphabet_usable(&into_alphabet_set("0123-_")));
    assert!(!is_alphabet_usable(&into_alphabet_set("")));
    assert!(is_invalid_char(' '));
    assert!(is_invalid_char('.'));
    assert!(is_invalid_char('@'));
    assert!(is_invalid_char('^'));
    assert!(is_invalid_char('`'));
    assert!(is_invalid_char('~'));
    assert!(!is_invalid_char('-'));
    assert!(!is_invalid_char('_'));
    assert!(!is_invalid_char('Z'));
    assert!(is_invalid_first_char('0'));
    assert!(is_invalid_first_char('-'));
    assert!(is_invalid_first_char('_'));
    assert!(!is_invalid_first_char('a'));
}

#[test]
fn text_helpers() {
    assert_eq!(trim(&chars(" \t a b \u{a0}\n")), chars("a b"));
    assert_eq!(trim(&chars("   ")), chars(""));
    assert_eq!(to_lower(&chars("AbC-\u{c9}z")), chars("abc-\u{c9}z"));
    assert_eq!(remove_spaces(&chars(" a \n b\t")), chars("ab"));
    assert!(is_space_char('\u{3000}'));
    assert!(!is_space_char('x'));
    assert!(starts_with(&chars("<code>"), &chars("<code")));
    assert!(!starts_with(&chars("<cod"), &chars("<code")));
    assert!(stands_at(&chars("abcabc"), &chars("bc"), 4));
    assert!(!stands_at(&chars("abcabc"), &chars("bc"), 5));
    assert!(contains(&chars("a</body>"), &chars("</body>")));
    assert!(!contains(&chars("a</bod"), &chars("</body>")));
    assert!(contains(&chars("abc"), &chars("")));
    assert_eq!(replace(&chars("a\\\\b\\\\"), &chars("\\\\"), &chars("\\")), chars("a\\b\\"));
    assert_eq!(replace(&chars("aaa"), &chars("aa"), &chars("b")), chars("ba"));
    assert_eq!(replace(&chars("abc"), &chars(""), &chars("-")), chars("-a-b-c-"));
    assert_eq!(replace(&chars("abc"), &chars("x"), &chars("y")), chars("abc"));
    assert_eq!(slice_of(&chars("h\u{e9}llo"), 1, 3), "\u{e9}l");
    assert!(same_text("\u{e9}", "\u{e9}"));
    assert!(!same_text("a", "ab"));
    assert_eq!(width_of('a'), 1);
    assert_eq!(width_of('\u{e9}'), 2);
    assert_eq!(width_of('\u{20ac}'), 3);
    assert_eq!(width_of('\u{1f600}'), 4);
    let mut out = chars("ab");
    append_chars(&mut out, &chars("cd"));
    assert_eq!(out, chars("abcd"));
}

#[test]
fn numbers_of_escapes() {
    assert_eq!(digit_of('7'), Some(7));
    assert_eq!(digit_of('f'), Some(15));
    assert_eq!(digit_of('A'), Some(10));
    assert_eq!(digit_of('g'), None);
    assert_eq!(read_code_point(&chars("x41y"), 1, 3, 16), Some('A'));
    assert_eq!(read_code_point(&chars("65"), 0, 2, 10), Some('A'));
    assert_eq!(read_code_point(&chars("6a"), 0, 2, 10), None);
    assert_eq!(read_code_point(&chars("41"), 1, 1, 16), None);
    assert_eq!(read_code_point(&chars("10ffff"), 0, 6, 16), Some('\u{10ffff}'));
    assert_eq!(read_code_point(&chars("110000"), 0, 6, 16), None);
    assert_eq!(read_code_point(&chars("dfff"), 0, 4, 16), None);
    assert_eq!(read_code_point(&chars("ffffffffffffffff"), 0, 16, 16), None);
}
