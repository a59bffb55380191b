//! Selectors in style sheets.

use vstd::prelude::*;

use crate::escapes::{code_point, digit_of, digit_value, read_code_point};
use crate::html_attributes::{designation, Designation, Whitelist};
use crate::occurrences::{
    gathered, get_encoded_selector, note_selector, noted_in, occurrence, replacement_of,
    Occurrence,
};
use crate::ordered_map::Entry;
use crate::parse_selectors::{
    analyse_anchor_links, analyse_prefixed_selectors, analyse_string_of_tokens,
    anchor_occurrences, anchors_rewritten, group, group_of, joined, lemma_noted_step,
    prefixed_occurrences, prefixed_rewritten, rewrite_anchor_links, rewrite_prefixed_selectors,
    rewrite_string_of_tokens, token_occurrences, tokens_rewritten,
};
use crate::regexes::{CSS_ATTRIBUTES, CSS_FUNCTIONS, CSS_SELECTORS, ESCAPED_CSS_CHARS};
use crate::registry::{SelectorUsage, Selectors};
use crate::scan::{captures_of, find_all, splice, spliced, Capture, CaptureView};
use crate::text::{chars_of, string_of};

verus! {

/// The place behind the digits that start at `i` in `text`.
pub open spec fn digits_end(text: Seq<char>, i: int) -> int
    decreases text.len() - i,
{
    if 0 <= i < text.len() && digit_value(text[i]) is Some {
        digits_end(text, i + 1)
    } else {
        i
    }
}

/// Finds the place behind the digits that start at `i` in `text`.
pub fn end_of_digits(text: &Vec<char>, i: usize) -> (end: usize)
    requires
        i <= text@.len(),
    ensures
        end == digits_end(text@, i as int),
        i <= end <= text@.len(),
{
    let mut end: usize = i;
    while end < text.len() && digit_of(text[end]).is_some()
        invariant
            i <= end <= text@.len(),
            digits_end(text@, i as int) == digits_end(text@, end as int),
        decreases text@.len() - end,
    {
        end = end + 1;
    }
    end
}

/// The string that holds `c` alone.
pub fn single(c: char) -> (s: String)
    ensures
        s@ == seq![c],
{
    let mut chars: Vec<char> = Vec::new();
    chars.push(c);
    string_of(&chars)
}

/// The text that a match stands for as a whole.
pub open spec fn whole_of(capture: CaptureView) -> Seq<char> {
    match capture.at(0) {
        Some(whole) => whole,
        None => Seq::empty(),
    }
}

/// Copies the text that a match stands for as a whole.
pub fn whole_match(capture: &Capture) -> (whole: String)
    ensures
        whole@ == whole_of(capture@),
{
    match capture.at(0) {
        Some(whole) => whole.clone(),
        None => String::new(),
    }
}

/// What an escape in a style sheet stands for: the character with the code
/// point written behind the backslash, or the character behind the
/// backslash. An escape whose number is no code point stays as it is.
pub open spec fn css_escape_value(capture: CaptureView) -> Seq<char> {
    match capture.at(1) {
        Some(code) => match code_point(code.subrange(1, digits_end(code, 1)), 16) {
            Some(c) => if code.len() >= 1 {
                seq![c]
            } else {
                whole_of(capture)
            },
            None => whole_of(capture),
        },
        None => match capture.at(2) {
            Some(escaped) => if escaped.len() >= 2 {
                seq![escaped[1]]
            } else {
                whole_of(capture)
            },
            None => whole_of(capture),
        },
    }
}

/// What the escapes of `text` stand for, match by match.
pub open spec fn css_escape_values(text: Seq<char>) -> Seq<Seq<char>> {
    let captures = captures_of(ESCAPED_CSS_CHARS@, text);
    Seq::new(captures.len(), |k: int| css_escape_value(captures[k]))
}

/// `text` with each escape replaced by what it stands for.
pub open spec fn css_unescaped(text: Seq<char>) -> Seq<char> {
    spliced(text, captures_of(ESCAPED_CSS_CHARS@, text), css_escape_values(text))
}

/// What an escape in a style sheet is replaced with.
pub fn css_escape(capture: &Capture) -> (value: String)
    ensures
        value@ == css_escape_value(capture@),
{
    match capture.at(1) {
        Some(code) => {
            let chars = chars_of(code.as_str());
            if chars.len() >= 1 {
                let end = end_of_digits(&chars, 1);
                match read_code_point(&chars, 1, end, 16) {
                    Some(c) => single(c),
                    None => whole_match(capture),
                }
            } else {
                whole_match(capture)
            }
        },
        None => match capture.at(2) {
            Some(escaped) => {
                let chars = chars_of(escaped.as_str());
                if chars.len() >= 2 {
                    single(chars[1])
                } else {
                    whole_match(capture)
                }
            },
            None => whole_match(capture),
        },
    }
}

/// Replaces each escape of a selector string by the character it stands
/// for.
pub fn unescape_css_chars(selector_string: &str) -> (unescaped: String)
    ensures
        unescaped@ == css_unescaped(selector_string@),
{
    let found = find_all(ESCAPED_CSS_CHARS, selector_string);
    let ghost captures = found.deep_view();
    let mut values: Vec<String> = Vec::new();
    let mut k: usize = 0;
    while k < found.len()
        invariant
            captures == found.deep_view(),
            k <= found@.len(),
            values@.len() == k,
            forall|j: int| 0 <= j < k ==> (#[trigger] values@[j])@ == css_escape_value(captures[j]),
        decreases found@.len() - k,
    {
        assert(captures[k as int] == found@[k as int]@);
        values.push(css_escape(&found[k]));
        k = k + 1;
    }
    assert(values.deep_view() =~= css_escape_values(selector_string@));
    splice(selector_string, &found, &values)
}

/// The attributes of a run as plain values.
pub type Attributes = Seq<(Seq<char>, Designation)>;

/// What a class or an id in a selector adds when it is read.
pub open spec fn css_selector_match_occurrences(capture: CaptureView) -> Seq<Occurrence> {
    match capture.at(2) {
        Some(name) => occurrence(
            group(capture, 1) + css_unescaped(name),
            Some(SelectorUsage::Style),
        ),
        None => Seq::empty(),
    }
}

/// What the selectors of a style sheet add when they are read.
pub open spec fn css_selector_occurrences(text: Seq<char>) -> Seq<Occurrence> {
    let captures = captures_of(CSS_SELECTORS@, text);
    gathered(Seq::new(captures.len(), |k: int| css_selector_match_occurrences(captures[k])))
}

/// What is written in the place of a class or an id in a selector: its sigil
/// and its new name, or the match as it stands where it has none.
pub open spec fn css_selector_match_rewritten(capture: CaptureView, entries: Seq<Entry>) -> Seq<
    char,
> {
    match capture.at(2) {
        Some(name) => match replacement_of(entries, group(capture, 1) + css_unescaped(name)) {
            Some(replacement) => group(capture, 1) + replacement,
            None => whole_of(capture),
        },
        None => whole_of(capture),
    }
}

/// A style sheet with the classes and ids of its selectors rewritten.
pub open spec fn css_selectors_rewritten(text: Seq<char>, entries: Seq<Entry>) -> Seq<char> {
    let captures = captures_of(CSS_SELECTORS@, text);
    spliced(
        text,
        captures,
        Seq::new(captures.len(), |k: int| css_selector_match_rewritten(captures[k], entries)),
    )
}

/// What a `url` function adds when it is read: the id that its link points
/// at.
pub open spec fn css_function_match_occurrences(capture: CaptureView) -> Seq<Occurrence> {
    match capture.at(4) {
        Some(argument) => anchor_occurrences(argument),
        None => Seq::empty(),
    }
}

/// What the functions of a style sheet add when they are read.
pub open spec fn css_function_occurrences(text: Seq<char>) -> Seq<Occurrence> {
    let captures = captures_of(CSS_FUNCTIONS@, text);
    gathered(Seq::new(captures.len(), |k: int| css_function_match_occurrences(captures[k])))
}

/// What is written in the place of a `url` function: the function with its
/// link rewritten.
pub open spec fn css_function_match_rewritten(capture: CaptureView, entries: Seq<Entry>) -> Seq<
    char,
> {
    match capture.at(4) {
        Some(argument) => group(capture, 1) + group(capture, 2) + group(capture, 3)
            + anchors_rewritten(argument, entries),
        None => whole_of(capture),
    }
}

/// A style sheet with the links of its functions rewritten.
pub open spec fn css_functions_rewritten(text: Seq<char>, entries: Seq<Entry>) -> Seq<char> {
    let captures = captures_of(CSS_FUNCTIONS@, text);
    spliced(
        text,
        captures,
        Seq::new(captures.len(), |k: int| css_function_match_rewritten(captures[k], entries)),
    )
}

/// Whether the flag of an attribute selector asks to compare without regard
/// to case.
pub open spec fn is_insensitive(flag: Seq<char>) -> bool {
    flag.contains('i') || flag.contains('I')
}

/// What an attribute selector adds when it is read. The attribute tells what
/// its value holds. A selector that compares without regard to case adds
/// nothing, and neither does a selector string nested deeper than `depth`
/// allows.
pub open spec fn css_attribute_match_occurrences(
    capture: CaptureView,
    attributes: Attributes,
    depth: nat,
) -> Seq<Occurrence>
    decreases depth, 0nat, 0nat,
{
    let value = group(capture, 4);
    if capture.at(2) is None || is_insensitive(group(capture, 6)) {
        Seq::empty()
    } else {
        match designation(attributes, css_unescaped(group(capture, 1))) {
            Some(Designation::Class) => token_occurrences(
                value,
                "class"@,
                Some(SelectorUsage::Style),
            ),
            Some(Designation::Id) => token_occurrences(value, "id"@, Some(SelectorUsage::Style)),
            Some(Designation::Selector) => if depth > 0 {
                css_occurrences(css_unescaped(value), attributes, (depth - 1) as nat)
            } else {
                Seq::empty()
            },
            Some(Designation::Anchor) => anchor_occurrences(css_unescaped(value)),
            _ => Seq::empty(),
        }
    }
}

/// What the first `k` of the attribute selectors add when they are read.
pub open spec fn css_attribute_occurrences_upto(
    captures: Seq<CaptureView>,
    attributes: Attributes,
    depth: nat,
    k: nat,
) -> Seq<Occurrence>
    decreases depth, 1nat, k,
{
    if k == 0 {
        Seq::empty()
    } else {
        css_attribute_occurrences_upto(captures, attributes, depth, (k - 1) as nat)
            + css_attribute_match_occurrences(captures[k - 1], attributes, depth)
    }
}

/// What the attribute selectors of a style sheet add when they are read.
pub open spec fn css_attribute_occurrences(text: Seq<char>, attributes: Attributes, depth: nat) -> Seq<
    Occurrence,
>
    decreases depth, 2nat, 0nat,
{
    let captures = captures_of(CSS_ATTRIBUTES@, text);
    css_attribute_occurrences_upto(captures, attributes, depth, captures.len())
}

/// What a style sheet adds when it is read: its selectors, its attribute
/// selectors, its functions, and the names marked for this crate.
pub open spec fn css_occurrences(text: Seq<char>, attributes: Attributes, depth: nat) -> Seq<
    Occurrence,
>
    decreases depth, 3nat, 0nat,
{
    css_selector_occurrences(text) + css_attribute_occurrences(text, attributes, depth)
        + css_function_occurrences(text) + prefixed_occurrences(text)
}

/// The value of an attribute selector, rewritten as the attribute asks.
pub open spec fn css_attribute_value_rewritten(
    capture: CaptureView,
    entries: Seq<Entry>,
    attributes: Attributes,
    depth: nat,
) -> Seq<char>
    decreases depth, 0nat, 0nat,
{
    let value = group(capture, 4);
    match designation(attributes, css_unescaped(group(capture, 1))) {
        Some(Designation::Class) => tokens_rewritten(value, entries, "class"@),
        Some(Designation::Id) => tokens_rewritten(value, entries, "id"@),
        Some(Designation::Selector) => if depth > 0 {
            css_rewritten(css_unescaped(value), entries, attributes, (depth - 1) as nat)
        } else {
            value
        },
        Some(Designation::Anchor) => anchors_rewritten(css_unescaped(value), entries),
        _ => value,
    }
}

/// What is written in the place of an attribute selector. One whose
/// attribute is not on the list, or that compares without regard to case,
/// stays as it is; so does a selector string nested deeper than `depth`
/// allows. Any other is written anew around its rewritten value.
pub open spec fn css_attribute_match_rewritten(
    capture: CaptureView,
    entries: Seq<Entry>,
    attributes: Attributes,
    depth: nat,
) -> Seq<char>
    decreases depth, 1nat, 0nat,
{
    let held = designation(attributes, css_unescaped(group(capture, 1)));
    if capture.at(2) is None || held is None || is_insensitive(group(capture, 6)) || (held
        == Some(Designation::Selector) && depth == 0) {
        whole_of(capture)
    } else {
        seq!['['] + group(capture, 1) + group(capture, 2) + group(capture, 3)
            + css_attribute_value_rewritten(capture, entries, attributes, depth) + group(
            capture,
            3,
        ) + group(capture, 5) + group(capture, 6) + seq![']']
    }
}

/// What is written in the places of the first `k` attribute selectors.
pub open spec fn css_attribute_rewritings(
    captures: Seq<CaptureView>,
    entries: Seq<Entry>,
    attributes: Attributes,
    depth: nat,
    k: nat,
) -> Seq<Seq<char>>
    decreases depth, 2nat, k,
{
    if k == 0 {
        Seq::empty()
    } else {
        css_attribute_rewritings(captures, entries, attributes, depth, (k - 1) as nat).push(
            css_attribute_match_rewritten(captures[k - 1], entries, attributes, depth),
        )
    }
}

/// A style sheet with its attribute selectors rewritten.
pub open spec fn css_attributes_rewritten(
    text: Seq<char>,
    entries: Seq<Entry>,
    attributes: Attributes,
    depth: nat,
) -> Seq<char>
    decreases depth, 3nat, 0nat,
{
    let captures = captures_of(CSS_ATTRIBUTES@, text);
    spliced(
        text,
        captures,
        css_attribute_rewritings(captures, entries, attributes, depth, captures.len()),
    )
}

/// A style sheet rewritten: first its selectors, then its attribute
/// selectors, then its functions, then the names marked for this crate.
pub open spec fn css_rewritten(
    text: Seq<char>,
    entries: Seq<Entry>,
    attributes: Attributes,
    depth: nat,
) -> Seq<char>
    decreases depth, 4nat, 0nat,
{
    prefixed_rewritten(
        css_functions_rewritten(
            css_attributes_rewritten(
                css_selectors_rewritten(text, entries),
                entries,
                attributes,
                depth,
            ),
            entries,
        ),
        entries,
    )
}

/// Reads the classes and ids in the selectors of a style sheet.
pub fn analyse_css_selectors(file_string: &str, selectors: &mut Selectors)
    ensures
        final(selectors)@ == noted_in(old(selectors)@, css_selector_occurrences(file_string@)),
{
    let found = find_all(CSS_SELECTORS, file_string);
    let ghost captures = found.deep_view();
    let ghost start = selectors@;
    let ghost mut parts: Seq<Seq<Occurrence>> = Seq::empty();
    let mut k: usize = 0;
    while k < found.len()
        invariant
            captures == found.deep_view(),
            k <= found@.len(),
            parts.len() == k,
            forall|j: int| 0 <= j < k ==> parts[j] == css_selector_match_occurrences(captures[j]),
            selectors@ == noted_in(start, gathered(parts)),
        decreases found@.len() - k,
    {
        assert(captures[k as int] == found@[k as int]@);
        proof {
            lemma_noted_step(start, parts, css_selector_match_occurrences(captures[k as int]));
            parts = parts.push(css_selector_match_occurrences(captures[k as int]));
        }
        match found[k].at(2) {
            Some(name) => {
                let plain = unescape_css_chars(name.as_str());
                let key = joined(group_of(&found[k], 1).as_str(), plain.as_str());
                note_selector(key.as_str(), selectors, Some(SelectorUsage::Style));
            },
            None => {},
        }
        k = k + 1;
    }
    assert(parts =~= Seq::new(
        captures.len(),
        |k: int| css_selector_match_occurrences(captures[k]),
    ));
}

/// What is written in the place of a class or an id in a selector.
pub fn rewrite_css_selector(capture: &Capture, selectors: &Selectors) -> (written: String)
    ensures
        written@ == css_selector_match_rewritten(capture@, selectors@.entries),
{
    match capture.at(2) {
        Some(name) => {
            let plain = unescape_css_chars(name.as_str());
            let sigil = group_of(capture, 1);
            let key = joined(sigil.as_str(), plain.as_str());
            match get_encoded_selector(key.as_str(), selectors) {
                Some(replacement) => joined(sigil.as_str(), replacement.as_str()),
                None => whole_match(capture),
            }
        },
        None => whole_match(capture),
    }
}

/// Rewrites the classes and ids in the selectors of a style sheet.
pub fn rewrite_css_selectors(file_string: &mut String, selectors: &Selectors)
    ensures
        final(file_string)@ == css_selectors_rewritten(old(file_string)@, selectors@.entries),
{
    let found = find_all(CSS_SELECTORS, file_string.as_str());
    let ghost captures = found.deep_view();
    let mut written: Vec<String> = Vec::new();
    let mut k: usize = 0;
    while k < found.len()
        invariant
            captures == found.deep_view(),
            k <= found@.len(),
            written@.len() == k,
            forall|j: int|
                0 <= j < k ==> (#[trigger] written@[j])@ == css_selector_match_rewritten(
                    captures[j],
                    selectors@.entries,
                ),
        decreases found@.len() - k,
    {
        assert(captures[k as int] == found@[k as int]@);
        written.push(rewrite_css_selector(&found[k], selectors));
        k = k + 1;
    }
    assert(written.deep_view() =~= Seq::new(
        captures.len(),
        |k: int| css_selector_match_rewritten(captures[k], selectors@.entries),
    ));
    *file_string = splice(file_string.as_str(), &found, &written);
}

/// Reads the links in the functions of a style sheet.
pub fn analyse_css_functions(file_string: &str, selectors: &mut Selectors)
    ensures
        final(selectors)@ == noted_in(old(selectors)@, css_function_occurrences(file_string@)),
{
    let found = find_all(CSS_FUNCTIONS, file_string);
    let ghost captures = found.deep_view();
    let ghost start = selectors@;
    let ghost mut parts: Seq<Seq<Occurrence>> = Seq::empty();
    let mut k: usize = 0;
    while k < found.len()
        invariant
            captures == found.deep_view(),
            k <= found@.len(),
            parts.len() == k,
            forall|j: int| 0 <= j < k ==> parts[j] == css_function_match_occurrences(captures[j]),
            selectors@ == noted_in(start, gathered(parts)),
        decreases found@.len() - k,
    {
        assert(captures[k as int] == found@[k as int]@);
        proof {
            lemma_noted_step(start, parts, css_function_match_occurrences(captures[k as int]));
            parts = parts.push(css_function_match_occurrences(captures[k as int]));
        }
        match found[k].at(4) {
            Some(argument) => {
                let mut link = argument.clone();
                analyse_anchor_links(&mut link, selectors);
            },
            None => {},
        }
        k = k + 1;
    }
    assert(parts =~= Seq::new(
        captures.len(),
        |k: int| css_function_match_occurrences(captures[k]),
    ));
}

/// What is written in the place of a `url` function.
pub fn rewrite_css_function(capture: &Capture, selectors: &Selectors) -> (written: String)
    ensures
        written@ == css_function_match_rewritten(capture@, selectors@.entries),
{
    match capture.at(4) {
        Some(argument) => {
            let mut link = argument.clone();
            rewrite_anchor_links(&mut link, selectors);
            let mut out = group_of(capture, 1);
            out.append(group_of(capture, 2).as_str());
            out.append(group_of(capture, 3).as_str());
            out.append(link.as_str());
            out
        },
        None => whole_match(capture),
    }
}

/// Rewrites the links in the functions of a style sheet.
pub fn rewrite_css_functions(file_string: &mut String, selectors: &Selectors)
    ensures
        final(file_string)@ == css_functions_rewritten(old(file_string)@, selectors@.entries),
{
    let found = find_all(CSS_FUNCTIONS, file_string.as_str());
    let ghost captures = found.deep_view();
    let mut written: Vec<String> = Vec::new();
    let mut k: usize = 0;
    while k < found.len()
        invariant
            captures == found.deep_view(),
            k <= found@.len(),
            written@.len() == k,
            forall|j: int|
                0 <= j < k ==> (#[trigger] written@[j])@ == css_function_match_rewritten(
                    captures[j],
                    selectors@.entries,
                ),
        decreases found@.len() - k,
    {
        assert(captures[k as int] == found@[k as int]@);
        written.push(rewrite_css_function(&found[k], selectors));
        k = k + 1;
    }
    assert(written.deep_view() =~= Seq::new(
        captures.len(),
        |k: int| css_function_match_rewritten(captures[k], selectors@.entries),
    ));
    *file_string = splice(file_string.as_str(), &found, &written);
}

/// Tells whether the flag of an attribute selector asks to compare without
/// regard to case.
pub fn flag_is_insensitive(flag: &str) -> (insensitive: bool)
    ensures
        insensitive == is_insensitive(flag@),
{
    let chars = chars_of(flag);
    let mut i: usize = 0;
    while i < chars.len()
        invariant
            chars@ == flag@,
            i <= chars@.len(),
            forall|j: int| 0 <= j < i ==> chars@[j] != 'i' && chars@[j] != 'I',
        decreases chars@.len() - i,
    {
        if chars[i] == 'i' || chars[i] == 'I' {
            assert(flag@.contains(chars@[i as int]));
            return true;
        }
        i = i + 1;
    }
    false
}

/// Reads one attribute selector.
pub fn analyse_css_attribute(
    capture: &Capture,
    selectors: &mut Selectors,
    whitelist: &Whitelist,
    depth: usize,
)
    ensures
        final(selectors)@ == noted_in(
            old(selectors)@,
            css_attribute_match_occurrences(capture@, whitelist@, depth as nat),
        ),
    decreases depth, 0nat,
{
    if capture.at(2).is_none() || flag_is_insensitive(group_of(capture, 6).as_str()) {
        return ;
    }
    let name = unescape_css_chars(group_of(capture, 1).as_str());
    let mut value = group_of(capture, 4);
    match whitelist.lookup(&chars_of(name.as_str())) {
        Some(Designation::Class) => {
            analyse_string_of_tokens(&mut value, selectors, "class", Some(SelectorUsage::Style));
        },
        Some(Designation::Id) => {
            analyse_string_of_tokens(&mut value, selectors, "id", Some(SelectorUsage::Style));
        },
        Some(Designation::Selector) => {
            if depth > 0 {
                let plain = unescape_css_chars(value.as_str());
                analyse_css(plain.as_str(), selectors, whitelist, depth - 1);
            }
        },
        Some(Designation::Anchor) => {
            let mut plain = unescape_css_chars(value.as_str());
            analyse_anchor_links(&mut plain, selectors);
        },
        _ => {},
    }
}

/// Reads the attribute selectors of a style sheet.
pub fn analyse_css_attributes(
    file_string: &str,
    selectors: &mut Selectors,
    whitelist: &Whitelist,
    depth: usize,
)
    ensures
        final(selectors)@ == noted_in(
            old(selectors)@,
            css_attribute_occurrences(file_string@, whitelist@, depth as nat),
        ),
    decreases depth, 1nat,
{
    let found = find_all(CSS_ATTRIBUTES, file_string);
    let ghost captures = found.deep_view();
    let ghost start = selectors@;
    let mut k: usize = 0;
    while k < found.len()
        invariant
            captures == found.deep_view(),
            k <= found@.len(),
            selectors@ == noted_in(
                start,
                css_attribute_occurrences_upto(captures, whitelist@, depth as nat, k as nat),
            ),
        decreases found@.len() - k,
    {
        assert(captures[k as int] == found@[k as int]@);
        proof {
            crate::occurrences::lemma_noted_concat(
                start.entries,
                css_attribute_occurrences_upto(captures, whitelist@, depth as nat, k as nat),
                css_attribute_match_occurrences(captures[k as int], whitelist@, depth as nat),
            );
        }
        analyse_css_attribute(&found[k], selectors, whitelist, depth);
        k = k + 1;
    }
}

/// Reads a style sheet, or a selector string.
pub fn analyse_css(
    file_string: &str,
    selectors: &mut Selectors,
    whitelist: &Whitelist,
    depth: usize,
)
    ensures
        final(selectors)@ == noted_in(
            old(selectors)@,
            css_occurrences(file_string@, whitelist@, depth as nat),
        ),
    decreases depth, 2nat,
{
    let ghost start = selectors@.entries;
    let ghost first = css_selector_occurrences(file_string@);
    let ghost second = css_attribute_occurrences(file_string@, whitelist@, depth as nat);
    let ghost third = css_function_occurrences(file_string@);
    let ghost fourth = prefixed_occurrences(file_string@);
    analyse_css_selectors(file_string, selectors);
    analyse_css_attributes(file_string, selectors, whitelist, depth);
    analyse_css_functions(file_string, selectors);
    analyse_prefixed_selectors(file_string, selectors);
    proof {
        crate::occurrences::lemma_noted_concat(start, first, second);
        crate::occurrences::lemma_noted_concat(start, first + second, third);
        crate::occurrences::lemma_noted_concat(start, first + second + third, fourth);
    }
}

/// Rewrites the value of one attribute selector as its attribute asks.
pub fn rewrite_css_attribute_value(
    capture: &Capture,
    selectors: &Selectors,
    whitelist: &Whitelist,
    depth: usize,
) -> (written: String)
    ensures
        written@ == css_attribute_value_rewritten(
            capture@,
            selectors@.entries,
            whitelist@,
            depth as nat,
        ),
    decreases depth, 0nat,
{
    let name = unescape_css_chars(group_of(capture, 1).as_str());
    let mut value = group_of(capture, 4);
    match whitelist.lookup(&chars_of(name.as_str())) {
        Some(Designation::Class) => {
            rewrite_string_of_tokens(&mut value, selectors, "class");
        },
        Some(Designation::Id) => {
            rewrite_string_of_tokens(&mut value, selectors, "id");
        },
        Some(Designation::Selector) => {
            if depth > 0 {
                value = unescape_css_chars(value.as_str());
                rewrite_css(&mut value, selectors, whitelist, depth - 1);
            }
        },
        Some(Designation::Anchor) => {
            value = unescape_css_chars(value.as_str());
            rewrite_anchor_links(&mut value, selectors);
        },
        _ => {},
    }
    value
}

/// What is written in the place of one attribute selector.
pub fn rewrite_css_attribute(
    capture: &Capture,
    selectors: &Selectors,
    whitelist: &Whitelist,
    depth: usize,
) -> (written: String)
    ensures
        written@ == css_attribute_match_rewritten(
            capture@,
            selectors@.entries,
            whitelist@,
            depth as nat,
        ),
    decreases depth, 1nat,
{
    let name = unescape_css_chars(group_of(capture, 1).as_str());
    let held = whitelist.lookup(&chars_of(name.as_str()));
    let nested = match held {
        Some(Designation::Selector) => depth == 0,
        _ => false,
    };
    if capture.at(2).is_none() || held.is_none() || flag_is_insensitive(
        group_of(capture, 6).as_str(),
    ) || nested {
        return whole_match(capture);
    }
    let value = rewrite_css_attribute_value(capture, selectors, whitelist, depth);
    let quote = group_of(capture, 3);
    let mut out = single('[');
    out.append(group_of(capture, 1).as_str());
    out.append(group_of(capture, 2).as_str());
    out.append(quote.as_str());
    out.append(value.as_str());
    out.append(quote.as_str());
    out.append(group_of(capture, 5).as_str());
    out.append(group_of(capture, 6).as_str());
    out.append(single(']').as_str());
    out
}

/// Rewrites the attribute selectors of a style sheet.
pub fn rewrite_css_attributes(
    file_string: &mut String,
    selectors: &Selectors,
    whitelist: &Whitelist,
    depth: usize,
)
    ensures
        final(file_string)@ == css_attributes_rewritten(
            old(file_string)@,
            selectors@.entries,
            whitelist@,
            depth as nat,
        ),
    decreases depth, 2nat,
{
    let found = find_all(CSS_ATTRIBUTES, file_string.as_str());
    let ghost captures = found.deep_view();
    let mut written: Vec<String> = Vec::new();
    let mut k: usize = 0;
    assert(written.deep_view() =~= Seq::<Seq<char>>::empty());
    while k < found.len()
        invariant
            captures == found.deep_view(),
            k <= found@.len(),
            written@.len() == k,
            written.deep_view() == css_attribute_rewritings(
                captures,
                selectors@.entries,
                whitelist@,
                depth as nat,
                k as nat,
            ),
        decreases found@.len() - k,
    {
        assert(captures[k as int] == found@[k as int]@);
        let ghost before = written.deep_view();
        let next = rewrite_css_attribute(&found[k], selectors, whitelist, depth);
        let ghost text = next@;
        written.push(next);
        assert(written.deep_view() =~= before.push(text));
        k = k + 1;
    }
    *file_string = splice(file_string.as_str(), &found, &written);
}

/// Rewrites a style sheet, or a selector string.
pub fn rewrite_css(
    file_string: &mut String,
    selectors: &Selectors,
    whitelist: &Whitelist,
    depth: usize,
)
    ensures
        final(file_string)@ == css_rewritten(
            old(file_string)@,
            selectors@.entries,
            whitelist@,
            depth as nat,
        ),
    decreases depth, 3nat,
{
    rewrite_css_selectors(file_string, selectors);
    rewrite_css_attributes(file_string, selectors, whitelist, depth);
    rewrite_css_functions(file_string, selectors);
    rewrite_prefixed_selectors(file_string, selectors);
}

} // verus!
