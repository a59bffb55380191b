//! The places of selectors that all kinds of files share: names marked for
//! this crate, lists of names, arguments of calls, and links.

use vstd::prelude::*;

use crate::occurrences::{
    gathered, get_encoded_selector, lemma_gathered_push, lemma_noted_concat, note_selector,
    noted_in, occurrence, replacement_of, Occurrence,
};
use crate::ordered_map::Entry;
use crate::regexes::{
    INTERNAL_ANCHOR_TARGET_ID, PREFIXED_SELECTORS, STRING_DELIMITED_BY_COMMA,
    STRING_DELIMITED_BY_SPACE,
};
use crate::registry::{RegistryView, SelectorUsage, Selectors};
use crate::scan::{captures_of, find_all, splice, spliced, well_spaced, Capture, CaptureView};
use crate::script::{js_unescaped, unescape_js_chars};
use crate::style::{css_unescaped, unescape_css_chars, whole_match, whole_of, single};
use crate::text::{chars_of, same_text, slice_of, string_of, trim, trimmed};

verus! {

/// What a group of a match holds, and the empty text for a group that took
/// no part.
pub open spec fn group(capture: CaptureView, i: int) -> Seq<char> {
    match capture.at(i) {
        Some(text) => text,
        None => Seq::empty(),
    }
}

/// Copies what a group of a match holds.
pub fn group_of(capture: &Capture, i: usize) -> (text: String)
    ensures
        text@ == group(capture@, i as int),
{
    match capture.at(i) {
        Some(text) => text.clone(),
        None => String::new(),
    }
}

/// Whether `pattern` matches somewhere in `text`.
pub open spec fn has_match(pattern: Seq<char>, text: Seq<char>) -> bool {
    captures_of(pattern, text).len() > 0
}

/// The sigil that goes with a context: `.` for classes, `#` for ids, and
/// none for any other.
pub open spec fn sigil_for(context: Seq<char>) -> Seq<char> {
    if context == "class"@ {
        seq!['.']
    } else if context == "id"@ {
        seq!['#']
    } else {
        Seq::empty()
    }
}

/// Whether `c` opens and closes a string.
pub open spec fn is_quote(c: char) -> bool {
    c == '\'' || c == '"' || c == '`'
}

/// Whether `text` comes with its quotes: it starts with one and has room for
/// a second.
pub open spec fn is_quoted(text: Seq<char>) -> bool {
    text.len() >= 2 && is_quote(text[0])
}

/// The quote that `text` comes with, or nothing.
pub open spec fn quote_of(text: Seq<char>) -> Seq<char> {
    if is_quoted(text) {
        seq![text[0]]
    } else {
        Seq::empty()
    }
}

/// `text` without the quotes it comes with: its first and its last
/// character.
pub open spec fn unquoted(text: Seq<char>) -> Seq<char> {
    if is_quoted(text) {
        text.subrange(1, text.len() - 1)
    } else {
        text
    }
}

/// One step of noting: what was gathered before, and one part more.
pub proof fn lemma_noted_step(start: RegistryView, parts: Seq<Seq<Occurrence>>, part: Seq<Occurrence>)
    ensures
        noted_in(noted_in(start, gathered(parts)), part) == noted_in(
            start,
            gathered(parts.push(part)),
        ),
{
    lemma_gathered_push(parts, part);
    lemma_noted_concat(start.entries, gathered(parts), part);
}

/// The sigil that goes with a context, as a string.
pub fn sigil_of(context: &str) -> (sigil: String)
    ensures
        sigil@ == sigil_for(context@),
{
    if same_text(context, "class") {
        single('.')
    } else if same_text(context, "id") {
        single('#')
    } else {
        String::new()
    }
}

/// Takes the quotes off a string that comes with them.
pub fn unquote(text: &str) -> (parts: (String, String))
    ensures
        parts.0@ == quote_of(text@),
        parts.1@ == unquoted(text@),
{
    let chars = chars_of(text);
    if chars.len() >= 2 && (chars[0] == '\'' || chars[0] == '"' || chars[0] == '`') {
        (single(chars[0]), slice_of(&chars, 1, chars.len() - 1))
    } else {
        assert(chars@.subrange(0, chars@.len() as int) == chars@);
        (String::new(), slice_of(&chars, 0, chars.len()))
    }
}

/// `first` followed by `second`.
pub fn joined(first: &str, second: &str) -> (both: String)
    ensures
        both@ == first@ + second@,
{
    let mut both = first.to_owned();
    both.append(second);
    both
}

/// `text` without the white space at its ends.
pub fn trim_text(text: &str) -> (kept: String)
    ensures
        kept@ == trimmed(text@),
{
    string_of(&trim(&chars_of(text)))
}

/// Checks if a name marked for this crate stands in the given snippet.
pub fn is_prefixed_selector(string: &str) -> (marked: bool)
    ensures
        marked == has_match(PREFIXED_SELECTORS@, string@),
{
    let found = find_all(PREFIXED_SELECTORS, string);
    assert(found.deep_view().len() == found@.len());
    found.len() > 0
}

/// The arguments of a call, one match each.
pub fn get_function_arguments(string: &str) -> (arguments: Vec<Capture>)
    ensures
        arguments.deep_view() == captures_of(STRING_DELIMITED_BY_COMMA@, string@),
        well_spaced(arguments.deep_view(), string@),
{
    find_all(STRING_DELIMITED_BY_COMMA, string)
}

/// The name that a marker carries, read as a selector name.
pub open spec fn marked_name(capture: CaptureView) -> Seq<char> {
    css_unescaped(trimmed(group(capture, 3)))
}

/// The key that a marker stands for: the context `class` or `id` gives the
/// sigil, and without a context the sigil before the marker does.
pub open spec fn marked_key(capture: CaptureView) -> Seq<char> {
    if capture.at(2) == Some("class"@) {
        seq!['.'] + marked_name(capture)
    } else if capture.at(2) == Some("id"@) {
        seq!['#'] + marked_name(capture)
    } else {
        group(capture, 1) + marked_name(capture)
    }
}

/// What a marker adds when it is read: nothing for a name marked to be
/// ignored, and else the selector it stands for.
pub open spec fn prefixed_match_occurrences(capture: CaptureView) -> Seq<Occurrence> {
    if capture.at(2) == Some("ignore"@) {
        Seq::empty()
    } else {
        occurrence(marked_key(capture), Some(SelectorUsage::Prefix))
    }
}

/// What the markers of `text` add when they are read.
pub open spec fn prefixed_occurrences(text: Seq<char>) -> Seq<Occurrence> {
    let captures = captures_of(PREFIXED_SELECTORS@, text);
    gathered(Seq::new(captures.len(), |k: int| prefixed_match_occurrences(captures[k])))
}

/// What is written in the place of a marker: a name marked to be ignored is
/// written without the marker, behind its sigil; any other is written as the
/// new name of its selector, or as its own name where the selector has none.
pub open spec fn prefixed_match_rewritten(capture: CaptureView, entries: Seq<Entry>) -> Seq<char> {
    let name = marked_name(capture);
    let new_name = match replacement_of(entries, marked_key(capture)) {
        Some(replacement) => replacement,
        None => name,
    };
    if capture.at(2) == Some("ignore"@) {
        group(capture, 1) + name
    } else if capture.at(2) == Some("class"@) || capture.at(2) == Some("id"@) {
        new_name
    } else {
        group(capture, 1) + new_name
    }
}

/// `text` with its markers rewritten.
pub open spec fn prefixed_rewritten(text: Seq<char>, entries: Seq<Entry>) -> Seq<char> {
    let captures = captures_of(PREFIXED_SELECTORS@, text);
    spliced(
        text,
        captures,
        Seq::new(captures.len(), |k: int| prefixed_match_rewritten(captures[k], entries)),
    )
}

/// Tells whether a group of a match holds exactly `word`.
pub fn group_is(capture: &Capture, i: usize, word: &str) -> (same: bool)
    ensures
        same == (capture@.at(i as int) == Some(word@)),
{
    match capture.at(i) {
        Some(text) => same_text(text.as_str(), word),
        None => false,
    }
}

/// The name that a marker carries, read as a selector name.
pub fn marker_name(capture: &Capture) -> (name: String)
    ensures
        name@ == marked_name(capture@),
{
    let raw = group_of(capture, 3);
    let kept = trim_text(raw.as_str());
    unescape_css_chars(kept.as_str())
}

/// The key that a marker stands for.
pub fn marker_key(capture: &Capture) -> (key: String)
    ensures
        key@ == marked_key(capture@),
{
    let name = marker_name(capture);
    if group_is(capture, 2, "class") {
        joined(single('.').as_str(), name.as_str())
    } else if group_is(capture, 2, "id") {
        joined(single('#').as_str(), name.as_str())
    } else {
        joined(group_of(capture, 1).as_str(), name.as_str())
    }
}

/// Reads the names that are marked for this crate.
pub fn analyse_prefixed_selectors(file_string: &str, selectors: &mut Selectors)
    ensures
        final(selectors)@ == noted_in(old(selectors)@, prefixed_occurrences(file_string@)),
{
    let found = find_all(PREFIXED_SELECTORS, file_string);
    let ghost captures = found.deep_view();
    let ghost start = selectors@;
    let ghost mut parts: Seq<Seq<Occurrence>> = Seq::empty();
    let mut k: usize = 0;
    while k < found.len()
        invariant
            captures == found.deep_view(),
            k <= found@.len(),
            parts.len() == k,
            forall|j: int| 0 <= j < k ==> parts[j] == prefixed_match_occurrences(captures[j]),
            selectors@ == noted_in(start, gathered(parts)),
        decreases found@.len() - k,
    {
        assert(captures[k as int] == found@[k as int]@);
        proof {
            lemma_noted_step(start, parts, prefixed_match_occurrences(captures[k as int]));
            parts = parts.push(prefixed_match_occurrences(captures[k as int]));
        }
        if !group_is(&found[k], 2, "ignore") {
            let key = marker_key(&found[k]);
            note_selector(key.as_str(), selectors, Some(SelectorUsage::Prefix));
        }
        k = k + 1;
    }
    assert(parts =~= Seq::new(captures.len(), |k: int| prefixed_match_occurrences(captures[k])));
}

/// What is written in the place of one marker.
pub fn rewrite_prefixed_match(capture: &Capture, selectors: &Selectors) -> (written: String)
    ensures
        written@ == prefixed_match_rewritten(capture@, selectors@.entries),
{
    let name = marker_name(capture);
    if group_is(capture, 2, "ignore") {
        return joined(group_of(capture, 1).as_str(), name.as_str());
    }
    let key = marker_key(capture);
    let new_name = match get_encoded_selector(key.as_str(), selectors) {
        Some(replacement) => replacement,
        None => name,
    };
    if group_is(capture, 2, "class") || group_is(capture, 2, "id") {
        new_name
    } else {
        joined(group_of(capture, 1).as_str(), new_name.as_str())
    }
}

/// Rewrites the names that are marked for this crate.
pub fn rewrite_prefixed_selectors(file_string: &mut String, selectors: &Selectors)
    ensures
        final(file_string)@ == prefixed_rewritten(old(file_string)@, selectors@.entries),
{
    let found = find_all(PREFIXED_SELECTORS, file_string.as_str());
    let ghost captures = found.deep_view();
    let mut written: Vec<String> = Vec::new();
    let mut k: usize = 0;
    while k < found.len()
        invariant
            captures == found.deep_view(),
            k <= found@.len(),
            written@.len() == k,
            forall|j: int|
                0 <= j < k ==> (#[trigger] written@[j])@ == prefixed_match_rewritten(
                    captures[j],
                    selectors@.entries,
                ),
        decreases found@.len() - k,
    {
        assert(captures[k as int] == found@[k as int]@);
        written.push(rewrite_prefixed_match(&found[k], selectors));
        k = k + 1;
    }
    assert(written.deep_view() =~= Seq::new(
        captures.len(),
        |k: int| prefixed_match_rewritten(captures[k], selectors@.entries),
    ));
    *file_string = splice(file_string.as_str(), &found, &written);
}

/// What one name of a list adds when it is read. A name that carries a
/// marker is left to the reading of markers.
pub open spec fn token_match_occurrences(
    capture: CaptureView,
    context: Seq<char>,
    usage: Option<SelectorUsage>,
) -> Seq<Occurrence> {
    if has_match(PREFIXED_SELECTORS@, whole_of(capture)) {
        Seq::empty()
    } else {
        occurrence(sigil_for(context) + css_unescaped(group(capture, 1)), usage)
    }
}

/// What a list of names adds when it is read.
pub open spec fn token_occurrences(
    string: Seq<char>,
    context: Seq<char>,
    usage: Option<SelectorUsage>,
) -> Seq<Occurrence> {
    let captures = captures_of(STRING_DELIMITED_BY_SPACE@, unquoted(string));
    gathered(
        Seq::new(captures.len(), |k: int| token_match_occurrences(captures[k], context, usage)),
    )
}

/// What is written in the place of one name of a list: its new name, or the
/// name as it stands where it has none or carries a marker.
pub open spec fn token_match_rewritten(
    capture: CaptureView,
    entries: Seq<Entry>,
    context: Seq<char>,
) -> Seq<char> {
    if has_match(PREFIXED_SELECTORS@, whole_of(capture)) {
        whole_of(capture)
    } else {
        match replacement_of(entries, sigil_for(context) + css_unescaped(group(capture, 1))) {
            Some(replacement) => replacement,
            None => whole_of(capture),
        }
    }
}

/// A list of names with each name rewritten, between the quotes it came
/// with.
pub open spec fn tokens_rewritten(string: Seq<char>, entries: Seq<Entry>, context: Seq<char>) -> Seq<
    char,
> {
    let captures = captures_of(STRING_DELIMITED_BY_SPACE@, unquoted(string));
    quote_of(string) + spliced(
        unquoted(string),
        captures,
        Seq::new(captures.len(), |k: int| token_match_rewritten(captures[k], entries, context)),
    ) + quote_of(string)
}

/// Reads a list of names separated by white space. The context tells what
/// the names are: `class` or `id`. The string is left without the quotes it
/// came with.
pub fn analyse_string_of_tokens(
    string: &mut String,
    selectors: &mut Selectors,
    context: &str,
    usage: Option<SelectorUsage>,
)
    ensures
        final(string)@ == unquoted(old(string)@),
        final(selectors)@ == noted_in(
            old(selectors)@,
            token_occurrences(old(string)@, context@, usage),
        ),
{
    let sigil = sigil_of(context);
    let (_, inner) = unquote(string.as_str());
    let found = find_all(STRING_DELIMITED_BY_SPACE, inner.as_str());
    let ghost captures = found.deep_view();
    let ghost start = selectors@;
    let ghost mut parts: Seq<Seq<Occurrence>> = Seq::empty();
    let mut k: usize = 0;
    while k < found.len()
        invariant
            captures == found.deep_view(),
            sigil@ == sigil_for(context@),
            k <= found@.len(),
            parts.len() == k,
            forall|j: int|
                0 <= j < k ==> parts[j] == token_match_occurrences(captures[j], context@, usage),
            selectors@ == noted_in(start, gathered(parts)),
        decreases found@.len() - k,
    {
        assert(captures[k as int] == found@[k as int]@);
        proof {
            lemma_noted_step(
                start,
                parts,
                token_match_occurrences(captures[k as int], context@, usage),
            );
            parts = parts.push(token_match_occurrences(captures[k as int], context@, usage));
        }
        if !is_prefixed_selector(whole_match(&found[k]).as_str()) {
            let name = unescape_css_chars(group_of(&found[k], 1).as_str());
            let key = joined(sigil.as_str(), name.as_str());
            note_selector(key.as_str(), selectors, usage);
        }
        k = k + 1;
    }
    assert(parts =~= Seq::new(
        captures.len(),
        |k: int| token_match_occurrences(captures[k], context@, usage),
    ));
    *string = inner;
}

/// What is written in the place of one name of a list.
pub fn rewrite_token(capture: &Capture, selectors: &Selectors, sigil: &String) -> (written: String)
    ensures
        written@ == (if has_match(PREFIXED_SELECTORS@, whole_of(capture@)) {
            whole_of(capture@)
        } else {
            match replacement_of(
                selectors@.entries,
                sigil@ + css_unescaped(group(capture@, 1)),
            ) {
                Some(replacement) => replacement,
                None => whole_of(capture@),
            }
        }),
{
    let whole = whole_match(capture);
    if is_prefixed_selector(whole.as_str()) {
        return whole;
    }
    let name = unescape_css_chars(group_of(capture, 1).as_str());
    let key = joined(sigil.as_str(), name.as_str());
    match get_encoded_selector(key.as_str(), selectors) {
        Some(replacement) => replacement,
        None => whole,
    }
}

/// Rewrites a list of names separated by white space. The context tells
/// what the names are: `class` or `id`.
pub fn rewrite_string_of_tokens(string: &mut String, selectors: &Selectors, context: &str)
    ensures
        final(string)@ == tokens_rewritten(old(string)@, selectors@.entries, context@),
{
    let sigil = sigil_of(context);
    let (quote, inner) = unquote(string.as_str());
    let found = find_all(STRING_DELIMITED_BY_SPACE, inner.as_str());
    let ghost captures = found.deep_view();
    let mut written: Vec<String> = Vec::new();
    let mut k: usize = 0;
    while k < found.len()
        invariant
            captures == found.deep_view(),
            sigil@ == sigil_for(context@),
            k <= found@.len(),
            written@.len() == k,
            forall|j: int|
                0 <= j < k ==> (#[trigger] written@[j])@ == token_match_rewritten(
                    captures[j],
                    selectors@.entries,
                    context@,
                ),
        decreases found@.len() - k,
    {
        assert(captures[k as int] == found@[k as int]@);
        written.push(rewrite_token(&found[k], selectors, &sigil));
        k = k + 1;
    }
    assert(written.deep_view() =~= Seq::new(
        captures.len(),
        |k: int| token_match_rewritten(captures[k], selectors@.entries, context@),
    ));
    let tokens = splice(inner.as_str(), &found, &written);
    let mut out = quote.clone();
    out.append(tokens.as_str());
    out.append(quote.as_str());
    *string = out;
}

/// What one argument of a call adds when it is read: the name between the
/// quotes of a string. An argument that carries a marker is left to the
/// reading of markers.
pub open spec fn argument_match_occurrences(
    capture: CaptureView,
    context: Seq<char>,
    usage: Option<SelectorUsage>,
) -> Seq<Occurrence> {
    if has_match(PREFIXED_SELECTORS@, whole_of(capture)) {
        Seq::empty()
    } else {
        match capture.at(3) {
            Some(token) => occurrence(sigil_for(context) + token, usage),
            None => Seq::empty(),
        }
    }
}

/// What the arguments of a call add when they are read.
pub open spec fn argument_occurrences(
    string: Seq<char>,
    context: Seq<char>,
    usage: Option<SelectorUsage>,
) -> Seq<Occurrence> {
    let captures = captures_of(STRING_DELIMITED_BY_COMMA@, string);
    gathered(
        Seq::new(
            captures.len(),
            |k: int| argument_match_occurrences(captures[k], context, usage),
        ),
    )
}

/// What is written in the place of one argument of a call: a string whose
/// name has a new name is written with it, between its quotes; anything
/// else stays as it is.
pub open spec fn argument_match_rewritten(
    capture: CaptureView,
    entries: Seq<Entry>,
    context: Seq<char>,
) -> Seq<char> {
    if has_match(PREFIXED_SELECTORS@, whole_of(capture)) {
        whole_of(capture)
    } else {
        match capture.at(3) {
            Some(token) => match replacement_of(entries, sigil_for(context) + token) {
                Some(replacement) => group(capture, 2) + replacement + group(capture, 2),
                None => whole_of(capture),
            },
            None => whole_of(capture),
        }
    }
}

/// The arguments of a call with each argument rewritten.
pub open spec fn arguments_rewritten(string: Seq<char>, entries: Seq<Entry>, context: Seq<char>) -> Seq<
    char,
> {
    let captures = captures_of(STRING_DELIMITED_BY_COMMA@, string);
    spliced(
        string,
        captures,
        Seq::new(
            captures.len(),
            |k: int| argument_match_rewritten(captures[k], entries, context),
        ),
    )
}

/// Reads the arguments of a call, separated by commas. The context tells
/// what the strings among them are: `class` or `id`.
pub fn analyse_string_of_arguments(
    string: &str,
    selectors: &mut Selectors,
    context: &str,
    usage: Option<SelectorUsage>,
)
    ensures
        final(selectors)@ == noted_in(
            old(selectors)@,
            argument_occurrences(string@, context@, usage),
        ),
{
    let sigil = sigil_of(context);
    let found = find_all(STRING_DELIMITED_BY_COMMA, string);
    let ghost captures = found.deep_view();
    let ghost start = selectors@;
    let ghost mut parts: Seq<Seq<Occurrence>> = Seq::empty();
    let mut k: usize = 0;
    while k < found.len()
        invariant
            captures == found.deep_view(),
            sigil@ == sigil_for(context@),
            k <= found@.len(),
            parts.len() == k,
            forall|j: int|
                0 <= j < k ==> parts[j] == argument_match_occurrences(
                    captures[j],
                    context@,
                    usage,
                ),
            selectors@ == noted_in(start, gathered(parts)),
        decreases found@.len() - k,
    {
        assert(captures[k as int] == found@[k as int]@);
        proof {
            lemma_noted_step(
                start,
                parts,
                argument_match_occurrences(captures[k as int], context@, usage),
            );
            parts = parts.push(argument_match_occurrences(captures[k as int], context@, usage));
        }
        if !is_prefixed_selector(whole_match(&found[k]).as_str()) {
            match found[k].at(3) {
                Some(token) => {
                    let key = joined(sigil.as_str(), token.as_str());
                    note_selector(key.as_str(), selectors, usage);
                },
                None => {},
            }
        }
        k = k + 1;
    }
    assert(parts =~= Seq::new(
        captures.len(),
        |k: int| argument_match_occurrences(captures[k], context@, usage),
    ));
}

/// What is written in the place of one argument of a call.
pub fn rewrite_argument(capture: &Capture, selectors: &Selectors, sigil: &String) -> (written: String)
    ensures
        written@ == (if has_match(PREFIXED_SELECTORS@, whole_of(capture@)) {
            whole_of(capture@)
        } else {
            match capture@.at(3) {
                Some(token) => match replacement_of(selectors@.entries, sigil@ + token) {
                    Some(replacement) => group(capture@, 2) + replacement + group(capture@, 2),
                    None => whole_of(capture@),
                },
                None => whole_of(capture@),
            }
        }),
{
    let whole = whole_match(capture);
    if is_prefixed_selector(whole.as_str()) {
        return whole;
    }
    match capture.at(3) {
        Some(token) => {
            let key = joined(sigil.as_str(), token.as_str());
            match get_encoded_selector(key.as_str(), selectors) {
                Some(replacement) => {
                    let quote = group_of(capture, 2);
                    let mut out = quote.clone();
                    out.append(replacement.as_str());
                    out.append(quote.as_str());
                    out
                },
                None => whole,
            }
        },
        None => whole,
    }
}

/// Rewrites the arguments of a call, separated by commas. The context tells
/// what the strings among them are: `class` or `id`.
pub fn rewrite_string_of_arguments(string: &mut String, selectors: &Selectors, context: &str)
    ensures
        final(string)@ == arguments_rewritten(old(string)@, selectors@.entries, context@),
{
    let sigil = sigil_of(context);
    let found = find_all(STRING_DELIMITED_BY_COMMA, string.as_str());
    let ghost captures = found.deep_view();
    let mut written: Vec<String> = Vec::new();
    let mut k: usize = 0;
    while k < found.len()
        invariant
            captures == found.deep_view(),
            sigil@ == sigil_for(context@),
            k <= found@.len(),
            written@.len() == k,
            forall|j: int|
                0 <= j < k ==> (#[trigger] written@[j])@ == argument_match_rewritten(
                    captures[j],
                    selectors@.entries,
                    context@,
                ),
        decreases found@.len() - k,
    {
        assert(captures[k as int] == found@[k as int]@);
        written.push(rewrite_argument(&found[k], selectors, &sigil));
        k = k + 1;
    }
    assert(written.deep_view() =~= Seq::new(
        captures.len(),
        |k: int| argument_match_rewritten(captures[k], selectors@.entries, context@),
    ));
    *string = splice(string.as_str(), &found, &written);
}

/// What a link adds when it is read: the id that its fragment points at. A
/// link to another host, and one whose fragment carries a marker, add
/// nothing.
pub open spec fn anchor_match_occurrences(capture: CaptureView) -> Seq<Occurrence> {
    if capture.at(1) is None {
        Seq::empty()
    } else {
        occurrence(js_unescaped(group(capture, 2)), Some(SelectorUsage::Anchor))
    }
}

/// What the links of a string add when they are read.
pub open spec fn anchor_occurrences(string: Seq<char>) -> Seq<Occurrence> {
    let captures = captures_of(INTERNAL_ANCHOR_TARGET_ID@, unquoted(string));
    gathered(Seq::new(captures.len(), |k: int| anchor_match_occurrences(captures[k])))
}

/// What is written in the place of a link: where the id that its fragment
/// points at has a new name, the link with that name behind the `#`; else
/// the link as it stands.
pub open spec fn anchor_match_rewritten(capture: CaptureView, entries: Seq<Entry>) -> Seq<char> {
    if capture.at(1) is None {
        whole_of(capture)
    } else {
        match replacement_of(entries, js_unescaped(group(capture, 2))) {
            Some(replacement) => group(capture, 1) + seq!['#'] + replacement,
            None => whole_of(capture),
        }
    }
}

/// The first of the matches alone, if there is one.
pub open spec fn first_of(captures: Seq<CaptureView>) -> Seq<CaptureView> {
    if captures.len() > 0 {
        captures.take(1)
    } else {
        captures
    }
}

/// A link with the fragment of its first match rewritten, between the
/// quotes it came with.
pub open spec fn anchors_rewritten(string: Seq<char>, entries: Seq<Entry>) -> Seq<char> {
    let captures = first_of(captures_of(INTERNAL_ANCHOR_TARGET_ID@, unquoted(string)));
    quote_of(string) + spliced(
        unquoted(string),
        captures,
        Seq::new(captures.len(), |k: int| anchor_match_rewritten(captures[k], entries)),
    ) + quote_of(string)
}

/// Reads the ids that links point at. The string is left without the quotes
/// it came with.
pub fn analyse_anchor_links(string: &mut String, selectors: &mut Selectors)
    ensures
        final(string)@ == unquoted(old(string)@),
        final(selectors)@ == noted_in(old(selectors)@, anchor_occurrences(old(string)@)),
{
    let (_, inner) = unquote(string.as_str());
    let found = find_all(INTERNAL_ANCHOR_TARGET_ID, inner.as_str());
    let ghost captures = found.deep_view();
    let ghost start = selectors@;
    let ghost mut parts: Seq<Seq<Occurrence>> = Seq::empty();
    let mut k: usize = 0;
    while k < found.len()
        invariant
            captures == found.deep_view(),
            k <= found@.len(),
            parts.len() == k,
            forall|j: int| 0 <= j < k ==> parts[j] == anchor_match_occurrences(captures[j]),
            selectors@ == noted_in(start, gathered(parts)),
        decreases found@.len() - k,
    {
        assert(captures[k as int] == found@[k as int]@);
        proof {
            lemma_noted_step(start, parts, anchor_match_occurrences(captures[k as int]));
            parts = parts.push(anchor_match_occurrences(captures[k as int]));
        }
        if found[k].at(1).is_some() {
            let key = unescape_js_chars(group_of(&found[k], 2).as_str());
            note_selector(key.as_str(), selectors, Some(SelectorUsage::Anchor));
        }
        k = k + 1;
    }
    assert(parts =~= Seq::new(captures.len(), |k: int| anchor_match_occurrences(captures[k])));
    *string = inner;
}

/// What is written in the place of one link.
pub fn rewrite_anchor(capture: &Capture, selectors: &Selectors) -> (written: String)
    ensures
        written@ == anchor_match_rewritten(capture@, selectors@.entries),
{
    if capture.at(1).is_none() {
        return whole_match(capture);
    }
    let key = unescape_js_chars(group_of(capture, 2).as_str());
    match get_encoded_selector(key.as_str(), selectors) {
        Some(replacement) => {
            let mut out = group_of(capture, 1);
            out.append(single('#').as_str());
            out.append(replacement.as_str());
            out
        },
        None => whole_match(capture),
    }
}

/// Rewrites the id that a link points at.
pub fn rewrite_anchor_links(string: &mut String, selectors: &Selectors)
    ensures
        final(string)@ == anchors_rewritten(old(string)@, selectors@.entries),
{
    let (quote, inner) = unquote(string.as_str());
    let mut found = find_all(INTERNAL_ANCHOR_TARGET_ID, inner.as_str());
    let ghost all = found.deep_view();
    assert(all.take(all.len() as int) == all);
    while found.len() > 1
        invariant
            found@.len() <= all.len(),
            all.len() > 0 ==> found@.len() > 0,
            found.deep_view() == all.take(found@.len() as int),
            well_spaced(all, inner@),
        decreases found@.len(),
    {
        let ghost before = found.deep_view();
        found.pop();
        assert(found.deep_view() =~= all.take(found@.len() as int));
    }
    let ghost captures = found.deep_view();
    assert(captures =~= first_of(all));
    assert forall|k: int| 0 <= k < captures.len() implies crate::scan::end_before(captures, k) <= (
    #[trigger] captures[k]).start <= captures[k].end <= inner@.len() && captures[k].groups.len()
        >= 1 && captures[k].groups[0] == Some(
        inner@.subrange(captures[k].start as int, captures[k].end as int),
    ) by {
        assert(captures[k] == all[k]);
    }
    let mut written: Vec<String> = Vec::new();
    let mut k: usize = 0;
    while k < found.len()
        invariant
            captures == found.deep_view(),
            k <= found@.len(),
            written@.len() == k,
            forall|j: int|
                0 <= j < k ==> (#[trigger] written@[j])@ == anchor_match_rewritten(
                    captures[j],
                    selectors@.entries,
                ),
        decreases found@.len() - k,
    {
        assert(captures[k as int] == found@[k as int]@);
        written.push(rewrite_anchor(&found[k], selectors));
        k = k + 1;
    }
    assert(written.deep_view() =~= Seq::new(
        captures.len(),
        |k: int| anchor_match_rewritten(captures[k], selectors@.entries),
    ));
    let link = splice(inner.as_str(), &found, &written);
    let mut out = quote.clone();
    out.append(link.as_str());
    out.append(quote.as_str());
    *string = out;
}

} // verus!
