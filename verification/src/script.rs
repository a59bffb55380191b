//! Selectors in scripts.

use vstd::prelude::*;

use crate::escapes::{code_point, read_code_point};
use crate::html_attributes::{designation, Whitelist};
use crate::markup::{
    analyse_designated, analyse_markup, designated_occurrences, designated_rewritten,
    markup_occurrences, markup_rewritten, rewrite_designated, rewrite_markup,
};
use crate::occurrences::{lemma_noted_concat, noted_in, Occurrence};
use crate::ordered_map::Entry;
use crate::parse_selectors::{
    analyse_anchor_links, analyse_prefixed_selectors, analyse_string_of_arguments,
    analyse_string_of_tokens, anchor_occurrences, anchors_rewritten, argument_occurrences,
    arguments_rewritten, get_function_arguments, group, group_of, is_quote,
    prefixed_occurrences, prefixed_rewritten, rewrite_anchor_links, rewrite_prefixed_selectors,
    rewrite_string_of_arguments, rewrite_string_of_tokens, token_occurrences, tokens_rewritten,
};
use crate::regexes::{ESCAPED_JS_CHARS, JS_ARGUMENTS, JS_PROPERTIES, STRING_DELIMITED_BY_COMMA};
use crate::registry::{SelectorUsage, Selectors};
use crate::scan::{captures_of, find_all, splice, spliced, Capture, CaptureView};
use crate::style::{
    analyse_css, css_occurrences, css_rewritten, rewrite_css, single, whole_match, whole_of,
    Attributes,
};
use crate::text::{
    chars_of, found_at, remove_spaces, replace, replaced, same_text, starts_with, string_of, trim,
    trimmed, without_spaces,
};

verus! {

/// The character whose code point `digits` write, as a text, or the match as
/// it stands where they write none.
pub open spec fn decoded(capture: CaptureView, digits: Seq<char>, radix: nat) -> Seq<char> {
    match code_point(digits, radix) {
        Some(c) => seq![c],
        None => whole_of(capture),
    }
}

/// Reads the digits of `text` from `start` to `end` as an escape of the
/// match `capture`.
pub fn decode(capture: &Capture, text: &Vec<char>, start: usize, end: usize, radix: u32) -> (value:
    String)
    requires
        start <= end <= text@.len(),
        radix == 10 || radix == 16,
    ensures
        value@ == decoded(capture@, text@.subrange(start as int, end as int), radix as nat),
{
    match read_code_point(text, start, end, radix) {
        Some(c) => single(c),
        None => whole_match(capture),
    }
}

/// What an escape in a script or a link stands for: the character whose code
/// point is written in hexadecimal behind `%`, `\x` or `\u`. An escape whose
/// number is no code point stays as it is.
pub open spec fn js_escape_value(capture: CaptureView) -> Seq<char> {
    match capture.at(1) {
        Some(byte) => if byte.len() >= 1 {
            decoded(capture, byte.subrange(1, byte.len() as int), 16)
        } else {
            whole_of(capture)
        },
        None => match capture.at(2) {
            Some(short) => if short.len() >= 2 {
                decoded(capture, short.subrange(2, short.len() as int), 16)
            } else {
                whole_of(capture)
            },
            None => match capture.at(3) {
                Some(long) => if long.len() >= 2 {
                    decoded(capture, long.subrange(2, long.len() as int), 16)
                } else {
                    whole_of(capture)
                },
                None => match capture.at(4) {
                    Some(braced) => if braced.len() >= 4 {
                        decoded(capture, braced.subrange(3, braced.len() - 1), 16)
                    } else {
                        whole_of(capture)
                    },
                    None => whole_of(capture),
                },
            },
        },
    }
}

/// What the escapes of `text` stand for, match by match.
pub open spec fn js_escape_values(text: Seq<char>) -> Seq<Seq<char>> {
    let captures = captures_of(ESCAPED_JS_CHARS@, text);
    Seq::new(captures.len(), |k: int| js_escape_value(captures[k]))
}

/// `text` with each escape replaced by what it stands for.
pub open spec fn js_unescaped(text: Seq<char>) -> Seq<char> {
    spliced(text, captures_of(ESCAPED_JS_CHARS@, text), js_escape_values(text))
}

/// What an escape in a script or a link is replaced with.
pub fn js_escape(capture: &Capture) -> (value: String)
    ensures
        value@ == js_escape_value(capture@),
{
    match capture.at(1) {
        Some(byte) => {
            let chars = chars_of(byte.as_str());
            if chars.len() >= 1 {
                decode(capture, &chars, 1, chars.len(), 16)
            } else {
                whole_match(capture)
            }
        },
        None => match capture.at(2) {
            Some(short) => {
                let chars = chars_of(short.as_str());
                if chars.len() >= 2 {
                    decode(capture, &chars, 2, chars.len(), 16)
                } else {
                    whole_match(capture)
                }
            },
            None => match capture.at(3) {
                Some(long) => {
                    let chars = chars_of(long.as_str());
                    if chars.len() >= 2 {
                        decode(capture, &chars, 2, chars.len(), 16)
                    } else {
                        whole_match(capture)
                    }
                },
                None => match capture.at(4) {
                    Some(braced) => {
                        let chars = chars_of(braced.as_str());
                        if chars.len() >= 4 {
                            decode(capture, &chars, 3, chars.len() - 1, 16)
                        } else {
                            whole_match(capture)
                        }
                    },
                    None => whole_match(capture),
                },
            },
        },
    }
}

/// Replaces each escape of a script string by the character it stands for.
pub fn unescape_js_chars(js_string: &str) -> (unescaped: String)
    ensures
        unescaped@ == js_unescaped(js_string@),
{
    let found = find_all(ESCAPED_JS_CHARS, js_string);
    let ghost captures = found.deep_view();
    let mut values: Vec<String> = Vec::new();
    let mut k: usize = 0;
    while k < found.len()
        invariant
            captures == found.deep_view(),
            k <= found@.len(),
            values@.len() == k,
            forall|j: int| 0 <= j < k ==> (#[trigger] values@[j])@ == js_escape_value(captures[j]),
        decreases found@.len() - k,
    {
        assert(captures[k as int] == found@[k as int]@);
        values.push(js_escape(&found[k]));
        k = k + 1;
    }
    assert(values.deep_view() =~= js_escape_values(js_string@));
    splice(js_string, &found, &values)
}

/// The kinds of calls that take selectors, by what their arguments hold.
#[derive(Clone, Copy, Debug, PartialEq, Eq, Structural)]
pub enum Call {
    /// One selector string.
    Selector,
    /// One string of class names.
    ClassNames,
    /// One id.
    Id,
    /// The name of an attribute and its value.
    SetAttribute,
    /// A position and a piece of markup.
    InsertHtml,
    /// A link as the first argument.
    FirstLink,
    /// A link as the third argument.
    ThirdLink,
    /// Class names, one argument each.
    ClassArguments,
    /// Anything else.
    Other,
}

/// The kind of call that a function's name stands for.
pub open spec fn call_named(name: Seq<char>) -> Call {
    if name == ".querySelector"@ || name == ".querySelectorAll"@ || name == ".closest"@ || name
        == ".matches"@ {
        Call::Selector
    } else if name == ".getElementsByClassName"@ {
        Call::ClassNames
    } else if name == ".getElementById"@ {
        Call::Id
    } else if name == ".setAttribute"@ {
        Call::SetAttribute
    } else if name == ".insertAdjacentHTML"@ {
        Call::InsertHtml
    } else if name == "window.open"@ || name == "window.location.assign"@ || name
        == "window.location.replace"@ {
        Call::FirstLink
    } else if name == "history.pushState"@ || name == "history.replaceState"@ {
        Call::ThirdLink
    } else if name == ".classList.add"@ || name == ".classList.contains"@ || name
        == ".classList.remove"@ || name == ".classList.replace"@ || name == ".classList.toggle"@ {
        Call::ClassArguments
    } else {
        Call::Other
    }
}

/// Tells the kind of call that a function's name stands for.
pub fn classify_call(name: &str) -> (call: Call)
    ensures
        call == call_named(name@),
{
    if same_text(name, ".querySelector") || same_text(name, ".querySelectorAll") || same_text(
        name,
        ".closest",
    ) || same_text(name, ".matches") {
        Call::Selector
    } else if same_text(name, ".getElementsByClassName") {
        Call::ClassNames
    } else if same_text(name, ".getElementById") {
        Call::Id
    } else if same_text(name, ".setAttribute") {
        Call::SetAttribute
    } else if same_text(name, ".insertAdjacentHTML") {
        Call::InsertHtml
    } else if same_text(name, "window.open") || same_text(name, "window.location.assign")
        || same_text(name, "window.location.replace") {
        Call::FirstLink
    } else if same_text(name, "history.pushState") || same_text(name, "history.replaceState") {
        Call::ThirdLink
    } else if same_text(name, ".classList.add") || same_text(name, ".classList.contains")
        || same_text(name, ".classList.remove") || same_text(name, ".classList.replace")
        || same_text(name, ".classList.toggle") {
        Call::ClassArguments
    } else {
        Call::Other
    }
}

/// The arguments of a call as they are read: with their escapes replaced.
pub open spec fn call_arguments(capture: CaptureView) -> Seq<char> {
    js_unescaped(group(capture, 3))
}

/// A selector string with its doubled backslashes made single.
pub open spec fn collapsed(arguments: Seq<char>) -> Seq<char> {
    replaced(arguments, "\\\\"@, "\\"@)
}

/// Whether the arguments of a call start with a string.
pub open spec fn starts_quoted(arguments: Seq<char>) -> bool {
    arguments.len() > 0 && is_quote(arguments[0])
}

/// What a call adds when it is read. What its arguments hold follows from
/// the function that is called.
pub open spec fn js_argument_match_occurrences(
    capture: CaptureView,
    attributes: Attributes,
    depth: nat,
) -> Seq<Occurrence>
    decreases depth, 1nat, 0nat,
{
    let text = call_arguments(capture);
    let arguments = captures_of(STRING_DELIMITED_BY_COMMA@, text);
    let script = Some(SelectorUsage::Script);
    if capture.at(1) is None {
        Seq::empty()
    } else {
        match call_named(without_spaces(group(capture, 1))) {
            Call::Selector => if depth > 0 && starts_quoted(text) {
                css_occurrences(collapsed(text), attributes, (depth - 1) as nat)
            } else {
                Seq::empty()
            },
            Call::ClassNames => if capture.at(4) is Some {
                token_occurrences(text, "class"@, script)
            } else {
                Seq::empty()
            },
            Call::Id => if capture.at(4) is Some {
                token_occurrences(text, "id"@, script)
            } else {
                Seq::empty()
            },
            Call::SetAttribute => if arguments.len() >= 2 {
                match (
                    arguments[1].at(3),
                    designation(attributes, trimmed(group(arguments[0], 3))),
                ) {
                    (Some(value), Some(held)) => designated_occurrences(
                        held,
                        value,
                        attributes,
                        script,
                        depth,
                    ),
                    _ => Seq::empty(),
                }
            } else {
                Seq::empty()
            },
            Call::InsertHtml => if arguments.len() >= 2 {
                match arguments[1].at(3) {
                    Some(markup) => markup_occurrences(markup, attributes, depth),
                    None => Seq::empty(),
                }
            } else {
                Seq::empty()
            },
            Call::FirstLink => if arguments.len() >= 1 {
                anchor_occurrences(whole_of(arguments[0]))
            } else {
                Seq::empty()
            },
            Call::ThirdLink => if arguments.len() >= 3 {
                anchor_occurrences(whole_of(arguments[2]))
            } else {
                Seq::empty()
            },
            Call::ClassArguments => argument_occurrences(text, "class"@, script),
            Call::Other => Seq::empty(),
        }
    }
}

/// What the first `k` calls add when they are read.
pub open spec fn js_argument_occurrences_upto(
    captures: Seq<CaptureView>,
    attributes: Attributes,
    depth: nat,
    k: nat,
) -> Seq<Occurrence>
    decreases depth, 2nat, k,
{
    if k == 0 {
        Seq::empty()
    } else {
        js_argument_occurrences_upto(captures, attributes, depth, (k - 1) as nat)
            + js_argument_match_occurrences(captures[k - 1], attributes, depth)
    }
}

/// What the calls of a script add when they are read.
pub open spec fn js_argument_occurrences(text: Seq<char>, attributes: Attributes, depth: nat) -> Seq<
    Occurrence,
>
    decreases depth, 3nat, 0nat,
{
    let captures = captures_of(JS_ARGUMENTS@, text);
    js_argument_occurrences_upto(captures, attributes, depth, captures.len())
}

/// The kinds of properties that hold selectors, by what their values hold.
#[derive(Clone, Copy, Debug, PartialEq, Eq, Structural)]
pub enum Property {
    /// A piece of markup.
    Markup,
    /// A link.
    Link,
    /// An id.
    Id,
    /// Class names.
    ClassNames,
    /// Anything else.
    Other,
}

/// The kind of property that a name stands for.
pub open spec fn property_named(name: Seq<char>) -> Property {
    if name == ".innerHTML"@ || name == ".outerHTML"@ {
        Property::Markup
    } else if name == "window.location"@ || name == "window.location.href"@ || name
        == "window.location.hash"@ {
        Property::Link
    } else if name == ".id"@ {
        Property::Id
    } else if name == ".className"@ || found_at(name, ".classList"@, 0) {
        Property::ClassNames
    } else {
        Property::Other
    }
}

/// Tells the kind of property that a name stands for.
pub fn classify_property(name: &str) -> (property: Property)
    ensures
        property == property_named(name@),
{
    if same_text(name, ".innerHTML") || same_text(name, ".outerHTML") {
        Property::Markup
    } else if same_text(name, "window.location") || same_text(name, "window.location.href")
        || same_text(name, "window.location.hash") {
        Property::Link
    } else if same_text(name, ".id") {
        Property::Id
    } else if same_text(name, ".className") || starts_with(
        &chars_of(name),
        &chars_of(".classList"),
    ) {
        Property::ClassNames
    } else {
        Property::Other
    }
}

/// What the use of a property adds when it is read. What its value holds
/// follows from the property.
pub open spec fn js_property_match_occurrences(
    capture: CaptureView,
    attributes: Attributes,
    depth: nat,
) -> Seq<Occurrence>
    decreases depth, 1nat, 0nat,
{
    let value = js_unescaped(group(capture, 4));
    let script = Some(SelectorUsage::Script);
    if capture.at(1) is None {
        Seq::empty()
    } else {
        match property_named(group(capture, 1)) {
            Property::Markup => markup_occurrences(value, attributes, depth),
            Property::Link => anchor_occurrences(value),
            Property::Id => token_occurrences(value, "id"@, script),
            Property::ClassNames => token_occurrences(value, "class"@, script),
            Property::Other => Seq::empty(),
        }
    }
}

/// What the first `k` uses of properties add when they are read.
pub open spec fn js_property_occurrences_upto(
    captures: Seq<CaptureView>,
    attributes: Attributes,
    depth: nat,
    k: nat,
) -> Seq<Occurrence>
    decreases depth, 2nat, k,
{
    if k == 0 {
        Seq::empty()
    } else {
        js_property_occurrences_upto(captures, attributes, depth, (k - 1) as nat)
            + js_property_match_occurrences(captures[k - 1], attributes, depth)
    }
}

/// What the uses of properties in a script add when they are read.
pub open spec fn js_property_occurrences(text: Seq<char>, attributes: Attributes, depth: nat) -> Seq<
    Occurrence,
>
    decreases depth, 3nat, 0nat,
{
    let captures = captures_of(JS_PROPERTIES@, text);
    js_property_occurrences_upto(captures, attributes, depth, captures.len())
}

/// What a script adds when it is read: its calls, its uses of properties,
/// and the names marked for this crate.
pub open spec fn js_occurrences(text: Seq<char>, attributes: Attributes, depth: nat) -> Seq<
    Occurrence,
>
    decreases depth, 4nat, 0nat,
{
    js_argument_occurrences(text, attributes, depth) + js_property_occurrences(
        text,
        attributes,
        depth,
    ) + prefixed_occurrences(text)
}

/// The arguments of a call, rewritten as the function that is called asks.
pub open spec fn js_arguments_written(
    capture: CaptureView,
    entries: Seq<Entry>,
    attributes: Attributes,
    depth: nat,
) -> Seq<char>
    decreases depth, 1nat, 0nat,
{
    let text = call_arguments(capture);
    let arguments = captures_of(STRING_DELIMITED_BY_COMMA@, text);
    match call_named(without_spaces(group(capture, 1))) {
        Call::Selector => if depth > 0 && starts_quoted(text) {
            css_rewritten(collapsed(text), entries, attributes, (depth - 1) as nat)
        } else {
            collapsed(text)
        },
        Call::ClassNames => if capture.at(4) is Some {
            tokens_rewritten(text, entries, "class"@)
        } else {
            text
        },
        Call::Id => if capture.at(4) is Some {
            tokens_rewritten(text, entries, "id"@)
        } else {
            text
        },
        Call::SetAttribute => if arguments.len() >= 2 {
            match (arguments[1].at(3), designation(attributes, trimmed(group(arguments[0], 3)))) {
                (Some(value), Some(held)) => replaced(
                    text,
                    value,
                    designated_rewritten(held, value, entries, attributes, depth),
                ),
                _ => text,
            }
        } else {
            text
        },
        Call::InsertHtml => if arguments.len() >= 2 {
            match arguments[1].at(3) {
                Some(markup) => replaced(
                    text,
                    markup,
                    markup_rewritten(markup, entries, attributes, depth),
                ),
                None => text,
            }
        } else {
            text
        },
        Call::FirstLink => if arguments.len() >= 1 {
            replaced(
                text,
                whole_of(arguments[0]),
                anchors_rewritten(whole_of(arguments[0]), entries),
            )
        } else {
            text
        },
        Call::ThirdLink => if arguments.len() >= 3 {
            replaced(
                text,
                whole_of(arguments[2]),
                anchors_rewritten(whole_of(arguments[2]), entries),
            )
        } else {
            text
        },
        Call::ClassArguments => arguments_rewritten(text, entries, "class"@),
        Call::Other => text,
    }
}

/// What is written in the place of a call: the function, the bracket, and
/// the arguments rewritten. A comment stays as it is.
pub open spec fn js_argument_match_rewritten(
    capture: CaptureView,
    entries: Seq<Entry>,
    attributes: Attributes,
    depth: nat,
) -> Seq<char>
    decreases depth, 2nat, 0nat,
{
    if capture.at(1) is None {
        whole_of(capture)
    } else {
        group(capture, 1) + group(capture, 2) + js_arguments_written(
            capture,
            entries,
            attributes,
            depth,
        )
    }
}

/// What is written in the places of the first `k` calls.
pub open spec fn js_argument_rewritings(
    captures: Seq<CaptureView>,
    entries: Seq<Entry>,
    attributes: Attributes,
    depth: nat,
    k: nat,
) -> Seq<Seq<char>>
    decreases depth, 3nat, k,
{
    if k == 0 {
        Seq::empty()
    } else {
        js_argument_rewritings(captures, entries, attributes, depth, (k - 1) as nat).push(
            js_argument_match_rewritten(captures[k - 1], entries, attributes, depth),
        )
    }
}

/// A script with its calls rewritten.
pub open spec fn js_arguments_rewritten(
    text: Seq<char>,
    entries: Seq<Entry>,
    attributes: Attributes,
    depth: nat,
) -> Seq<char>
    decreases depth, 4nat, 0nat,
{
    let captures = captures_of(JS_ARGUMENTS@, text);
    spliced(
        text,
        captures,
        js_argument_rewritings(captures, entries, attributes, depth, captures.len()),
    )
}

/// What is written in the place of the use of a property: the property, the
/// operator, and the value rewritten. A comment stays as it is.
pub open spec fn js_property_match_rewritten(
    capture: CaptureView,
    entries: Seq<Entry>,
    attributes: Attributes,
    depth: nat,
) -> Seq<char>
    decreases depth, 2nat, 0nat,
{
    let value = js_unescaped(group(capture, 4));
    if capture.at(1) is None {
        whole_of(capture)
    } else {
        group(capture, 1) + group(capture, 3) + match property_named(group(capture, 1)) {
            Property::Markup => markup_rewritten(value, entries, attributes, depth),
            Property::Link => anchors_rewritten(value, entries),
            Property::Id => tokens_rewritten(value, entries, "id"@),
            Property::ClassNames => tokens_rewritten(value, entries, "class"@),
            Property::Other => value,
        }
    }
}

/// What is written in the places of the first `k` uses of properties.
pub open spec fn js_property_rewritings(
    captures: Seq<CaptureView>,
    entries: Seq<Entry>,
    attributes: Attributes,
    depth: nat,
    k: nat,
) -> Seq<Seq<char>>
    decreases depth, 3nat, k,
{
    if k == 0 {
        Seq::empty()
    } else {
        js_property_rewritings(captures, entries, attributes, depth, (k - 1) as nat).push(
            js_property_match_rewritten(captures[k - 1], entries, attributes, depth),
        )
    }
}

/// A script with its uses of properties rewritten.
pub open spec fn js_properties_rewritten(
    text: Seq<char>,
    entries: Seq<Entry>,
    attributes: Attributes,
    depth: nat,
) -> Seq<char>
    decreases depth, 4nat, 0nat,
{
    let captures = captures_of(JS_PROPERTIES@, text);
    spliced(
        text,
        captures,
        js_property_rewritings(captures, entries, attributes, depth, captures.len()),
    )
}

/// A script rewritten: first its calls, then its uses of properties, then
/// the names marked for this crate.
pub open spec fn js_rewritten(
    text: Seq<char>,
    entries: Seq<Entry>,
    attributes: Attributes,
    depth: nat,
) -> Seq<char>
    decreases depth, 5nat, 0nat,
{
    prefixed_rewritten(
        js_properties_rewritten(
            js_arguments_rewritten(text, entries, attributes, depth),
            entries,
            attributes,
            depth,
        ),
        entries,
    )
}

/// Tells whether the arguments of a call start with a string.
pub fn is_quoted_start(arguments: &Vec<char>) -> (quoted: bool)
    ensures
        quoted == starts_quoted(arguments@),
{
    arguments.len() > 0 && (arguments[0] == '\'' || arguments[0] == '"' || arguments[0] == '`')
}

/// Makes the doubled backslashes of a selector string single.
pub fn collapse(arguments: &Vec<char>) -> (out: String)
    ensures
        out@ == collapsed(arguments@),
{
    string_of(&replace(arguments, &chars_of("\\\\"), &chars_of("\\")))
}

/// Puts `to` in the place of every `from` in `text`.
pub fn replace_text(text: &str, from: &str, to: &str) -> (out: String)
    ensures
        out@ == replaced(text@, from@, to@),
{
    string_of(&replace(&chars_of(text), &chars_of(from), &chars_of(to)))
}

/// The name of the function of a call, without the white space in it.
pub fn call_name(capture: &Capture) -> (name: String)
    ensures
        name@ == without_spaces(group(capture@, 1)),
{
    string_of(&remove_spaces(&chars_of(group_of(capture, 1).as_str())))
}

/// Reads one call.
pub fn analyse_js_argument(
    capture: &Capture,
    selectors: &mut Selectors,
    whitelist: &Whitelist,
    depth: usize,
)
    ensures
        final(selectors)@ == noted_in(
            old(selectors)@,
            js_argument_match_occurrences(capture@, whitelist@, depth as nat),
        ),
    decreases depth, 1nat, 0nat,
{
    if capture.at(1).is_none() {
        return ;
    }
    let text = unescape_js_chars(group_of(capture, 3).as_str());
    let script = Some(SelectorUsage::Script);
    match classify_call(call_name(capture).as_str()) {
        Call::Selector => {
            let chars = chars_of(text.as_str());
            if depth > 0 && is_quoted_start(&chars) {
                let selector = collapse(&chars);
                analyse_css(selector.as_str(), selectors, whitelist, depth - 1);
            }
        },
        Call::ClassNames => {
            if capture.at(4).is_some() {
                let mut names = text;
                analyse_string_of_tokens(&mut names, selectors, "class", script);
            }
        },
        Call::Id => {
            if capture.at(4).is_some() {
                let mut names = text;
                analyse_string_of_tokens(&mut names, selectors, "id", script);
            }
        },
        Call::SetAttribute => {
            let arguments = get_function_arguments(text.as_str());
            if arguments.len() >= 2 {
                assert(arguments.deep_view()[0] == arguments@[0]@);
                assert(arguments.deep_view()[1] == arguments@[1]@);
                let attribute = trim(&chars_of(group_of(&arguments[0], 3).as_str()));
                match (arguments[1].at(3), whitelist.lookup(&attribute)) {
                    (Some(value), Some(held)) => {
                        analyse_designated(
                            held,
                            value.as_str(),
                            selectors,
                            whitelist,
                            script,
                            depth,
                        );
                    },
                    _ => {},
                }
            }
        },
        Call::InsertHtml => {
            let arguments = get_function_arguments(text.as_str());
            if arguments.len() >= 2 {
                assert(arguments.deep_view()[1] == arguments@[1]@);
                match arguments[1].at(3) {
                    Some(markup) => {
                        analyse_markup(markup.as_str(), selectors, whitelist, depth);
                    },
                    None => {},
                }
            }
        },
        Call::FirstLink => {
            let arguments = get_function_arguments(text.as_str());
            if arguments.len() >= 1 {
                assert(arguments.deep_view()[0] == arguments@[0]@);
                let mut link = whole_match(&arguments[0]);
                analyse_anchor_links(&mut link, selectors);
            }
        },
        Call::ThirdLink => {
            let arguments = get_function_arguments(text.as_str());
            if arguments.len() >= 3 {
                assert(arguments.deep_view()[2] == arguments@[2]@);
                let mut link = whole_match(&arguments[2]);
                analyse_anchor_links(&mut link, selectors);
            }
        },
        Call::ClassArguments => {
            analyse_string_of_arguments(text.as_str(), selectors, "class", script);
        },
        Call::Other => {},
    }
}

/// Reads the calls of a script.
pub fn analyse_js_arguments(
    file_string: &str,
    selectors: &mut Selectors,
    whitelist: &Whitelist,
    depth: usize,
)
    ensures
        final(selectors)@ == noted_in(
            old(selectors)@,
            js_argument_occurrences(file_string@, whitelist@, depth as nat),
        ),
    decreases depth, 3nat, 0nat,
{
    let found = find_all(JS_ARGUMENTS, file_string);
    let ghost captures = found.deep_view();
    let ghost start = selectors@;
    let mut k: usize = 0;
    while k < found.len()
        invariant
            captures == found.deep_view(),
            k <= found@.len(),
            selectors@ == noted_in(
                start,
                js_argument_occurrences_upto(captures, whitelist@, depth as nat, k as nat),
            ),
        decreases found@.len() - k,
    {
        assert(captures[k as int] == found@[k as int]@);
        proof {
            lemma_noted_concat(
                start.entries,
                js_argument_occurrences_upto(captures, whitelist@, depth as nat, k as nat),
                js_argument_match_occurrences(captures[k as int], whitelist@, depth as nat),
            );
        }
        analyse_js_argument(&found[k], selectors, whitelist, depth);
        k = k + 1;
    }
}

/// Reads one use of a property.
pub fn analyse_js_property(
    capture: &Capture,
    selectors: &mut Selectors,
    whitelist: &Whitelist,
    depth: usize,
)
    ensures
        final(selectors)@ == noted_in(
            old(selectors)@,
            js_property_match_occurrences(capture@, whitelist@, depth as nat),
        ),
    decreases depth, 1nat, 0nat,
{
    if capture.at(1).is_none() {
        return ;
    }
    let mut value = unescape_js_chars(group_of(capture, 4).as_str());
    let script = Some(SelectorUsage::Script);
    match classify_property(group_of(capture, 1).as_str()) {
        Property::Markup => {
            analyse_markup(value.as_str(), selectors, whitelist, depth);
        },
        Property::Link => {
            analyse_anchor_links(&mut value, selectors);
        },
        Property::Id => {
            analyse_string_of_tokens(&mut value, selectors, "id", script);
        },
        Property::ClassNames => {
            analyse_string_of_tokens(&mut value, selectors, "class", script);
        },
        Property::Other => {},
    }
}

/// Reads the uses of properties in a script.
pub fn analyse_js_properties(
    file_string: &str,
    selectors: &mut Selectors,
    whitelist: &Whitelist,
    depth: usize,
)
    ensures
        final(selectors)@ == noted_in(
            old(selectors)@,
            js_property_occurrences(file_string@, whitelist@, depth as nat),
        ),
    decreases depth, 3nat, 0nat,
{
    let found = find_all(JS_PROPERTIES, file_string);
    let ghost captures = found.deep_view();
    let ghost start = selectors@;
    let mut k: usize = 0;
    while k < found.len()
        invariant
            captures == found.deep_view(),
            k <= found@.len(),
            selectors@ == noted_in(
                start,
                js_property_occurrences_upto(captures, whitelist@, depth as nat, k as nat),
            ),
        decreases found@.len() - k,
    {
        assert(captures[k as int] == found@[k as int]@);
        proof {
            lemma_noted_concat(
                start.entries,
                js_property_occurrences_upto(captures, whitelist@, depth as nat, k as nat),
                js_property_match_occurrences(captures[k as int], whitelist@, depth as nat),
            );
        }
        analyse_js_property(&found[k], selectors, whitelist, depth);
        k = k + 1;
    }
}

/// Reads a script.
pub fn analyse_js(file_string: &str, selectors: &mut Selectors, whitelist: &Whitelist, depth: usize)
    ensures
        final(selectors)@ == noted_in(
            old(selectors)@,
            js_occurrences(file_string@, whitelist@, depth as nat),
        ),
    decreases depth, 4nat, 0nat,
{
    let ghost start = selectors@.entries;
    let ghost first = js_argument_occurrences(file_string@, whitelist@, depth as nat);
    let ghost second = js_property_occurrences(file_string@, whitelist@, depth as nat);
    let ghost third = prefixed_occurrences(file_string@);
    analyse_js_arguments(file_string, selectors, whitelist, depth);
    analyse_js_properties(file_string, selectors, whitelist, depth);
    analyse_prefixed_selectors(file_string, selectors);
    proof {
        lemma_noted_concat(start, first, second);
        lemma_noted_concat(start, first + second, third);
    }
}

/// Rewrites the arguments of one call as the function that is called asks.
pub fn rewrite_js_argument_text(
    capture: &Capture,
    selectors: &Selectors,
    whitelist: &Whitelist,
    depth: usize,
) -> (written: String)
    ensures
        written@ == js_arguments_written(capture@, selectors@.entries, whitelist@, depth as nat),
    decreases depth, 1nat, 0nat,
{
    let mut text = unescape_js_chars(group_of(capture, 3).as_str());
    match classify_call(call_name(capture).as_str()) {
        Call::Selector => {
            let chars = chars_of(text.as_str());
            let mut selector = collapse(&chars);
            if depth > 0 && is_quoted_start(&chars) {
                rewrite_css(&mut selector, selectors, whitelist, depth - 1);
            }
            selector
        },
        Call::ClassNames => {
            if capture.at(4).is_some() {
                rewrite_string_of_tokens(&mut text, selectors, "class");
            }
            text
        },
        Call::Id => {
            if capture.at(4).is_some() {
                rewrite_string_of_tokens(&mut text, selectors, "id");
            }
            text
        },
        Call::SetAttribute => {
            let arguments = get_function_arguments(text.as_str());
            if arguments.len() >= 2 {
                assert(arguments.deep_view()[0] == arguments@[0]@);
                assert(arguments.deep_view()[1] == arguments@[1]@);
                let attribute = trim(&chars_of(group_of(&arguments[0], 3).as_str()));
                match (arguments[1].at(3), whitelist.lookup(&attribute)) {
                    (Some(value), Some(held)) => {
                        let new_value = rewrite_designated(
                            held,
                            value.as_str(),
                            selectors,
                            whitelist,
                            depth,
                        );
                        replace_text(text.as_str(), value.as_str(), new_value.as_str())
                    },
                    _ => text,
                }
            } else {
                text
            }
        },
        Call::InsertHtml => {
            let arguments = get_function_arguments(text.as_str());
            if arguments.len() >= 2 {
                assert(arguments.deep_view()[1] == arguments@[1]@);
                match arguments[1].at(3) {
                    Some(markup) => {
                        let new_markup = rewrite_markup(
                            markup.as_str(),
                            selectors,
                            whitelist,
                            depth,
                        );
                        replace_text(text.as_str(), markup.as_str(), new_markup.as_str())
                    },
                    None => text,
                }
            } else {
                text
            }
        },
        Call::FirstLink => {
            let arguments = get_function_arguments(text.as_str());
            if arguments.len() >= 1 {
                assert(arguments.deep_view()[0] == arguments@[0]@);
                let link = whole_match(&arguments[0]);
                let mut new_link = link.clone();
                rewrite_anchor_links(&mut new_link, selectors);
                replace_text(text.as_str(), link.as_str(), new_link.as_str())
            } else {
                text
            }
        },
        Call::ThirdLink => {
            let arguments = get_function_arguments(text.as_str());
            if arguments.len() >= 3 {
                assert(arguments.deep_view()[2] == arguments@[2]@);
                let link = whole_match(&arguments[2]);
                let mut new_link = link.clone();
                rewrite_anchor_links(&mut new_link, selectors);
                replace_text(text.as_str(), link.as_str(), new_link.as_str())
            } else {
                text
            }
        },
        Call::ClassArguments => {
            rewrite_string_of_arguments(&mut text, selectors, "class");
            text
        },
        Call::Other => text,
    }
}

/// What is written in the place of one call.
pub fn rewrite_js_argument(
    capture: &Capture,
    selectors: &Selectors,
    whitelist: &Whitelist,
    depth: usize,
) -> (written: String)
    ensures
        written@ == js_argument_match_rewritten(
            capture@,
            selectors@.entries,
            whitelist@,
            depth as nat,
        ),
    decreases depth, 2nat, 0nat,
{
    if capture.at(1).is_none() {
        return whole_match(capture);
    }
    let text = rewrite_js_argument_text(capture, selectors, whitelist, depth);
    let mut out = group_of(capture, 1);
    out.append(group_of(capture, 2).as_str());
    out.append(text.as_str());
    out
}

/// Rewrites the calls of a script.
pub fn rewrite_js_arguments(
    file_string: &mut String,
    selectors: &Selectors,
    whitelist: &Whitelist,
    depth: usize,
)
    ensures
        final(file_string)@ == js_arguments_rewritten(
            old(file_string)@,
            selectors@.entries,
            whitelist@,
            depth as nat,
        ),
    decreases depth, 4nat, 0nat,
{
    let found = find_all(JS_ARGUMENTS, file_string.as_str());
    let ghost captures = found.deep_view();
    let mut written: Vec<String> = Vec::new();
    let mut k: usize = 0;
    assert(written.deep_view() =~= Seq::<Seq<char>>::empty());
    while k < found.len()
        invariant
            captures == found.deep_view(),
            k <= found@.len(),
            written@.len() == k,
            written.deep_view() == js_argument_rewritings(
                captures,
                selectors@.entries,
                whitelist@,
                depth as nat,
                k as nat,
            ),
        decreases found@.len() - k,
    {
        assert(captures[k as int] == found@[k as int]@);
        let ghost before = written.deep_view();
        let next = rewrite_js_argument(&found[k], selectors, whitelist, depth);
        let ghost text = next@;
        written.push(next);
        assert(written.deep_view() =~= before.push(text));
        k = k + 1;
    }
    *file_string = splice(file_string.as_str(), &found, &written);
}

/// What is written in the place of one use of a property.
pub fn rewrite_js_property(
    capture: &Capture,
    selectors: &Selectors,
    whitelist: &Whitelist,
    depth: usize,
) -> (written: String)
    ensures
        written@ == js_property_match_rewritten(
            capture@,
            selectors@.entries,
            whitelist@,
            depth as nat,
        ),
    decreases depth, 2nat, 0nat,
{
    if capture.at(1).is_none() {
        return whole_match(capture);
    }
    let name = group_of(capture, 1);
    let mut value = unescape_js_chars(group_of(capture, 4).as_str());
    match classify_property(name.as_str()) {
        Property::Markup => {
            value = rewrite_markup(value.as_str(), selectors, whitelist, depth);
        },
        Property::Link => {
            rewrite_anchor_links(&mut value, selectors);
        },
        Property::Id => {
            rewrite_string_of_tokens(&mut value, selectors, "id");
        },
        Property::ClassNames => {
            rewrite_string_of_tokens(&mut value, selectors, "class");
        },
        Property::Other => {},
    }
    let mut out = name;
    out.append(group_of(capture, 3).as_str());
    out.append(value.as_str());
    out
}

/// Rewrites the uses of properties in a script.
pub fn rewrite_js_properties(
    file_string: &mut String,
    selectors: &Selectors,
    whitelist: &Whitelist,
    depth: usize,
)
    ensures
        final(file_string)@ == js_properties_rewritten(
            old(file_string)@,
            selectors@.entries,
            whitelist@,
            depth as nat,
        ),
    decreases depth, 4nat, 0nat,
{
    let found = find_all(JS_PROPERTIES, file_string.as_str());
    let ghost captures = found.deep_view();
    let mut written: Vec<String> = Vec::new();
    let mut k: usize = 0;
    assert(written.deep_view() =~= Seq::<Seq<char>>::empty());
    while k < found.len()
        invariant
            captures == found.deep_view(),
            k <= found@.len(),
            written@.len() == k,
            written.deep_view() == js_property_rewritings(
                captures,
                selectors@.entries,
                whitelist@,
                depth as nat,
                k as nat,
            ),
        decreases found@.len() - k,
    {
        assert(captures[k as int] == found@[k as int]@);
        let ghost before = written.deep_view();
        let next = rewrite_js_property(&found[k], selectors, whitelist, depth);
        let ghost text = next@;
        written.push(next);
        assert(written.deep_view() =~= before.push(text));
        k = k + 1;
    }
    *file_string = splice(file_string.as_str(), &found, &written);
}

/// Rewrites a script.
pub fn rewrite_js(file_string: &mut String, selectors: &Selectors, whitelist: &Whitelist, depth: usize)
    ensures
        final(file_string)@ == js_rewritten(
            old(file_string)@,
            selectors@.entries,
            whitelist@,
            depth as nat,
        ),
    decreases depth, 5nat, 0nat,
{
    rewrite_js_arguments(file_string, selectors, whitelist, depth);
    rewrite_js_properties(file_string, selectors, whitelist, depth);
    rewrite_prefixed_selectors(file_string, selectors);
}

} // verus!
