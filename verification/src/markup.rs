//! Selectors in markup.

use vstd::prelude::*;

use crate::html_attributes::{designation, Designation, Whitelist};
use crate::named_char_refs::{entity, entity_value};
use crate::occurrences::{lemma_noted_concat, noted_in, Occurrence};
use crate::ordered_map::Entry;
use crate::parse_selectors::{
    analyse_anchor_links, analyse_prefixed_selectors, analyse_string_of_tokens,
    anchor_occurrences, anchors_rewritten, group, group_of, prefixed_occurrences,
    prefixed_rewritten, rewrite_anchor_links, rewrite_prefixed_selectors,
    rewrite_string_of_tokens, token_occurrences, tokens_rewritten,
};
use crate::regexes::{
    ESCAPED_HTML_CHARS, HTML_ATTRIBUTES, HTML_SCRIPT_ELEMENT, HTML_STYLE_ELEMENT,
};
use crate::registry::{SelectorUsage, Selectors};
use crate::scan::{captures_of, find_all, splice, spliced, Capture, CaptureView};
use crate::script::{analyse_js, decode, decoded, js_occurrences, js_rewritten, rewrite_js};
use crate::style::{
    analyse_css, analyse_css_functions, css_function_occurrences, css_functions_rewritten,
    css_occurrences, css_rewritten, rewrite_css, rewrite_css_functions, single, whole_match,
    whole_of, Attributes,
};
use crate::text::{
    chars_of, contains, contains_text, found_at, lowered, replace, replaced, slice_of,
    starts_with, string_of, to_lower,
};

verus! {

/// A reference that is not on the list, with its `;` and its `&` written as
/// escapes of a style sheet, so that it reads as part of a name.
pub open spec fn escaped_reference(name: Seq<char>) -> Seq<char> {
    replaced(replaced(name, ";"@, "\\3B"@), "&"@, "\\26"@)
}

/// What a character reference stands for: the character with the code point
/// written in it, or what its name stands for. A reference whose number is
/// no code point stays as it is.
pub open spec fn html_escape_value(capture: CaptureView) -> Seq<char> {
    match capture.at(1) {
        Some(hex) => if hex.len() >= 4 {
            decoded(capture, hex.subrange(3, hex.len() - 1), 16)
        } else {
            whole_of(capture)
        },
        None => match capture.at(2) {
            Some(decimal) => if decimal.len() >= 3 {
                decoded(capture, decimal.subrange(2, decimal.len() - 1), 10)
            } else {
                whole_of(capture)
            },
            None => match capture.at(3) {
                Some(name) => match entity_value(name) {
                    Some(value) => value,
                    None => escaped_reference(name),
                },
                None => whole_of(capture),
            },
        },
    }
}

/// What the references of `text` stand for, match by match.
pub open spec fn html_escape_values(text: Seq<char>) -> Seq<Seq<char>> {
    let captures = captures_of(ESCAPED_HTML_CHARS@, text);
    Seq::new(captures.len(), |k: int| html_escape_value(captures[k]))
}

/// `text` with each character reference replaced by what it stands for.
pub open spec fn html_unescaped(text: Seq<char>) -> Seq<char> {
    spliced(text, captures_of(ESCAPED_HTML_CHARS@, text), html_escape_values(text))
}

/// What a character reference is replaced with.
pub fn html_escape(capture: &Capture) -> (value: String)
    ensures
        value@ == html_escape_value(capture@),
{
    match capture.at(1) {
        Some(hex) => {
            let chars = chars_of(hex.as_str());
            if chars.len() >= 4 {
                decode(capture, &chars, 3, chars.len() - 1, 16)
            } else {
                whole_match(capture)
            }
        },
        None => match capture.at(2) {
            Some(decimal) => {
                let chars = chars_of(decimal.as_str());
                if chars.len() >= 3 {
                    decode(capture, &chars, 2, chars.len() - 1, 10)
                } else {
                    whole_match(capture)
                }
            },
            None => match capture.at(3) {
                Some(name) => match entity(name.as_str()) {
                    Some(value) => value,
                    None => {
                        let chars = chars_of(name.as_str());
                        let first = replace(&chars, &chars_of(";"), &chars_of("\\3B"));
                        string_of(&replace(&first, &chars_of("&"), &chars_of("\\26")))
                    },
                },
                None => whole_match(capture),
            },
        },
    }
}

/// Replaces each character reference of a piece of markup by what it stands
/// for.
pub fn unescape_html_chars(substring: &str) -> (unescaped: String)
    ensures
        unescaped@ == html_unescaped(substring@),
{
    let found = find_all(ESCAPED_HTML_CHARS, substring);
    let ghost captures = found.deep_view();
    let mut values: Vec<String> = Vec::new();
    let mut k: usize = 0;
    while k < found.len()
        invariant
            captures == found.deep_view(),
            k <= found@.len(),
            values@.len() == k,
            forall|j: int|
                0 <= j < k ==> (#[trigger] values@[j])@ == html_escape_value(captures[j]),
        decreases found@.len() - k,
    {
        assert(captures[k as int] == found@[k as int]@);
        values.push(html_escape(&found[k]));
        k = k + 1;
    }
    assert(values.deep_view() =~= html_escape_values(substring@));
    splice(substring, &found, &values)
}

/// The first place from `i` on at which `c` stands in `text`.
pub open spec fn first_index_from(text: Seq<char>, c: char, i: int) -> Option<int>
    decreases text.len() - i,
{
    if i < 0 || i >= text.len() {
        None
    } else if text[i] == c {
        Some(i)
    } else {
        first_index_from(text, c, i + 1)
    }
}

/// A `code` element taken apart: what stands in its opening tag behind the
/// name, and what follows the tag.
pub open spec fn code_tag(whole: Seq<char>) -> Option<(Seq<char>, Seq<char>)> {
    if found_at(whole, "<code"@, 0) {
        match first_index_from(whole, '>', "<code"@.len() as int) {
            Some(i) => Some(
                (
                    whole.subrange("<code"@.len() as int, i),
                    whole.subrange(i + 1, whole.len() as int),
                ),
            ),
            None => None,
        }
    } else {
        None
    }
}

/// Takes a `code` element apart.
pub fn split_code_tag(whole: &str) -> (parts: Option<(String, String)>)
    ensures
        match parts {
            Some((tag, rest)) => code_tag(whole@) == Some((tag@, rest@)),
            None => code_tag(whole@) is None,
        },
{
    let chars = chars_of(whole);
    let name = chars_of("<code");
    if !starts_with(&chars, &name) {
        return None;
    }
    let mut i: usize = name.len();
    while i < chars.len()
        invariant
            chars@ == whole@,
            name@ == "<code"@,
            found_at(chars@, name@, 0),
            name@.len() <= i <= chars@.len(),
            first_index_from(chars@, '>', name@.len() as int) == first_index_from(
                chars@,
                '>',
                i as int,
            ),
        decreases chars@.len() - i,
    {
        if chars[i] == '>' {
            assert(first_index_from(chars@, '>', i as int) == Some(i as int));
            return Some((slice_of(&chars, name.len(), i), slice_of(&chars, i + 1, chars.len())));
        }
        i = i + 1;
    }
    None
}

/// The kind of place that the names of an attribute are met in: the one
/// given, or markup where none is given.
pub open spec fn token_usage(held: Designation, usage: Option<SelectorUsage>) -> Option<
    SelectorUsage,
> {
    match usage {
        Some(place) => Some(place),
        None => if held == Designation::Id {
            Some(SelectorUsage::MarkupId)
        } else {
            Some(SelectorUsage::MarkupClass)
        },
    }
}

/// What a value adds when it is read as the attribute asks. Selector
/// strings and scripts nested deeper than `depth` allows add nothing.
pub open spec fn designated_occurrences(
    held: Designation,
    value: Seq<char>,
    attributes: Attributes,
    usage: Option<SelectorUsage>,
    depth: nat,
) -> Seq<Occurrence>
    decreases depth, 0nat, 0nat,
{
    match held {
        Designation::Class => token_occurrences(value, "class"@, token_usage(held, usage)),
        Designation::Id => token_occurrences(value, "id"@, token_usage(held, usage)),
        Designation::Selector => if depth > 0 {
            css_occurrences(value, attributes, (depth - 1) as nat)
        } else {
            Seq::empty()
        },
        Designation::Style => css_function_occurrences(value),
        Designation::Script => if depth > 0 {
            js_occurrences(value, attributes, (depth - 1) as nat)
        } else {
            Seq::empty()
        },
        Designation::Anchor => anchor_occurrences(value),
        Designation::Unknown => Seq::empty(),
    }
}

/// What a piece of markup inside a script adds when it is read: as a whole
/// document where it holds the end of a body, and else for its attributes
/// alone. Markup nested deeper than `depth` allows adds nothing.
pub open spec fn markup_occurrences(markup: Seq<char>, attributes: Attributes, depth: nat) -> Seq<
    Occurrence,
>
    decreases depth, 0nat, 0nat,
{
    if depth == 0 {
        Seq::empty()
    } else if contains_text(markup, "</body>"@) {
        html_occurrences(markup, attributes, Some(SelectorUsage::Script), (depth - 1) as nat)
    } else {
        html_attribute_occurrences(
            markup,
            attributes,
            Some(SelectorUsage::Script),
            (depth - 1) as nat,
        )
    }
}

/// What one match of the attribute pattern adds when it is read. A `code`
/// element is read for the attributes of its opening tag only; comments and
/// the other elements that match as a whole add nothing; an attribute adds
/// what its value holds, if it is on the list.
pub open spec fn html_attribute_match_occurrences(
    capture: CaptureView,
    attributes: Attributes,
    usage: Option<SelectorUsage>,
    depth: nat,
) -> Seq<Occurrence>
    decreases depth, 1nat, 0nat,
{
    if capture.at(1) is None {
        match code_tag(whole_of(capture)) {
            Some(parts) => if depth > 0 {
                html_attribute_occurrences(parts.0, attributes, usage, (depth - 1) as nat)
            } else {
                Seq::empty()
            },
            None => Seq::empty(),
        }
    } else {
        match designation(attributes, lowered(group(capture, 1))) {
            Some(held) => designated_occurrences(
                held,
                html_unescaped(group(capture, 4)),
                attributes,
                usage,
                depth,
            ),
            None => Seq::empty(),
        }
    }
}

/// What the first `k` matches of the attribute pattern add.
pub open spec fn html_attribute_occurrences_upto(
    captures: Seq<CaptureView>,
    attributes: Attributes,
    usage: Option<SelectorUsage>,
    depth: nat,
    k: nat,
) -> Seq<Occurrence>
    decreases depth, 2nat, k,
{
    if k == 0 {
        Seq::empty()
    } else {
        html_attribute_occurrences_upto(captures, attributes, usage, depth, (k - 1) as nat)
            + html_attribute_match_occurrences(captures[k - 1], attributes, usage, depth)
    }
}

/// What the attributes of a piece of markup add when they are read.
pub open spec fn html_attribute_occurrences(
    text: Seq<char>,
    attributes: Attributes,
    usage: Option<SelectorUsage>,
    depth: nat,
) -> Seq<Occurrence>
    decreases depth, 3nat, 0nat,
{
    let captures = captures_of(HTML_ATTRIBUTES@, text);
    html_attribute_occurrences_upto(captures, attributes, usage, depth, captures.len())
}

/// What a script element adds when it is read: what its script adds. A
/// script nested deeper than `depth` allows adds nothing.
pub open spec fn html_script_match_occurrences(
    capture: CaptureView,
    attributes: Attributes,
    depth: nat,
) -> Seq<Occurrence>
    decreases depth, 1nat, 0nat,
{
    if depth > 0 {
        js_occurrences(group(capture, 2), attributes, (depth - 1) as nat)
    } else {
        Seq::empty()
    }
}

/// What the first `k` script elements add.
pub open spec fn html_script_occurrences_upto(
    captures: Seq<CaptureView>,
    attributes: Attributes,
    depth: nat,
    k: nat,
) -> Seq<Occurrence>
    decreases depth, 2nat, k,
{
    if k == 0 {
        Seq::empty()
    } else {
        html_script_occurrences_upto(captures, attributes, depth, (k - 1) as nat)
            + html_script_match_occurrences(captures[k - 1], attributes, depth)
    }
}

/// What the script elements of a piece of markup add when they are read.
pub open spec fn html_script_occurrences(text: Seq<char>, attributes: Attributes, depth: nat) -> Seq<
    Occurrence,
>
    decreases depth, 3nat, 0nat,
{
    let captures = captures_of(HTML_SCRIPT_ELEMENT@, text);
    html_script_occurrences_upto(captures, attributes, depth, captures.len())
}

/// What a style element adds when it is read: what its styles add. Styles
/// nested deeper than `depth` allows add nothing.
pub open spec fn html_style_match_occurrences(
    capture: CaptureView,
    attributes: Attributes,
    depth: nat,
) -> Seq<Occurrence> {
    if depth > 0 {
        css_occurrences(group(capture, 2), attributes, (depth - 1) as nat)
    } else {
        Seq::empty()
    }
}

/// What the first `k` style elements add.
pub open spec fn html_style_occurrences_upto(
    captures: Seq<CaptureView>,
    attributes: Attributes,
    depth: nat,
    k: nat,
) -> Seq<Occurrence>
    decreases k,
{
    if k == 0 {
        Seq::empty()
    } else {
        html_style_occurrences_upto(captures, attributes, depth, (k - 1) as nat)
            + html_style_match_occurrences(captures[k - 1], attributes, depth)
    }
}

/// What the style elements of a piece of markup add when they are read.
pub open spec fn html_style_occurrences(text: Seq<char>, attributes: Attributes, depth: nat) -> Seq<
    Occurrence,
> {
    let captures = captures_of(HTML_STYLE_ELEMENT@, text);
    html_style_occurrences_upto(captures, attributes, depth, captures.len())
}

/// What a piece of markup adds when it is read: its attributes, its script
/// elements, its style elements, and the names marked for this crate.
pub open spec fn html_occurrences(
    text: Seq<char>,
    attributes: Attributes,
    usage: Option<SelectorUsage>,
    depth: nat,
) -> Seq<Occurrence>
    decreases depth, 4nat, 0nat,
{
    html_attribute_occurrences(text, attributes, usage, depth) + html_script_occurrences(
        text,
        attributes,
        depth,
    ) + html_style_occurrences(text, attributes, depth) + prefixed_occurrences(text)
}

/// A value rewritten as the attribute asks. Selector strings and scripts
/// nested deeper than `depth` allows stay as they are.
pub open spec fn designated_rewritten(
    held: Designation,
    value: Seq<char>,
    entries: Seq<Entry>,
    attributes: Attributes,
    depth: nat,
) -> Seq<char>
    decreases depth, 0nat, 0nat,
{
    match held {
        Designation::Class => tokens_rewritten(value, entries, "class"@),
        Designation::Id => tokens_rewritten(value, entries, "id"@),
        Designation::Selector => if depth > 0 {
            css_rewritten(value, entries, attributes, (depth - 1) as nat)
        } else {
            value
        },
        Designation::Style => css_functions_rewritten(value, entries),
        Designation::Script => if depth > 0 {
            js_rewritten(value, entries, attributes, (depth - 1) as nat)
        } else {
            value
        },
        Designation::Anchor => anchors_rewritten(value, entries),
        Designation::Unknown => value,
    }
}

/// A piece of markup inside a script, rewritten: as a whole document where
/// it holds the end of a body, and else for its attributes alone. Markup
/// nested deeper than `depth` allows stays as it is.
pub open spec fn markup_rewritten(
    markup: Seq<char>,
    entries: Seq<Entry>,
    attributes: Attributes,
    depth: nat,
) -> Seq<char>
    decreases depth, 0nat, 0nat,
{
    if depth == 0 {
        markup
    } else if contains_text(markup, "</body>"@) {
        html_rewritten(markup, entries, attributes, (depth - 1) as nat)
    } else {
        html_attributes_rewritten(markup, entries, attributes, (depth - 1) as nat)
    }
}

/// What is written in the place of one match of the attribute pattern. A
/// `code` element gets the attributes of its opening tag rewritten; comments
/// and the other elements that match as a whole stay as they are, and so
/// does an attribute that is not on the list. Any other attribute is written
/// with its value rewritten.
pub open spec fn html_attribute_match_rewritten(
    capture: CaptureView,
    entries: Seq<Entry>,
    attributes: Attributes,
    depth: nat,
) -> Seq<char>
    decreases depth, 1nat, 0nat,
{
    if capture.at(1) is None {
        match code_tag(whole_of(capture)) {
            Some(parts) => if depth > 0 {
                "<code"@ + html_attributes_rewritten(
                    parts.0,
                    entries,
                    attributes,
                    (depth - 1) as nat,
                ) + seq!['>'] + parts.1
            } else {
                whole_of(capture)
            },
            None => whole_of(capture),
        }
    } else {
        match designation(attributes, lowered(group(capture, 1))) {
            Some(held) => if held == Designation::Unknown {
                whole_of(capture)
            } else {
                group(capture, 1) + group(capture, 2) + group(capture, 3) + designated_rewritten(
                    held,
                    html_unescaped(group(capture, 4)),
                    entries,
                    attributes,
                    depth,
                )
            },
            None => whole_of(capture),
        }
    }
}

/// What is written in the places of the first `k` matches of the attribute
/// pattern.
pub open spec fn html_attribute_rewritings(
    captures: Seq<CaptureView>,
    entries: Seq<Entry>,
    attributes: Attributes,
    depth: nat,
    k: nat,
) -> Seq<Seq<char>>
    decreases depth, 2nat, k,
{
    if k == 0 {
        Seq::empty()
    } else {
        html_attribute_rewritings(captures, entries, attributes, depth, (k - 1) as nat).push(
            html_attribute_match_rewritten(captures[k - 1], entries, attributes, depth),
        )
    }
}

/// A piece of markup with its attributes rewritten.
pub open spec fn html_attributes_rewritten(
    text: Seq<char>,
    entries: Seq<Entry>,
    attributes: Attributes,
    depth: nat,
) -> Seq<char>
    decreases depth, 3nat, 0nat,
{
    let captures = captures_of(HTML_ATTRIBUTES@, text);
    spliced(
        text,
        captures,
        html_attribute_rewritings(captures, entries, attributes, depth, captures.len()),
    )
}

/// What is written in the place of a script element: the element with its
/// script rewritten.
pub open spec fn html_script_match_rewritten(
    capture: CaptureView,
    entries: Seq<Entry>,
    attributes: Attributes,
    depth: nat,
) -> Seq<char>
    decreases depth, 1nat, 0nat,
{
    if depth > 0 {
        group(capture, 1) + js_rewritten(
            group(capture, 2),
            entries,
            attributes,
            (depth - 1) as nat,
        ) + group(capture, 3)
    } else {
        whole_of(capture)
    }
}

/// What is written in the places of the first `k` script elements.
pub open spec fn html_script_rewritings(
    captures: Seq<CaptureView>,
    entries: Seq<Entry>,
    attributes: Attributes,
    depth: nat,
    k: nat,
) -> Seq<Seq<char>>
    decreases depth, 2nat, k,
{
    if k == 0 {
        Seq::empty()
    } else {
        html_script_rewritings(captures, entries, attributes, depth, (k - 1) as nat).push(
            html_script_match_rewritten(captures[k - 1], entries, attributes, depth),
        )
    }
}

/// A piece of markup with its script elements rewritten.
pub open spec fn html_scripts_rewritten(
    text: Seq<char>,
    entries: Seq<Entry>,
    attributes: Attributes,
    depth: nat,
) -> Seq<char>
    decreases depth, 3nat, 0nat,
{
    let captures = captures_of(HTML_SCRIPT_ELEMENT@, text);
    spliced(
        text,
        captures,
        html_script_rewritings(captures, entries, attributes, depth, captures.len()),
    )
}

/// What is written in the place of a style element: the element with its
/// styles rewritten.
pub open spec fn html_style_match_rewritten(
    capture: CaptureView,
    entries: Seq<Entry>,
    attributes: Attributes,
    depth: nat,
) -> Seq<char> {
    if depth > 0 {
        group(capture, 1) + css_rewritten(
            group(capture, 2),
            entries,
            attributes,
            (depth - 1) as nat,
        ) + group(capture, 3)
    } else {
        whole_of(capture)
    }
}

/// A piece of markup with its style elements rewritten.
pub open spec fn html_styles_rewritten(
    text: Seq<char>,
    entries: Seq<Entry>,
    attributes: Attributes,
    depth: nat,
) -> Seq<char> {
    let captures = captures_of(HTML_STYLE_ELEMENT@, text);
    spliced(
        text,
        captures,
        Seq::new(
            captures.len(),
            |k: int| html_style_match_rewritten(captures[k], entries, attributes, depth),
        ),
    )
}

/// A piece of markup rewritten: first its attributes, then its script
/// elements, then its style elements, then the names marked for this crate.
pub open spec fn html_rewritten(
    text: Seq<char>,
    entries: Seq<Entry>,
    attributes: Attributes,
    depth: nat,
) -> Seq<char>
    decreases depth, 4nat, 0nat,
{
    prefixed_rewritten(
        html_styles_rewritten(
            html_scripts_rewritten(
                html_attributes_rewritten(text, entries, attributes, depth),
                entries,
                attributes,
                depth,
            ),
            entries,
            attributes,
            depth,
        ),
        entries,
    )
}

/// Reads a value as the attribute asks.
pub fn analyse_designated(
    held: Designation,
    value: &str,
    selectors: &mut Selectors,
    whitelist: &Whitelist,
    usage: Option<SelectorUsage>,
    depth: usize,
)
    ensures
        final(selectors)@ == noted_in(
            old(selectors)@,
            designated_occurrences(held, value@, whitelist@, usage, depth as nat),
        ),
    decreases depth, 0nat, 0nat,
{
    let place = match usage {
        Some(place) => Some(place),
        None => match held {
            Designation::Id => Some(SelectorUsage::MarkupId),
            _ => Some(SelectorUsage::MarkupClass),
        },
    };
    match held {
        Designation::Class => {
            let mut names = value.to_owned();
            analyse_string_of_tokens(&mut names, selectors, "class", place);
        },
        Designation::Id => {
            let mut names = value.to_owned();
            analyse_string_of_tokens(&mut names, selectors, "id", place);
        },
        Designation::Selector => {
            if depth > 0 {
                analyse_css(value, selectors, whitelist, depth - 1);
            }
        },
        Designation::Style => {
            analyse_css_functions(value, selectors);
        },
        Designation::Script => {
            if depth > 0 {
                analyse_js(value, selectors, whitelist, depth - 1);
            }
        },
        Designation::Anchor => {
            let mut link = value.to_owned();
            analyse_anchor_links(&mut link, selectors);
        },
        Designation::Unknown => {},
    }
}

/// Tells whether a piece of markup holds the end of a body.
pub fn holds_body_end(markup: &str) -> (found: bool)
    ensures
        found == contains_text(markup@, "</body>"@),
{
    contains(&chars_of(markup), &chars_of("</body>"))
}

/// Reads a piece of markup that stands inside a script.
pub fn analyse_markup(markup: &str, selectors: &mut Selectors, whitelist: &Whitelist, depth: usize)
    ensures
        final(selectors)@ == noted_in(
            old(selectors)@,
            markup_occurrences(markup@, whitelist@, depth as nat),
        ),
    decreases depth, 0nat, 0nat,
{
    if depth == 0 {
        return ;
    }
    if holds_body_end(markup) {
        analyse_html(markup, selectors, whitelist, Some(SelectorUsage::Script), depth - 1);
    } else {
        analyse_html_attributes(
            markup,
            selectors,
            whitelist,
            Some(SelectorUsage::Script),
            depth - 1,
        );
    }
}

/// Reads one match of the attribute pattern.
pub fn analyse_html_attribute(
    capture: &Capture,
    selectors: &mut Selectors,
    whitelist: &Whitelist,
    usage: Option<SelectorUsage>,
    depth: usize,
)
    ensures
        final(selectors)@ == noted_in(
            old(selectors)@,
            html_attribute_match_occurrences(capture@, whitelist@, usage, depth as nat),
        ),
    decreases depth, 1nat, 0nat,
{
    match capture.at(1) {
        None => {
            match split_code_tag(whole_match(capture).as_str()) {
                Some((tag, _)) => {
                    if depth > 0 {
                        analyse_html_attributes(
                            tag.as_str(),
                            selectors,
                            whitelist,
                            usage,
                            depth - 1,
                        );
                    }
                },
                None => {},
            }
        },
        Some(name) => {
            let low = to_lower(&chars_of(name.as_str()));
            match whitelist.lookup(&low) {
                Some(held) => {
                    let value = unescape_html_chars(group_of(capture, 4).as_str());
                    analyse_designated(held, value.as_str(), selectors, whitelist, usage, depth);
                },
                None => {},
            }
        },
    }
}

/// Reads the attributes of a piece of markup.
pub fn analyse_html_attributes(
    file_string: &str,
    selectors: &mut Selectors,
    whitelist: &Whitelist,
    usage: Option<SelectorUsage>,
    depth: usize,
)
    ensures
        final(selectors)@ == noted_in(
            old(selectors)@,
            html_attribute_occurrences(file_string@, whitelist@, usage, depth as nat),
        ),
    decreases depth, 3nat, 0nat,
{
    let found = find_all(HTML_ATTRIBUTES, file_string);
    let ghost captures = found.deep_view();
    let ghost start = selectors@;
    let mut k: usize = 0;
    while k < found.len()
        invariant
            captures == found.deep_view(),
            k <= found@.len(),
            selectors@ == noted_in(
                start,
                html_attribute_occurrences_upto(
                    captures,
                    whitelist@,
                    usage,
                    depth as nat,
                    k as nat,
                ),
            ),
        decreases found@.len() - k,
    {
        assert(captures[k as int] == found@[k as int]@);
        proof {
            lemma_noted_concat(
                start.entries,
                html_attribute_occurrences_upto(
                    captures,
                    whitelist@,
                    usage,
                    depth as nat,
                    k as nat,
                ),
                html_attribute_match_occurrences(
                    captures[k as int],
                    whitelist@,
                    usage,
                    depth as nat,
                ),
            );
        }
        analyse_html_attribute(&found[k], selectors, whitelist, usage, depth);
        k = k + 1;
    }
}

/// Reads one script element.
pub fn analyse_html_script(
    capture: &Capture,
    selectors: &mut Selectors,
    whitelist: &Whitelist,
    depth: usize,
)
    ensures
        final(selectors)@ == noted_in(
            old(selectors)@,
            html_script_match_occurrences(capture@, whitelist@, depth as nat),
        ),
    decreases depth, 1nat, 0nat,
{
    if depth > 0 {
        let script = group_of(capture, 2);
        analyse_js(script.as_str(), selectors, whitelist, depth - 1);
    }
}

/// Reads one style element.
pub fn analyse_html_style(
    capture: &Capture,
    selectors: &mut Selectors,
    whitelist: &Whitelist,
    depth: usize,
)
    ensures
        final(selectors)@ == noted_in(
            old(selectors)@,
            html_style_match_occurrences(capture@, whitelist@, depth as nat),
        ),
{
    if depth > 0 {
        let styles = group_of(capture, 2);
        analyse_css(styles.as_str(), selectors, whitelist, depth - 1);
    }
}

/// Reads the script elements of a piece of markup.
#[verifier::rlimit(60)]
pub fn analyse_html_scripts(
    file_string: &str,
    selectors: &mut Selectors,
    whitelist: &Whitelist,
    depth: usize,
)
    ensures
        final(selectors)@ == noted_in(
            old(selectors)@,
            html_script_occurrences(file_string@, whitelist@, depth as nat),
        ),
    decreases depth, 3nat, 0nat,
{
    let found = find_all(HTML_SCRIPT_ELEMENT, file_string);
    let ghost captures = found.deep_view();
    let ghost start = selectors@;
    let mut k: usize = 0;
    while k < found.len()
        invariant
            captures == found.deep_view(),
            k <= found@.len(),
            selectors@ == noted_in(
                start,
                html_script_occurrences_upto(captures, whitelist@, depth as nat, k as nat),
            ),
        decreases found@.len() - k,
    {
        assert(captures[k as int] == found@[k as int]@);
        proof {
            lemma_noted_concat(
                start.entries,
                html_script_occurrences_upto(captures, whitelist@, depth as nat, k as nat),
                html_script_match_occurrences(captures[k as int], whitelist@, depth as nat),
            );
        }
        analyse_html_script(&found[k], selectors, whitelist, depth);
        k = k + 1;
    }
}

/// Reads the style elements of a piece of markup.
pub fn analyse_html_styles(
    file_string: &str,
    selectors: &mut Selectors,
    whitelist: &Whitelist,
    depth: usize,
)
    ensures
        final(selectors)@ == noted_in(
            old(selectors)@,
            html_style_occurrences(file_string@, whitelist@, depth as nat),
        ),
{
    let found = find_all(HTML_STYLE_ELEMENT, file_string);
    let ghost captures = found.deep_view();
    let ghost start = selectors@;
    let mut k: usize = 0;
    while k < found.len()
        invariant
            captures == found.deep_view(),
            k <= found@.len(),
            selectors@ == noted_in(
                start,
                html_style_occurrences_upto(captures, whitelist@, depth as nat, k as nat),
            ),
        decreases found@.len() - k,
    {
        assert(captures[k as int] == found@[k as int]@);
        proof {
            lemma_noted_concat(
                start.entries,
                html_style_occurrences_upto(captures, whitelist@, depth as nat, k as nat),
                html_style_match_occurrences(captures[k as int], whitelist@, depth as nat),
            );
        }
        analyse_html_style(&found[k], selectors, whitelist, depth);
        k = k + 1;
    }
}

/// Reads a piece of markup.
pub fn analyse_html(
    file_string: &str,
    selectors: &mut Selectors,
    whitelist: &Whitelist,
    usage: Option<SelectorUsage>,
    depth: usize,
)
    ensures
        final(selectors)@ == noted_in(
            old(selectors)@,
            html_occurrences(file_string@, whitelist@, usage, depth as nat),
        ),
    decreases depth, 4nat, 0nat,
{
    let ghost start = selectors@.entries;
    let ghost first = html_attribute_occurrences(file_string@, whitelist@, usage, depth as nat);
    let ghost second = html_script_occurrences(file_string@, whitelist@, depth as nat);
    let ghost third = html_style_occurrences(file_string@, whitelist@, depth as nat);
    let ghost fourth = prefixed_occurrences(file_string@);
    analyse_html_attributes(file_string, selectors, whitelist, usage, depth);
    analyse_html_scripts(file_string, selectors, whitelist, depth);
    analyse_html_styles(file_string, selectors, whitelist, depth);
    analyse_prefixed_selectors(file_string, selectors);
    proof {
        lemma_noted_concat(start, first, second);
        lemma_noted_concat(start, first + second, third);
        lemma_noted_concat(start, first + second + third, fourth);
    }
}

/// Rewrites a value as the attribute asks.
pub fn rewrite_designated(
    held: Designation,
    value: &str,
    selectors: &Selectors,
    whitelist: &Whitelist,
    depth: usize,
) -> (written: String)
    ensures
        written@ == designated_rewritten(
            held,
            value@,
            selectors@.entries,
            whitelist@,
            depth as nat,
        ),
    decreases depth, 0nat, 0nat,
{
    let mut written = value.to_owned();
    match held {
        Designation::Class => {
            rewrite_string_of_tokens(&mut written, selectors, "class");
        },
        Designation::Id => {
            rewrite_string_of_tokens(&mut written, selectors, "id");
        },
        Designation::Selector => {
            if depth > 0 {
                rewrite_css(&mut written, selectors, whitelist, depth - 1);
            }
        },
        Designation::Style => {
            rewrite_css_functions(&mut written, selectors);
        },
        Designation::Script => {
            if depth > 0 {
                rewrite_js(&mut written, selectors, whitelist, depth - 1);
            }
        },
        Designation::Anchor => {
            rewrite_anchor_links(&mut written, selectors);
        },
        Designation::Unknown => {},
    }
    written
}

/// Rewrites a piece of markup that stands inside a script.
pub fn rewrite_markup(markup: &str, selectors: &Selectors, whitelist: &Whitelist, depth: usize) -> (written:
    String)
    ensures
        written@ == markup_rewritten(markup@, selectors@.entries, whitelist@, depth as nat),
    decreases depth, 0nat, 0nat,
{
    let mut written = markup.to_owned();
    if depth == 0 {
        return written;
    }
    if holds_body_end(markup) {
        rewrite_html(&mut written, selectors, whitelist, depth - 1);
    } else {
        rewrite_html_attributes(&mut written, selectors, whitelist, depth - 1);
    }
    written
}

/// What is written in the place of one match of the attribute pattern.
pub fn rewrite_html_attribute(
    capture: &Capture,
    selectors: &Selectors,
    whitelist: &Whitelist,
    depth: usize,
) -> (written: String)
    ensures
        written@ == html_attribute_match_rewritten(
            capture@,
            selectors@.entries,
            whitelist@,
            depth as nat,
        ),
    decreases depth, 1nat, 0nat,
{
    match capture.at(1) {
        None => {
            match split_code_tag(whole_match(capture).as_str()) {
                Some((tag, rest)) => {
                    if depth > 0 {
                        let mut attributes = tag;
                        rewrite_html_attributes(&mut attributes, selectors, whitelist, depth - 1);
                        let mut out = "<code".to_owned();
                        out.append(attributes.as_str());
                        out.append(single('>').as_str());
                        out.append(rest.as_str());
                        out
                    } else {
                        whole_match(capture)
                    }
                },
                None => whole_match(capture),
            }
        },
        Some(name) => {
            let low = to_lower(&chars_of(name.as_str()));
            match whitelist.lookup(&low) {
                Some(held) => {
                    if held == Designation::Unknown {
                        return whole_match(capture);
                    }
                    let value = unescape_html_chars(group_of(capture, 4).as_str());
                    let new_value = rewrite_designated(
                        held,
                        value.as_str(),
                        selectors,
                        whitelist,
                        depth,
                    );
                    let mut out = name.clone();
                    out.append(group_of(capture, 2).as_str());
                    out.append(group_of(capture, 3).as_str());
                    out.append(new_value.as_str());
                    out
                },
                None => whole_match(capture),
            }
        },
    }
}

/// Rewrites the attributes of a piece of markup.
pub fn rewrite_html_attributes(
    file_string: &mut String,
    selectors: &Selectors,
    whitelist: &Whitelist,
    depth: usize,
)
    ensures
        final(file_string)@ == html_attributes_rewritten(
            old(file_string)@,
            selectors@.entries,
            whitelist@,
            depth as nat,
        ),
    decreases depth, 3nat, 0nat,
{
    let found = find_all(HTML_ATTRIBUTES, file_string.as_str());
    let ghost captures = found.deep_view();
    let mut written: Vec<String> = Vec::new();
    let mut k: usize = 0;
    assert(written.deep_view() =~= Seq::<Seq<char>>::empty());
    while k < found.len()
        invariant
            captures == found.deep_view(),
            k <= found@.len(),
            written@.len() == k,
            written.deep_view() == html_attribute_rewritings(
                captures,
                selectors@.entries,
                whitelist@,
                depth as nat,
                k as nat,
            ),
        decreases found@.len() - k,
    {
        assert(captures[k as int] == found@[k as int]@);
        let ghost before = written.deep_view();
        let next = rewrite_html_attribute(&found[k], selectors, whitelist, depth);
        let ghost text = next@;
        written.push(next);
        assert(written.deep_view() =~= before.push(text));
        k = k + 1;
    }
    *file_string = splice(file_string.as_str(), &found, &written);
}

/// What is written in the place of one script element.
pub fn rewrite_html_script(
    capture: &Capture,
    selectors: &Selectors,
    whitelist: &Whitelist,
    depth: usize,
) -> (written: String)
    ensures
        written@ == html_script_match_rewritten(
            capture@,
            selectors@.entries,
            whitelist@,
            depth as nat,
        ),
    decreases depth, 1nat, 0nat,
{
    if depth > 0 {
        let mut script = group_of(capture, 2);
        rewrite_js(&mut script, selectors, whitelist, depth - 1);
        let mut out = group_of(capture, 1);
        out.append(script.as_str());
        out.append(group_of(capture, 3).as_str());
        out
    } else {
        whole_match(capture)
    }
}

/// Rewrites the script elements of a piece of markup.
pub fn rewrite_html_scripts(
    file_string: &mut String,
    selectors: &Selectors,
    whitelist: &Whitelist,
    depth: usize,
)
    ensures
        final(file_string)@ == html_scripts_rewritten(
            old(file_string)@,
            selectors@.entries,
            whitelist@,
            depth as nat,
        ),
    decreases depth, 3nat, 0nat,
{
    let found = find_all(HTML_SCRIPT_ELEMENT, file_string.as_str());
    let ghost captures = found.deep_view();
    let mut written: Vec<String> = Vec::new();
    let mut k: usize = 0;
    assert(written.deep_view() =~= Seq::<Seq<char>>::empty());
    while k < found.len()
        invariant
            captures == found.deep_view(),
            k <= found@.len(),
            written@.len() == k,
            written.deep_view() == html_script_rewritings(
                captures,
                selectors@.entries,
                whitelist@,
                depth as nat,
                k as nat,
            ),
        decreases found@.len() - k,
    {
        assert(captures[k as int] == found@[k as int]@);
        let ghost before = written.deep_view();
        let next = rewrite_html_script(&found[k], selectors, whitelist, depth);
        let ghost text = next@;
        written.push(next);
        assert(written.deep_view() =~= before.push(text));
        k = k + 1;
    }
    *file_string = splice(file_string.as_str(), &found, &written);
}

/// What is written in the place of one style element.
pub fn rewrite_html_style(
    capture: &Capture,
    selectors: &Selectors,
    whitelist: &Whitelist,
    depth: usize,
) -> (written: String)
    ensures
        written@ == html_style_match_rewritten(
            capture@,
            selectors@.entries,
            whitelist@,
            depth as nat,
        ),
{
    if depth > 0 {
        let mut styles = group_of(capture, 2);
        rewrite_css(&mut styles, selectors, whitelist, depth - 1);
        let mut out = group_of(capture, 1);
        out.append(styles.as_str());
        out.append(group_of(capture, 3).as_str());
        out
    } else {
        whole_match(capture)
    }
}

/// Rewrites the style elements of a piece of markup.
pub fn rewrite_html_styles(
    file_string: &mut String,
    selectors: &Selectors,
    whitelist: &Whitelist,
    depth: usize,
)
    ensures
        final(file_string)@ == html_styles_rewritten(
            old(file_string)@,
            selectors@.entries,
            whitelist@,
            depth as nat,
        ),
{
    let found = find_all(HTML_STYLE_ELEMENT, file_string.as_str());
    let ghost captures = found.deep_view();
    let mut written: Vec<String> = Vec::new();
    let mut k: usize = 0;
    while k < found.len()
        invariant
            captures == found.deep_view(),
            k <= found@.len(),
            written@.len() == k,
            forall|j: int|
                0 <= j < k ==> (#[trigger] written@[j])@ == html_style_match_rewritten(
                    captures[j],
                    selectors@.entries,
                    whitelist@,
                    depth as nat,
                ),
        decreases found@.len() - k,
    {
        assert(captures[k as int] == found@[k as int]@);
        written.push(rewrite_html_style(&found[k], selectors, whitelist, depth));
        k = k + 1;
    }
    assert(written.deep_view() =~= Seq::new(
        captures.len(),
        |k: int|
            html_style_match_rewritten(captures[k], selectors@.entries, whitelist@, depth as nat),
    ));
    *file_string = splice(file_string.as_str(), &found, &written);
}

/// Rewrites a piece of markup.
pub fn rewrite_html(
    file_string: &mut String,
    selectors: &Selectors,
    whitelist: &Whitelist,
    depth: usize,
)
    ensures
        final(file_string)@ == html_rewritten(
            old(file_string)@,
            selectors@.entries,
            whitelist@,
            depth as nat,
        ),
    decreases depth, 4nat, 0nat,
{
    rewrite_html_attributes(file_string, selectors, whitelist, depth);
    rewrite_html_scripts(file_string, selectors, whitelist, depth);
    rewrite_html_styles(file_string, selectors, whitelist, depth);
    rewrite_prefixed_selectors(file_string, selectors);
}

} // verus!
