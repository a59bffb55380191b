//! What holds of rewriting a text in which every match is left as it
//! stands: comments, rule bodies, attributes that are not on the list, and
//! selectors for which the registry has no new name.

use vstd::prelude::*;

use crate::html_attributes::{designation, Designation};
use crate::markup::{
    code_tag, html_attribute_match_rewritten, html_attribute_rewritings,
    html_attributes_rewritten, html_rewritten, html_script_match_rewritten,
    html_script_rewritings, html_scripts_rewritten, html_style_match_rewritten,
    html_styles_rewritten,
};
use crate::ordered_map::Entry;
use crate::parse_selectors::{group, has_match};
use crate::regexes::{
    CSS_ATTRIBUTES, CSS_FUNCTIONS, CSS_SELECTORS, HTML_ATTRIBUTES, HTML_SCRIPT_ELEMENT,
    HTML_STYLE_ELEMENT, JS_ARGUMENTS, JS_PROPERTIES, PREFIXED_SELECTORS,
};
use crate::rewriting_laws::lemma_prefixed_without_matches;
use crate::scan::{
    captures_of, lemma_captures_well_spaced, lemma_spliced_verbatim, spliced, CaptureView,
};
use crate::script::{
    js_argument_match_rewritten, js_argument_rewritings, js_arguments_rewritten,
    js_properties_rewritten, js_property_match_rewritten, js_property_rewritings, js_rewritten,
};
use crate::style::{
    css_attribute_match_rewritten, css_attribute_rewritings, css_attributes_rewritten,
    css_function_match_rewritten, css_functions_rewritten, css_rewritten,
    css_selector_match_rewritten, css_selectors_rewritten, css_unescaped, is_insensitive,
    whole_of, Attributes,
};
use crate::text::lowered;

verus! {

/// Where each match of a pattern is written as it stands, the text stays as
/// it is.
pub proof fn lemma_left_as_written(pattern: Seq<char>, text: Seq<char>, written: Seq<Seq<char>>)
    requires
        written.len() == captures_of(pattern, text).len(),
        forall|k: int|
            0 <= k < written.len() ==> #[trigger] written[k] == whole_of(
                captures_of(pattern, text)[k],
            ),
    ensures
        spliced(text, captures_of(pattern, text), written) == text,
{
    let captures = captures_of(pattern, text);
    lemma_captures_well_spaced(pattern, text);
    assert forall|j: int| 0 <= j < captures.len() implies #[trigger] written[j] == text.subrange(
        captures[j].start as int,
        captures[j].end as int,
    ) by {
        assert(captures[j].groups[0] == Some(
            text.subrange(captures[j].start as int, captures[j].end as int),
        ));
    }
    lemma_spliced_verbatim(text, captures, written);
}

proof fn lemma_css_attribute_rewritings(
    captures: Seq<CaptureView>,
    entries: Seq<Entry>,
    attributes: Attributes,
    depth: nat,
    k: nat,
)
    requires
        k <= captures.len(),
    ensures
        css_attribute_rewritings(captures, entries, attributes, depth, k).len() == k,
        forall|j: int|
            0 <= j < k ==> #[trigger] css_attribute_rewritings(
                captures,
                entries,
                attributes,
                depth,
                k,
            )[j] == css_attribute_match_rewritten(captures[j], entries, attributes, depth),
    decreases k,
{
    if k > 0 {
        lemma_css_attribute_rewritings(captures, entries, attributes, depth, (k - 1) as nat);
    }
}

proof fn lemma_html_attribute_rewritings(
    captures: Seq<CaptureView>,
    entries: Seq<Entry>,
    attributes: Attributes,
    depth: nat,
    k: nat,
)
    requires
        k <= captures.len(),
    ensures
        html_attribute_rewritings(captures, entries, attributes, depth, k).len() == k,
        forall|j: int|
            0 <= j < k ==> #[trigger] html_attribute_rewritings(
                captures,
                entries,
                attributes,
                depth,
                k,
            )[j] == html_attribute_match_rewritten(captures[j], entries, attributes, depth),
    decreases k,
{
    if k > 0 {
        lemma_html_attribute_rewritings(captures, entries, attributes, depth, (k - 1) as nat);
    }
}

proof fn lemma_html_script_rewritings(
    captures: Seq<CaptureView>,
    entries: Seq<Entry>,
    attributes: Attributes,
    depth: nat,
    k: nat,
)
    requires
        k <= captures.len(),
    ensures
        html_script_rewritings(captures, entries, attributes, depth, k).len() == k,
        forall|j: int|
            0 <= j < k ==> #[trigger] html_script_rewritings(
                captures,
                entries,
                attributes,
                depth,
                k,
            )[j] == html_script_match_rewritten(captures[j], entries, attributes, depth),
    decreases k,
{
    if k > 0 {
        lemma_html_script_rewritings(captures, entries, attributes, depth, (k - 1) as nat);
    }
}

proof fn lemma_js_argument_rewritings(
    captures: Seq<CaptureView>,
    entries: Seq<Entry>,
    attributes: Attributes,
    depth: nat,
    k: nat,
)
    requires
        k <= captures.len(),
    ensures
        js_argument_rewritings(captures, entries, attributes, depth, k).len() == k,
        forall|j: int|
            0 <= j < k ==> #[trigger] js_argument_rewritings(
                captures,
                entries,
                attributes,
                depth,
                k,
            )[j] == js_argument_match_rewritten(captures[j], entries, attributes, depth),
    decreases k,
{
    if k > 0 {
        lemma_js_argument_rewritings(captures, entries, attributes, depth, (k - 1) as nat);
    }
}

proof fn lemma_js_property_rewritings(
    captures: Seq<CaptureView>,
    entries: Seq<Entry>,
    attributes: Attributes,
    depth: nat,
    k: nat,
)
    requires
        k <= captures.len(),
    ensures
        js_property_rewritings(captures, entries, attributes, depth, k).len() == k,
        forall|j: int|
            0 <= j < k ==> #[trigger] js_property_rewritings(
                captures,
                entries,
                attributes,
                depth,
                k,
            )[j] == js_property_match_rewritten(captures[j], entries, attributes, depth),
    decreases k,
{
    if k > 0 {
        lemma_js_property_rewritings(captures, entries, attributes, depth, (k - 1) as nat);
    }
}

/// Every match of the patterns of a style sheet is written as it stands,
/// and no marked name is found.
pub open spec fn css_left_as_written(
    text: Seq<char>,
    entries: Seq<Entry>,
    attributes: Attributes,
    depth: nat,
) -> bool {
    &&& forall|k: int|
        0 <= k < captures_of(CSS_SELECTORS@, text).len() ==> css_selector_match_rewritten(
            #[trigger] captures_of(CSS_SELECTORS@, text)[k],
            entries,
        ) == whole_of(captures_of(CSS_SELECTORS@, text)[k])
    &&& forall|k: int|
        0 <= k < captures_of(CSS_ATTRIBUTES@, text).len() ==> css_attribute_match_rewritten(
            #[trigger] captures_of(CSS_ATTRIBUTES@, text)[k],
            entries,
            attributes,
            depth,
        ) == whole_of(captures_of(CSS_ATTRIBUTES@, text)[k])
    &&& forall|k: int|
        0 <= k < captures_of(CSS_FUNCTIONS@, text).len() ==> css_function_match_rewritten(
            #[trigger] captures_of(CSS_FUNCTIONS@, text)[k],
            entries,
        ) == whole_of(captures_of(CSS_FUNCTIONS@, text)[k])
    &&& !has_match(PREFIXED_SELECTORS@, text)
}

/// A style sheet in which every match is left as it stands is rewritten to
/// itself, character for character.
pub proof fn lemma_css_left_as_written(
    text: Seq<char>,
    entries: Seq<Entry>,
    attributes: Attributes,
    depth: nat,
)
    requires
        css_left_as_written(text, entries, attributes, depth),
    ensures
        css_rewritten(text, entries, attributes, depth) == text,
{
    assert(css_selectors_rewritten(text, entries) == text) by {
        let captures = captures_of(CSS_SELECTORS@, text);
        lemma_left_as_written(
            CSS_SELECTORS@,
            text,
            Seq::new(captures.len(), |k: int| css_selector_match_rewritten(captures[k], entries)),
        );
    }
    assert(css_attributes_rewritten(text, entries, attributes, depth) == text) by {
        let captures = captures_of(CSS_ATTRIBUTES@, text);
        lemma_css_attribute_rewritings(captures, entries, attributes, depth, captures.len());
        lemma_left_as_written(
            CSS_ATTRIBUTES@,
            text,
            css_attribute_rewritings(captures, entries, attributes, depth, captures.len()),
        );
    }
    assert(css_functions_rewritten(text, entries) == text) by {
        let captures = captures_of(CSS_FUNCTIONS@, text);
        lemma_left_as_written(
            CSS_FUNCTIONS@,
            text,
            Seq::new(captures.len(), |k: int| css_function_match_rewritten(captures[k], entries)),
        );
    }
    lemma_prefixed_without_matches(text, entries);
}

/// Every match of the patterns of markup is written as it stands, and no
/// marked name is found.
pub open spec fn html_left_as_written(
    text: Seq<char>,
    entries: Seq<Entry>,
    attributes: Attributes,
    depth: nat,
) -> bool {
    &&& forall|k: int|
        0 <= k < captures_of(HTML_ATTRIBUTES@, text).len() ==> html_attribute_match_rewritten(
            #[trigger] captures_of(HTML_ATTRIBUTES@, text)[k],
            entries,
            attributes,
            depth,
        ) == whole_of(captures_of(HTML_ATTRIBUTES@, text)[k])
    &&& forall|k: int|
        0 <= k < captures_of(HTML_SCRIPT_ELEMENT@, text).len() ==> html_script_match_rewritten(
            #[trigger] captures_of(HTML_SCRIPT_ELEMENT@, text)[k],
            entries,
            attributes,
            depth,
        ) == whole_of(captures_of(HTML_SCRIPT_ELEMENT@, text)[k])
    &&& forall|k: int|
        0 <= k < captures_of(HTML_STYLE_ELEMENT@, text).len() ==> html_style_match_rewritten(
            #[trigger] captures_of(HTML_STYLE_ELEMENT@, text)[k],
            entries,
            attributes,
            depth,
        ) == whole_of(captures_of(HTML_STYLE_ELEMENT@, text)[k])
    &&& !has_match(PREFIXED_SELECTORS@, text)
}

/// A piece of markup in which every match is left as it stands is rewritten
/// to itself, character for character.
pub proof fn lemma_html_left_as_written(
    text: Seq<char>,
    entries: Seq<Entry>,
    attributes: Attributes,
    depth: nat,
)
    requires
        html_left_as_written(text, entries, attributes, depth),
    ensures
        html_rewritten(text, entries, attributes, depth) == text,
{
    assert(html_attributes_rewritten(text, entries, attributes, depth) == text) by {
        let captures = captures_of(HTML_ATTRIBUTES@, text);
        lemma_html_attribute_rewritings(captures, entries, attributes, depth, captures.len());
        lemma_left_as_written(
            HTML_ATTRIBUTES@,
            text,
            html_attribute_rewritings(captures, entries, attributes, depth, captures.len()),
        );
    }
    assert(html_scripts_rewritten(text, entries, attributes, depth) == text) by {
        let captures = captures_of(HTML_SCRIPT_ELEMENT@, text);
        lemma_html_script_rewritings(captures, entries, attributes, depth, captures.len());
        lemma_left_as_written(
            HTML_SCRIPT_ELEMENT@,
            text,
            html_script_rewritings(captures, entries, attributes, depth, captures.len()),
        );
    }
    assert(html_styles_rewritten(text, entries, attributes, depth) == text) by {
        let captures = captures_of(HTML_STYLE_ELEMENT@, text);
        lemma_left_as_written(
            HTML_STYLE_ELEMENT@,
            text,
            Seq::new(
                captures.len(),
                |k: int| html_style_match_rewritten(captures[k], entries, attributes, depth),
            ),
        );
    }
    lemma_prefixed_without_matches(text, entries);
}

/// Every match of the patterns of a script is written as it stands, and no
/// marked name is found.
pub open spec fn js_left_as_written(
    text: Seq<char>,
    entries: Seq<Entry>,
    attributes: Attributes,
    depth: nat,
) -> bool {
    &&& forall|k: int|
        0 <= k < captures_of(JS_ARGUMENTS@, text).len() ==> js_argument_match_rewritten(
            #[trigger] captures_of(JS_ARGUMENTS@, text)[k],
            entries,
            attributes,
            depth,
        ) == whole_of(captures_of(JS_ARGUMENTS@, text)[k])
    &&& forall|k: int|
        0 <= k < captures_of(JS_PROPERTIES@, text).len() ==> js_property_match_rewritten(
            #[trigger] captures_of(JS_PROPERTIES@, text)[k],
            entries,
            attributes,
            depth,
        ) == whole_of(captures_of(JS_PROPERTIES@, text)[k])
    &&& !has_match(PREFIXED_SELECTORS@, text)
}

/// A script in which every match is left as it stands is rewritten to
/// itself, character for character.
pub proof fn lemma_js_left_as_written(
    text: Seq<char>,
    entries: Seq<Entry>,
    attributes: Attributes,
    depth: nat,
)
    requires
        js_left_as_written(text, entries, attributes, depth),
    ensures
        js_rewritten(text, entries, attributes, depth) == text,
{
    assert(js_arguments_rewritten(text, entries, attributes, depth) == text) by {
        let captures = captures_of(JS_ARGUMENTS@, text);
        lemma_js_argument_rewritings(captures, entries, attributes, depth, captures.len());
        lemma_left_as_written(
            JS_ARGUMENTS@,
            text,
            js_argument_rewritings(captures, entries, attributes, depth, captures.len()),
        );
    }
    assert(js_properties_rewritten(text, entries, attributes, depth) == text) by {
        let captures = captures_of(JS_PROPERTIES@, text);
        lemma_js_property_rewritings(captures, entries, attributes, depth, captures.len());
        lemma_left_as_written(
            JS_PROPERTIES@,
            text,
            js_property_rewritings(captures, entries, attributes, depth, captures.len()),
        );
    }
    lemma_prefixed_without_matches(text, entries);
}

/// The matches of a style sheet that are left as they stand: a rule body, a
/// comment or an import among the selectors; among the attribute selectors
/// a comment, an attribute that is not on the list, and a comparison
/// without regard to case; a function without an argument.
pub proof fn lemma_css_matches_left(
    capture: CaptureView,
    entries: Seq<Entry>,
    attributes: Attributes,
    depth: nat,
)
    ensures
        capture.at(2) is None ==> css_selector_match_rewritten(capture, entries) == whole_of(
            capture,
        ),
        capture.at(2) is None || designation(attributes, css_unescaped(group(capture, 1)))
            is None || is_insensitive(group(capture, 6)) ==> css_attribute_match_rewritten(
            capture,
            entries,
            attributes,
            depth,
        ) == whole_of(capture),
        capture.at(4) is None ==> css_function_match_rewritten(capture, entries) == whole_of(
            capture,
        ),
{
}

/// The matches of markup that are left as they stand: a comment and the
/// elements that match as a whole but `code`; an attribute that is not on
/// the list, or that is on it with a kind that is not known.
pub proof fn lemma_html_matches_left(
    capture: CaptureView,
    entries: Seq<Entry>,
    attributes: Attributes,
    depth: nat,
)
    ensures
        capture.at(1) is None && code_tag(whole_of(capture)) is None
            ==> html_attribute_match_rewritten(capture, entries, attributes, depth) == whole_of(
            capture,
        ),
        capture.at(1) is Some && (designation(attributes, lowered(group(capture, 1))) is None
            || designation(attributes, lowered(group(capture, 1))) == Some(Designation::Unknown))
            ==> html_attribute_match_rewritten(capture, entries, attributes, depth) == whole_of(
            capture,
        ),
{
}

/// The matches of a script that are left as they stand: comments.
pub proof fn lemma_js_matches_left(
    capture: CaptureView,
    entries: Seq<Entry>,
    attributes: Attributes,
    depth: nat,
)
    ensures
        capture.at(1) is None ==> js_argument_match_rewritten(
            capture,
            entries,
            attributes,
            depth,
        ) == whole_of(capture),
        capture.at(1) is None ==> js_property_match_rewritten(
            capture,
            entries,
            attributes,
            depth,
        ) == whole_of(capture),
{
}

} // verus!
