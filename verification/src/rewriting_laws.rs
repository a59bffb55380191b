//! What holds of rewriting a text in which nothing is found.

use vstd::prelude::*;

use crate::markup::{
    html_attribute_rewritings, html_attributes_rewritten, html_rewritten, html_script_rewritings,
    html_scripts_rewritten, html_styles_rewritten,
};
use crate::occurrences::replacement_of;
use crate::ordered_map::Entry;
use crate::parse_selectors::{group, has_match, prefixed_rewritten};
use crate::regexes::{
    CSS_ATTRIBUTES, CSS_FUNCTIONS, CSS_SELECTORS, HTML_ATTRIBUTES, HTML_SCRIPT_ELEMENT,
    HTML_STYLE_ELEMENT, JS_ARGUMENTS, JS_PROPERTIES, PREFIXED_SELECTORS,
};
use crate::scan::{
    captures_of, lemma_captures_well_spaced, lemma_spliced_verbatim, spliced, stitched,
    CaptureView,
};
use crate::script::{
    js_argument_rewritings, js_arguments_rewritten, js_properties_rewritten,
    js_property_rewritings, js_rewritten,
};
use crate::style::{
    css_attribute_rewritings, css_attributes_rewritten, css_functions_rewritten, css_rewritten,
    css_selector_match_rewritten, css_selectors_rewritten, css_unescaped, whole_of, Attributes,
};

verus! {

/// Where there is no match, putting a text together again gives the text.
pub proof fn lemma_spliced_without_matches(text: Seq<char>, replacements: Seq<Seq<char>>)
    ensures
        spliced(text, Seq::<CaptureView>::empty(), replacements) == text,
{
    let none = Seq::<CaptureView>::empty();
    assert(stitched(text, none, replacements, 0) == Seq::<char>::empty());
    assert(text.subrange(0, text.len() as int) == text);
    assert(Seq::<char>::empty() + text == text);
}

/// A style sheet in which no selector, no attribute selector, no function
/// and no marked name is found is rewritten to itself, whatever the registry
/// holds.
pub proof fn lemma_css_without_matches(
    text: Seq<char>,
    entries: Seq<Entry>,
    attributes: Attributes,
    depth: nat,
)
    requires
        !has_match(CSS_SELECTORS@, text),
        !has_match(CSS_ATTRIBUTES@, text),
        !has_match(CSS_FUNCTIONS@, text),
        !has_match(PREFIXED_SELECTORS@, text),
    ensures
        css_rewritten(text, entries, attributes, depth) == text,
{
    let none = Seq::<CaptureView>::empty();
    assert(captures_of(CSS_SELECTORS@, text) =~= none);
    assert(captures_of(CSS_ATTRIBUTES@, text) =~= none);
    assert(captures_of(CSS_FUNCTIONS@, text) =~= none);
    assert(captures_of(PREFIXED_SELECTORS@, text) =~= none);
    assert(css_selectors_rewritten(text, entries) == text) by {
        let written = Seq::new(
            none.len(),
            |k: int| crate::style::css_selector_match_rewritten(none[k], entries),
        );
        lemma_spliced_without_matches(text, written);
    }
    assert(css_attributes_rewritten(text, entries, attributes, depth) == text) by {
        lemma_spliced_without_matches(
            text,
            css_attribute_rewritings(none, entries, attributes, depth, 0),
        );
    }
    assert(css_functions_rewritten(text, entries) == text) by {
        let written = Seq::new(
            none.len(),
            |k: int| crate::style::css_function_match_rewritten(none[k], entries),
        );
        lemma_spliced_without_matches(text, written);
    }
    lemma_prefixed_without_matches(text, entries);
}

/// The selectors of a style sheet stay as they are written where the
/// registry has no new name for any of them: names that were handed out
/// before are not taken for names to replace.
pub proof fn lemma_css_selectors_without_names(text: Seq<char>, entries: Seq<Entry>)
    requires
        forall|k: int|
            0 <= k < captures_of(CSS_SELECTORS@, text).len() ==> css_selector_match_rewritten(
                #[trigger] captures_of(CSS_SELECTORS@, text)[k],
                entries,
            ) == whole_of(captures_of(CSS_SELECTORS@, text)[k]),
    ensures
        css_selectors_rewritten(text, entries) == text,
{
    let captures = captures_of(CSS_SELECTORS@, text);
    let written = Seq::new(
        captures.len(),
        |k: int| css_selector_match_rewritten(captures[k], entries),
    );
    lemma_captures_well_spaced(CSS_SELECTORS@, text);
    assert forall|j: int| 0 <= j < captures.len() implies #[trigger] written[j] == text.subrange(
        captures[j].start as int,
        captures[j].end as int,
    ) by {
        assert(captures[j].groups[0] == Some(
            text.subrange(captures[j].start as int, captures[j].end as int),
        ));
    }
    lemma_spliced_verbatim(text, captures, written);
}

/// A selector for which the registry has no new name is written as it
/// stands.
pub proof fn lemma_css_selector_without_name(capture: CaptureView, entries: Seq<Entry>)
    requires
        capture.at(2) is Some ==> replacement_of(
            entries,
            group(capture, 1) + css_unescaped(capture.at(2).unwrap()),
        ) is None,
    ensures
        css_selector_match_rewritten(capture, entries) == whole_of(capture),
{
}

/// A text in which no marked name is found keeps its wording when the marked
/// names are rewritten.
pub proof fn lemma_prefixed_without_matches(text: Seq<char>, entries: Seq<Entry>)
    requires
        !has_match(PREFIXED_SELECTORS@, text),
    ensures
        prefixed_rewritten(text, entries) == text,
{
    let none = Seq::<CaptureView>::empty();
    assert(captures_of(PREFIXED_SELECTORS@, text) =~= none);
    let written = Seq::new(
        none.len(),
        |k: int| crate::parse_selectors::prefixed_match_rewritten(none[k], entries),
    );
    lemma_spliced_without_matches(text, written);
}

/// A piece of markup in which no attribute, no script element, no style
/// element and no marked name is found is rewritten to itself, whatever the
/// registry holds.
pub proof fn lemma_html_without_matches(
    text: Seq<char>,
    entries: Seq<Entry>,
    attributes: Attributes,
    depth: nat,
)
    requires
        !has_match(HTML_ATTRIBUTES@, text),
        !has_match(HTML_SCRIPT_ELEMENT@, text),
        !has_match(HTML_STYLE_ELEMENT@, text),
        !has_match(PREFIXED_SELECTORS@, text),
    ensures
        html_rewritten(text, entries, attributes, depth) == text,
{
    let none = Seq::<CaptureView>::empty();
    assert(captures_of(HTML_ATTRIBUTES@, text) =~= none);
    assert(captures_of(HTML_SCRIPT_ELEMENT@, text) =~= none);
    assert(captures_of(HTML_STYLE_ELEMENT@, text) =~= none);
    assert(html_attributes_rewritten(text, entries, attributes, depth) == text) by {
        lemma_spliced_without_matches(
            text,
            html_attribute_rewritings(none, entries, attributes, depth, 0),
        );
    }
    assert(html_scripts_rewritten(text, entries, attributes, depth) == text) by {
        lemma_spliced_without_matches(
            text,
            html_script_rewritings(none, entries, attributes, depth, 0),
        );
    }
    assert(html_styles_rewritten(text, entries, attributes, depth) == text) by {
        let written = Seq::new(
            none.len(),
            |k: int|
                crate::markup::html_style_match_rewritten(none[k], entries, attributes, depth),
        );
        lemma_spliced_without_matches(text, written);
    }
    lemma_prefixed_without_matches(text, entries);
}

/// A script in which no call, no use of a property and no marked name is
/// found is rewritten to itself, whatever the registry holds.
pub proof fn lemma_js_without_matches(
    text: Seq<char>,
    entries: Seq<Entry>,
    attributes: Attributes,
    depth: nat,
)
    requires
        !has_match(JS_ARGUMENTS@, text),
        !has_match(JS_PROPERTIES@, text),
        !has_match(PREFIXED_SELECTORS@, text),
    ensures
        js_rewritten(text, entries, attributes, depth) == text,
{
    let none = Seq::<CaptureView>::empty();
    assert(captures_of(JS_ARGUMENTS@, text) =~= none);
    assert(captures_of(JS_PROPERTIES@, text) =~= none);
    assert(js_arguments_rewritten(text, entries, attributes, depth) == text) by {
        lemma_spliced_without_matches(
            text,
            js_argument_rewritings(none, entries, attributes, depth, 0),
        );
    }
    assert(js_properties_rewritten(text, entries, attributes, depth) == text) by {
        lemma_spliced_without_matches(
            text,
            js_property_rewritings(none, entries, attributes, depth, 0),
        );
    }
    lemma_prefixed_without_matches(text, entries);
}

} // verus!
