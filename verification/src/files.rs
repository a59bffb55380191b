//! Reading and rewriting whole files.
//!
//! A run first reads every file, which fills the registry, then hands out
//! the names, then rewrites every file. Style sheets, markup and scripts may
//! hold one another; how deep that goes is limited, and what is nested
//! deeper is left as it stands.

use vstd::prelude::*;

use crate::html_attributes::{custom_entries, init, standard_entries};
use crate::markup::{analyse_html, html_occurrences, html_rewritten, rewrite_html};
use crate::occurrences::{lemma_noted_keeps, noted_in};
use crate::registry::{all_balanced, distinct_keys, kinds_agree, Config, Selectors};
use crate::script::{analyse_js, js_occurrences, js_rewritten, rewrite_js};
use crate::style::{analyse_css, css_occurrences, css_rewritten, rewrite_css, Attributes};

verus! {

/// How deep style sheets, markup and scripts may be nested in one another.
pub const NESTING_LIMIT: usize = 4;

/// The attributes that a run looks at: the standard ones, then those that its
/// settings add.
pub open spec fn attributes_of(config: &Config) -> Attributes {
    standard_entries() + custom_entries(config.custom_attributes.deep_view())
}

/// Reads a style sheet: every selector in it is noted in the registry.
pub fn read_from_css(file_string: &str, selectors: &mut Selectors, config: &Config)
    ensures
        final(selectors)@ == noted_in(
            old(selectors)@,
            css_occurrences(file_string@, attributes_of(config), NESTING_LIMIT as nat),
        ),
        all_balanced(old(selectors)@.entries) ==> all_balanced(final(selectors)@.entries),
        distinct_keys(old(selectors)@.entries) ==> distinct_keys(final(selectors)@.entries),
        kinds_agree(old(selectors)@.entries) ==> kinds_agree(final(selectors)@.entries),
{
    let whitelist = init(&config.custom_attributes);
    proof {
        lemma_noted_keeps(
            selectors@.entries,
            css_occurrences(file_string@, attributes_of(config), NESTING_LIMIT as nat),
        );
    }
    analyse_css(file_string, selectors, &whitelist, NESTING_LIMIT);
}

/// Rewrites a style sheet: every selector with a new name is written with
/// it, and everything else stays as it is.
pub fn write_to_css(file_string: &mut String, selectors: &Selectors, config: &Config)
    ensures
        final(file_string)@ == css_rewritten(
            old(file_string)@,
            selectors@.entries,
            attributes_of(config),
            NESTING_LIMIT as nat,
        ),
{
    let whitelist = init(&config.custom_attributes);
    rewrite_css(file_string, selectors, &whitelist, NESTING_LIMIT);
}

/// Reads a file of markup: every selector in it is noted in the registry.
pub fn read_from_html(file_string: &str, selectors: &mut Selectors, config: &Config)
    ensures
        final(selectors)@ == noted_in(
            old(selectors)@,
            html_occurrences(file_string@, attributes_of(config), None, NESTING_LIMIT as nat),
        ),
        all_balanced(old(selectors)@.entries) ==> all_balanced(final(selectors)@.entries),
        distinct_keys(old(selectors)@.entries) ==> distinct_keys(final(selectors)@.entries),
        kinds_agree(old(selectors)@.entries) ==> kinds_agree(final(selectors)@.entries),
{
    let whitelist = init(&config.custom_attributes);
    proof {
        lemma_noted_keeps(
            selectors@.entries,
            html_occurrences(file_string@, attributes_of(config), None, NESTING_LIMIT as nat),
        );
    }
    analyse_html(file_string, selectors, &whitelist, None, NESTING_LIMIT);
}

/// Rewrites a file of markup.
pub fn write_to_html(file_string: &mut String, selectors: &Selectors, config: &Config)
    ensures
        final(file_string)@ == html_rewritten(
            old(file_string)@,
            selectors@.entries,
            attributes_of(config),
            NESTING_LIMIT as nat,
        ),
{
    let whitelist = init(&config.custom_attributes);
    rewrite_html(file_string, selectors, &whitelist, NESTING_LIMIT);
}

/// Reads a script: every selector in it is noted in the registry.
pub fn read_from_js(file_string: &str, selectors: &mut Selectors, config: &Config)
    ensures
        final(selectors)@ == noted_in(
            old(selectors)@,
            js_occurrences(file_string@, attributes_of(config), NESTING_LIMIT as nat),
        ),
        all_balanced(old(selectors)@.entries) ==> all_balanced(final(selectors)@.entries),
        distinct_keys(old(selectors)@.entries) ==> distinct_keys(final(selectors)@.entries),
        kinds_agree(old(selectors)@.entries) ==> kinds_agree(final(selectors)@.entries),
{
    let whitelist = init(&config.custom_attributes);
    proof {
        lemma_noted_keeps(
            selectors@.entries,
            js_occurrences(file_string@, attributes_of(config), NESTING_LIMIT as nat),
        );
    }
    analyse_js(file_string, selectors, &whitelist, NESTING_LIMIT);
}

/// Rewrites a script.
pub fn write_to_js(file_string: &mut String, selectors: &Selectors, config: &Config)
    ensures
        final(file_string)@ == js_rewritten(
            old(file_string)@,
            selectors@.entries,
            attributes_of(config),
            NESTING_LIMIT as nat,
        ),
{
    let whitelist = init(&config.custom_attributes);
    rewrite_js(file_string, selectors, &whitelist, NESTING_LIMIT);
}

} // verus!
