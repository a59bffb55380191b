//! Shortens the class and id names of a set of CSS, HTML, SVG and JavaScript
//! sources while keeping every reference between them intact.

pub mod allocation;
pub mod allocation_laws;
pub mod config;
pub mod encode_selector;
pub mod encoder_laws;
pub mod escapes;
pub mod files;
pub mod html_attributes;
pub mod markup;
pub mod named_char_refs;
pub mod occurrences;
pub mod ordered_map;
pub mod ordering_laws;
pub mod parse_selectors;
pub mod regexes;
pub mod registry;
pub mod registry_laws;
pub mod renaming_laws;
pub mod rewriting_laws;
pub mod scan;
pub mod script;
pub mod style;
pub mod text;
pub mod verbatim_laws;
