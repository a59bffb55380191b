//! The settings of a run, from the command line or from a file of settings.

use vstd::prelude::*;

use crate::encode_selector::{alphabet_chars, into_alphabet_set, invalid_first_positions};
use crate::registry::{Config, ProcessingSteps};

verus! {

/// What the command line holds. A switch may be missing, given without a
/// value, or given with one.
pub struct Cli {
    pub config: Option<String>,
    pub input: Option<String>,
    pub output: Option<String>,
    pub start_index: Option<usize>,
    pub alphabet: Option<String>,
    pub parallel: Option<Option<bool>>,
    pub sort: Option<Option<bool>>,
    pub custom_class_attribute: Option<Vec<String>>,
    pub custom_id_attribute: Option<Vec<String>>,
    pub custom_selector_attribute: Option<Vec<String>>,
    pub custom_anchor_attribute: Option<Vec<String>>,
    pub custom_style_attribute: Option<Vec<String>>,
    pub custom_script_attribute: Option<Vec<String>>,
}

/// What a file of settings holds.
pub struct ExternalConfig {
    pub input: String,
    pub output: String,
    pub alphabet: Option<String>,
    pub start_index: Option<usize>,
    pub parallel: Option<bool>,
    pub sort: Option<bool>,
}

/// The alphabet that a run uses where none is given.
pub open spec fn default_alphabet() -> Seq<char> {
    "0123456789abcdefghijklmnopqrstuvwxyzABCDEFGHIJKLMNOPQRSTUVWXYZ"@
}

/// The characters of the alphabet that was asked for, or of the default one.
pub open spec fn chosen_alphabet(asked: Option<Seq<char>>) -> Seq<char> {
    match asked {
        Some(alphabet) => alphabet_chars(alphabet),
        None => alphabet_chars(default_alphabet()),
    }
}

/// What a switch of the command line means: given without a value it is on,
/// and missing it is as the default says.
pub open spec fn switch(given: Option<Option<bool>>, default: bool) -> bool {
    match given {
        None => default,
        Some(None) => true,
        Some(Some(value)) => value,
    }
}

/// The value given, or the default.
pub open spec fn or_default<T>(given: Option<T>, default: T) -> T {
    match given {
        Some(value) => value,
        None => default,
    }
}

/// The names of a list, each with the kind of attribute it is to be.
pub open spec fn labelled(names: Option<Seq<Seq<char>>>, kind: Seq<char>) -> Seq<
    (Seq<char>, Seq<char>),
> {
    match names {
        Some(list) => Seq::new(list.len(), |i: int| (list[i], kind)),
        None => Seq::empty(),
    }
}

/// The attributes that the command line adds: the classes, the ids, the
/// selectors, the links, the styles and the scripts, in that order.
pub open spec fn custom_attributes_of(cli: &Cli) -> Seq<(Seq<char>, Seq<char>)> {
    labelled(cli.custom_class_attribute.deep_view(), "class"@) + labelled(
        cli.custom_id_attribute.deep_view(),
        "id"@,
    ) + labelled(cli.custom_selector_attribute.deep_view(), "selector"@) + labelled(
        cli.custom_anchor_attribute.deep_view(),
        "anchor"@,
    ) + labelled(cli.custom_style_attribute.deep_view(), "style"@) + labelled(
        cli.custom_script_attribute.deep_view(),
        "script"@,
    )
}

/// Adds the names of a list to the attributes, each with its kind.
pub fn add_labelled(attributes: &mut Vec<(String, String)>, names: &Option<Vec<String>>, kind: &str)
    ensures
        final(attributes).deep_view() == old(attributes).deep_view() + labelled(
            names.deep_view(),
            kind@,
        ),
{
    let ghost before = attributes.deep_view();
    match names {
        Some(list) => {
            let ghost all = list.deep_view();
            let mut i: usize = 0;
            assert(attributes.deep_view() =~= before + Seq::new(0, |j: int| (all[j], kind@)));
            while i < list.len()
                invariant
                    all == list.deep_view(),
                    i <= list@.len(),
                    attributes.deep_view() == before + Seq::new(i as nat, |j: int| (all[j], kind@)),
                decreases list@.len() - i,
            {
                let ghost earlier = attributes.deep_view();
                assert(all[i as int] == list@[i as int]@);
                attributes.push((list[i].clone(), kind.to_owned()));
                assert(attributes.deep_view() =~= earlier.push((all[i as int], kind@)));
                assert(earlier.push((all[i as int], kind@)) =~= before + Seq::new(
                    (i + 1) as nat,
                    |j: int| (all[j], kind@),
                ));
                i = i + 1;
            }
            assert(names.deep_view() == Some(all));
        },
        None => {
            assert(attributes.deep_view() =~= before + Seq::<(Seq<char>, Seq<char>)>::empty());
        },
    }
}

impl Config {
    /// The settings of a run. Where a file of settings is given, the paths,
    /// the alphabet, the first ordinal and the switches come from it, and
    /// else from the command line. The attributes that a run adds come from
    /// the command line.
    pub fn new(cli: &Cli, external: Option<&ExternalConfig>) -> (config: Self)
        requires
            external is Some || (cli.input is Some && cli.output is Some),
        ensures
            config.input@ == match external {
                Some(file) => file.input@,
                None => cli.input.unwrap()@,
            },
            config.output@ == match external {
                Some(file) => file.output@,
                None => cli.output.unwrap()@,
            },
            config.alphabet.0@ == chosen_alphabet(
                match external {
                    Some(file) => file.alphabet.deep_view(),
                    None => cli.alphabet.deep_view(),
                },
            ),
            config.alphabet.1@ == invalid_first_positions(config.alphabet.0@),
            config.start_index == match external {
                Some(file) => or_default(file.start_index, 0),
                None => or_default(cli.start_index, 0),
            },
            config.parallel == match external {
                Some(file) => or_default(file.parallel, false),
                None => switch(cli.parallel, false),
            },
            config.sort == match external {
                Some(file) => or_default(file.sort, true),
                None => switch(cli.sort, true),
            },
            config.current_step == ProcessingSteps::ReadingFromFiles,
            config.custom_attributes.deep_view() == custom_attributes_of(cli),
    {
        let standard = "0123456789abcdefghijklmnopqrstuvwxyzABCDEFGHIJKLMNOPQRSTUVWXYZ";
        let mut custom_attributes: Vec<(String, String)> = Vec::new();
        assert(custom_attributes.deep_view() =~= Seq::<(Seq<char>, Seq<char>)>::empty());
        add_labelled(&mut custom_attributes, &cli.custom_class_attribute, "class");
        add_labelled(&mut custom_attributes, &cli.custom_id_attribute, "id");
        add_labelled(&mut custom_attributes, &cli.custom_selector_attribute, "selector");
        add_labelled(&mut custom_attributes, &cli.custom_anchor_attribute, "anchor");
        add_labelled(&mut custom_attributes, &cli.custom_style_attribute, "style");
        add_labelled(&mut custom_attributes, &cli.custom_script_attribute, "script");
        assert(custom_attributes.deep_view() =~= custom_attributes_of(cli));
        match external {
            Some(file) => Config {
                input: file.input.clone(),
                output: file.output.clone(),
                alphabet: match &file.alphabet {
                    Some(alphabet) => into_alphabet_set(alphabet.as_str()),
                    None => into_alphabet_set(standard),
                },
                start_index: match file.start_index {
                    Some(index) => index,
                    None => 0,
                },
                current_step: ProcessingSteps::ReadingFromFiles,
                parallel: match file.parallel {
                    Some(parallel) => parallel,
                    None => false,
                },
                sort: match file.sort {
                    Some(sort) => sort,
                    None => true,
                },
                custom_attributes,
            },
            None => Config {
                input: match &cli.input {
                    Some(input) => input.clone(),
                    None => String::new(),
                },
                output: match &cli.output {
                    Some(output) => output.clone(),
                    None => String::new(),
                },
                alphabet: match &cli.alphabet {
                    Some(alphabet) => into_alphabet_set(alphabet.as_str()),
                    None => into_alphabet_set(standard),
                },
                start_index: match cli.start_index {
                    Some(index) => index,
                    None => 0,
                },
                current_step: ProcessingSteps::ReadingFromFiles,
                parallel: match cli.parallel {
                    None => false,
                    Some(None) => true,
                    Some(Some(value)) => value,
                },
                sort: match cli.sort {
                    None => true,
                    Some(None) => true,
                    Some(Some(value)) => value,
                },
                custom_attributes,
            },
        }
    }
}

} // verus!
