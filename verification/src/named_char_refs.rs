//! Named character references of markup.
//!
//! Three lists hold the names that are read: the 96 names of the characters
//! of Latin-1 from the no-break space to the y with diaeresis, the 49 names
//! of the Greek letters, and 46 names of signs, which are the five
//! characters of the syntax (`quot`, `amp`, `lt`, `gt`, `apos`) and 41
//! letters, spaces, dashes, quotes, arrows and other symbols. No other name
//! is read. A reference is written `&`, the name and `;`. The references to
//! Latin-1 and to `quot`, `amp`, `lt` and `gt` are the older ones, and those
//! are read without the `;` at the end too.

use vstd::prelude::*;

use crate::escapes::is_scalar;
use crate::style::single;
use crate::text::{chars_of, same_text, slice_of};

verus! {

/// The names of the characters of Latin-1, from the code point 160 on.
pub const LATIN: [&'static str; 96] = [
    "nbsp", "iexcl", "cent", "pound", "curren", "yen", "brvbar", "sect", "uml", "copy", "ordf",
    "laquo", "not", "shy", "reg", "macr", "deg", "plusmn", "sup2", "sup3", "acute", "micro",
    "para", "middot", "cedil", "sup1", "ordm", "raquo", "frac14", "frac12", "frac34", "iquest",
    "Agrave", "Aacute", "Acirc", "Atilde", "Auml", "Aring", "AElig", "Ccedil", "Egrave",
    "Eacute", "Ecirc", "Euml", "Igrave", "Iacute", "Icirc", "Iuml", "ETH", "Ntilde", "Ograve",
    "Oacute", "Ocirc", "Otilde", "Ouml", "times", "Oslash", "Ugrave", "Uacute", "Ucirc", "Uuml",
    "Yacute", "THORN", "szlig", "agrave", "aacute", "acirc", "atilde", "auml", "aring", "aelig",
    "ccedil", "egrave", "eacute", "ecirc", "euml", "igrave", "iacute", "icirc", "iuml", "eth",
    "ntilde", "ograve", "oacute", "ocirc", "otilde", "ouml", "divide", "oslash", "ugrave",
    "uacute", "ucirc", "uuml", "yacute", "thorn", "yuml",
];

/// The names of the Greek letters, the capitals and then the small ones, in
/// the order of their code points.
pub const GREEK: [&'static str; 49] = [
    "Alpha", "Beta", "Gamma", "Delta", "Epsilon", "Zeta", "Eta", "Theta", "Iota", "Kappa",
    "Lambda", "Mu", "Nu", "Xi", "Omicron", "Pi", "Rho", "Sigma", "Tau", "Upsilon", "Phi", "Chi",
    "Psi", "Omega", "alpha", "beta", "gamma", "delta", "epsilon", "zeta", "eta", "theta", "iota",
    "kappa", "lambda", "mu", "nu", "xi", "omicron", "pi", "rho", "sigmaf", "sigma", "tau",
    "upsilon", "phi", "chi", "psi", "omega",
];

/// The names of the characters of the syntax and of the symbols.
pub const SIGNS: [&'static str; 46] = [
    "quot", "amp", "lt", "gt", "apos", "OElig", "oelig", "Scaron", "scaron", "Yuml", "fnof",
    "circ", "tilde", "ensp", "emsp", "thinsp", "zwnj", "zwj", "lrm", "rlm", "ndash", "mdash",
    "lsquo", "rsquo", "sbquo", "ldquo", "rdquo", "bdquo", "dagger", "Dagger", "bull", "hellip",
    "permil", "prime", "Prime", "lsaquo", "rsaquo", "oline", "frasl", "euro", "trade", "larr",
    "uarr", "rarr", "darr", "harr",
];

/// The code points of the characters of the syntax and of the symbols, in
/// the order of their names.
pub const SIGN_CODES: [u32; 46] = [
    34, 38, 60, 62, 39, 338, 339, 352, 353, 376, 402, 710, 732, 8194, 8195, 8201, 8204, 8205,
    8206, 8207, 8211, 8212, 8216, 8217, 8218, 8220, 8221, 8222, 8224, 8225, 8226, 8230, 8240,
    8242, 8243, 8249, 8250, 8254, 8260, 8364, 8482, 8592, 8593, 8594, 8595, 8596,
];

/// The first place from `i` on at which `name` stands among the names of Latin-1.
pub open spec fn latin_from(name: Seq<char>, i: int) -> Option<int>
    decreases 96 - i,
{
    if i < 0 || i >= 96 {
        None
    } else if LATIN@[i]@ == name {
        Some(i)
    } else {
        latin_from(name, i + 1)
    }
}

/// Finds `name` among the names of Latin-1.
pub fn latin_place(name: &str) -> (place: Option<usize>)
    ensures
        match place {
            Some(i) => latin_from(name@, 0) == Some(i as int) && i < 96,
            None => latin_from(name@, 0) is None,
        },
{
    let mut i: usize = 0;
    while i < 96
        invariant
            i <= 96,
            latin_from(name@, 0) == latin_from(name@, i as int),
        decreases 96 - i,
    {
        if same_text(LATIN[i], name) {
            return Some(i);
        }
        i = i + 1;
    }
    None
}

/// The first place from `i` on at which `name` stands among the names of the Greek letters.
pub open spec fn greek_from(name: Seq<char>, i: int) -> Option<int>
    decreases 49 - i,
{
    if i < 0 || i >= 49 {
        None
    } else if GREEK@[i]@ == name {
        Some(i)
    } else {
        greek_from(name, i + 1)
    }
}

/// Finds `name` among the names of the Greek letters.
pub fn greek_place(name: &str) -> (place: Option<usize>)
    ensures
        match place {
            Some(i) => greek_from(name@, 0) == Some(i as int) && i < 49,
            None => greek_from(name@, 0) is None,
        },
{
    let mut i: usize = 0;
    while i < 49
        invariant
            i <= 49,
            greek_from(name@, 0) == greek_from(name@, i as int),
        decreases 49 - i,
    {
        if same_text(GREEK[i], name) {
            return Some(i);
        }
        i = i + 1;
    }
    None
}

/// The first place from `i` on at which `name` stands among the names of the signs.
pub open spec fn signs_from(name: Seq<char>, i: int) -> Option<int>
    decreases 46 - i,
{
    if i < 0 || i >= 46 {
        None
    } else if SIGNS@[i]@ == name {
        Some(i)
    } else {
        signs_from(name, i + 1)
    }
}

/// Finds `name` among the names of the signs.
pub fn signs_place(name: &str) -> (place: Option<usize>)
    ensures
        match place {
            Some(i) => signs_from(name@, 0) == Some(i as int) && i < 46,
            None => signs_from(name@, 0) is None,
        },
{
    let mut i: usize = 0;
    while i < 46
        invariant
            i <= 46,
            signs_from(name@, 0) == signs_from(name@, i as int),
        decreases 46 - i,
    {
        if same_text(SIGNS[i], name) {
            return Some(i);
        }
        i = i + 1;
    }
    None
}

/// The code point of the Greek letter at place `i` of the list. No letter
/// has the code point behind capital rho.
pub open spec fn greek_code(i: int) -> int {
    if i < 17 {
        913 + i
    } else if i < 24 {
        914 + i
    } else {
        921 + i
    }
}

/// The code point that a name stands for, and whether the name is one of
/// the older ones.
pub open spec fn named_code(name: Seq<char>) -> Option<(int, bool)> {
    match signs_from(name, 0) {
        Some(i) => Some((SIGN_CODES@[i] as int, i < 4)),
        None => match latin_from(name, 0) {
            Some(i) => Some((160 + i, true)),
            None => match greek_from(name, 0) {
                Some(i) => Some((greek_code(i), false)),
                None => None,
            },
        },
    }
}

/// Whether a reference comes with the `;` at its end.
pub open spec fn is_closed(reference: Seq<char>) -> bool {
    reference.len() >= 2 && reference.last() == ';'
}

/// The name in a reference: what stands between the `&` and the `;`.
pub open spec fn reference_name(reference: Seq<char>) -> Seq<char> {
    if is_closed(reference) {
        reference.subrange(1, reference.len() - 1)
    } else {
        reference.subrange(1, reference.len() as int)
    }
}

/// What the reference stands for, if its name is on the lists. A reference
/// without the `;` stands for something only where its name is one of the
/// older ones.
pub open spec fn entity_value(reference: Seq<char>) -> Option<Seq<char>> {
    if reference.len() >= 1 {
        match named_code(reference_name(reference)) {
            Some((code, older)) => if (is_closed(reference) || older) && 0 <= code
                && is_scalar(code as nat) {
                Some(seq![(code as u32) as char])
            } else {
                None
            },
            None => None,
        }
    } else {
        None
    }
}

/// Looks up the code point that a name stands for.
pub fn code_of(name: &str) -> (found: Option<(u32, bool)>)
    ensures
        match found {
            Some((code, older)) => named_code(name@) == Some((code as int, older)),
            None => named_code(name@) is None,
        },
{
    match signs_place(name) {
        Some(i) => Some((SIGN_CODES[i], i < 4)),
        None => match latin_place(name) {
            Some(i) => Some((160 + i as u32, true)),
            None => match greek_place(name) {
                Some(i) => {
                    let code: u32 = if i < 17 {
                        913 + i as u32
                    } else if i < 24 {
                        914 + i as u32
                    } else {
                        921 + i as u32
                    };
                    Some((code, false))
                },
                None => None,
            },
        },
    }
}

/// Looks up what a reference stands for.
pub fn entity(reference: &str) -> (value: Option<String>)
    ensures
        match value {
            Some(text) => entity_value(reference@) == Some(text@),
            None => entity_value(reference@) is None,
        },
{
    let chars = chars_of(reference);
    if chars.len() < 1 {
        return None;
    }
    let closed = chars.len() >= 2 && chars[chars.len() - 1] == ';';
    let name = if closed {
        slice_of(&chars, 1, chars.len() - 1)
    } else {
        slice_of(&chars, 1, chars.len())
    };
    match code_of(name.as_str()) {
        Some((code, older)) => {
            if closed || older {
                match char::from_u32(code) {
                    Some(c) => {
                        proof {
                            vstd::utf8::char_u32_cast(c, code);
                        }
                        Some(single(c))
                    },
                    None => None,
                }
            } else {
                None
            }
        },
        None => None,
    }
}

} // verus!
