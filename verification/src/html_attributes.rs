//! The attributes whose values hold classes, ids, selectors, links, styles
//! or scripts.

use vstd::prelude::*;

use crate::text::{chars_of, same_text};

verus! {

/// What the value of an attribute holds.
#[derive(Clone, Copy, Debug, PartialEq, Eq, Structural)]
pub enum Designation {
    /// Class names, separated by spaces.
    Class,
    /// An id, or ids separated by spaces.
    Id,
    /// A selector string.
    Selector,
    /// A link that may point at an id.
    Anchor,
    /// Style declarations.
    Style,
    /// Script.
    Script,
    /// Something this crate does not know; the value is left alone.
    Unknown,
}

/// The names of the standard attributes: the class attribute, those that
/// refer to ids, the links, those that hold styles, and the event handlers.
pub const STANDARD_ATTRIBUTES: [&'static str; 114] = [
    "class", "id", "aria-controls", "aria-describedby", "aria-labelledby", "for", "form",
    "headers", "itemref", "list", "href", "xlink:href", "fill", "style", "onabort",
    "onactivate", "onafterprint", "onauxclick", "onbeforeinput", "onbeforematch",
    "onbeforeprint", "onbeforeunload", "onbegin", "onblur", "oncancel", "oncanplay",
    "oncanplaythrough", "onchange", "onclick", "onclose", "oncontextextlost",
    "oncontextextmenu", "oncontextextrestored", "oncopy", "oncuechange", "oncut", "ondblclick",
    "ondrag", "ondragend", "ondragenter", "ondragexit", "ondragleave", "ondragover",
    "ondragstart", "ondrop", "ondurationchange", "onemptied", "onend", "onended", "onerror",
    "onfocus", "onfocusin", "onfocusout", "onformdata", "onhashchange", "oninput", "oninvalid",
    "onkeydown", "onkeypress", "onkeyup", "onlanguagechange", "onload", "onloadeddata",
    "onloadedmetadata", "onloadstart", "onmessage", "onmessageerror", "onmousedown",
    "onmouseenter", "onmouseleave", "onmousemove", "onmouseout", "onmouseover", "onmouseup",
    "onmousewheel", "onoffline", "ononline", "onpagehide", "onpageshow", "onpaste", "onpause",
    "onplay", "onplaying", "onpopstate", "onprogress", "onratechange", "onrejectionhandled",
    "onrepeat", "onresize", "onresize", "onscroll", "onscrollend", "onsecuritypolicyviolation",
    "onsearch", "onseeked", "onseeking", "onselect", "onslotchange", "onshow", "onstalled",
    "onstorage", "onsubmit", "onsuspend", "ontimeupdate", "ontoggle", "onunhandledrejection",
    "onunload", "onvolumechange", "onwaiting", "onwebkitanimationend",
    "onwebkitanimationiteration", "onwebkitanimationstart", "onwebkitanimationend", "onwheel",
];

/// What the standard attribute at place `i` of the list holds.
pub open spec fn standard_designation(i: int) -> Designation {
    if i < 1 {
        Designation::Class
    } else if i < 10 {
        Designation::Id
    } else if i < 12 {
        Designation::Anchor
    } else if i < 14 {
        Designation::Style
    } else {
        Designation::Script
    }
}

/// What a word for a kind of attribute stands for.
pub open spec fn designation_named(kind: Seq<char>) -> Designation {
    if kind == "class"@ {
        Designation::Class
    } else if kind == "id"@ {
        Designation::Id
    } else if kind == "selector"@ {
        Designation::Selector
    } else if kind == "anchor"@ {
        Designation::Anchor
    } else if kind == "style"@ {
        Designation::Style
    } else if kind == "script"@ {
        Designation::Script
    } else {
        Designation::Unknown
    }
}

/// The attributes that a run looks at, each with what its value holds. Where
/// a name stands more than once, the last entry counts.
pub struct Whitelist {
    pub entries: Vec<(Vec<char>, Designation)>,
}

impl View for Whitelist {
    type V = Seq<(Seq<char>, Designation)>;

    open spec fn view(&self) -> Seq<(Seq<char>, Designation)> {
        Seq::new(self.entries@.len(), |i: int| (self.entries@[i].0@, self.entries@[i].1))
    }
}

/// The entries for the standard attributes.
pub open spec fn standard_entries() -> Seq<(Seq<char>, Designation)> {
    Seq::new(114, |i: int| (STANDARD_ATTRIBUTES@[i]@, standard_designation(i)))
}

/// The entries for the attributes that a run adds.
pub open spec fn custom_entries(custom: Seq<(Seq<char>, Seq<char>)>) -> Seq<
    (Seq<char>, Designation),
> {
    Seq::new(custom.len(), |i: int| (custom[i].0, designation_named(custom[i].1)))
}

/// What the value of the attribute `name` holds, if the list has the name.
pub open spec fn designation(entries: Seq<(Seq<char>, Designation)>, name: Seq<char>) -> Option<
    Designation,
>
    decreases entries.len(),
{
    if entries.len() == 0 {
        None
    } else if entries.last().0 == name {
        Some(entries.last().1)
    } else {
        designation(entries.drop_last(), name)
    }
}

/// Reads a word for a kind of attribute.
pub fn designation_of(kind: &str) -> (found: Designation)
    ensures
        found == designation_named(kind@),
{
    if same_text(kind, "class") {
        Designation::Class
    } else if same_text(kind, "id") {
        Designation::Id
    } else if same_text(kind, "selector") {
        Designation::Selector
    } else if same_text(kind, "anchor") {
        Designation::Anchor
    } else if same_text(kind, "style") {
        Designation::Style
    } else if same_text(kind, "script") {
        Designation::Script
    } else {
        Designation::Unknown
    }
}

/// The list of attributes for a run: the standard ones, then those that the
/// run adds, which may give a standard name another meaning.
pub fn init(custom_attributes: &Vec<(String, String)>) -> (whitelist: Whitelist)
    ensures
        whitelist@ == standard_entries() + custom_entries(custom_attributes.deep_view()),
{
    let mut entries: Vec<(Vec<char>, Designation)> = Vec::new();
    let mut i: usize = 0;
    while i < 114
        invariant
            i <= 114,
            entries@.len() == i,
            forall|j: int|
                0 <= j < i ==> (#[trigger] entries@[j]).0@ == STANDARD_ATTRIBUTES@[j]@
                    && entries@[j].1 == standard_designation(j),
        decreases 114 - i,
    {
        let kind = if i < 1 {
            Designation::Class
        } else if i < 10 {
            Designation::Id
        } else if i < 12 {
            Designation::Anchor
        } else if i < 14 {
            Designation::Style
        } else {
            Designation::Script
        };
        entries.push((chars_of(STANDARD_ATTRIBUTES[i]), kind));
        i = i + 1;
    }
    let ghost custom = custom_attributes.deep_view();
    let mut c: usize = 0;
    while c < custom_attributes.len()
        invariant
            custom == custom_attributes.deep_view(),
            c <= custom_attributes@.len(),
            entries@.len() == 114 + c,
            forall|j: int|
                0 <= j < 114 ==> (#[trigger] entries@[j]).0@ == STANDARD_ATTRIBUTES@[j]@
                    && entries@[j].1 == standard_designation(j),
            forall|j: int|
                114 <= j < 114 + c ==> (#[trigger] entries@[j]).0@ == custom[j - 114].0
                    && entries@[j].1 == designation_named(custom[j - 114].1),
        decreases custom_attributes@.len() - c,
    {
        assert(custom[c as int] == custom_attributes@[c as int].deep_view());
        let name = chars_of(custom_attributes[c].0.as_str());
        let kind = designation_of(custom_attributes[c].1.as_str());
        entries.push((name, kind));
        c = c + 1;
    }
    let whitelist = Whitelist { entries };
    assert(whitelist@ =~= standard_entries() + custom_entries(custom));
    whitelist
}

impl Whitelist {
    /// Looks up what the value of the attribute `name` holds.
    pub fn lookup(&self, name: &Vec<char>) -> (found: Option<Designation>)
        ensures
            found == designation(self@, name@),
    {
        let mut i: usize = self.entries.len();
        assert(self@.take(i as int) == self@);
        while i > 0
            invariant
                i <= self.entries@.len(),
                designation(self@, name@) == designation(self@.take(i as int), name@),
            decreases i,
        {
            i = i - 1;
            let ghost upto = self@.take(i + 1);
            assert(upto.last() == self@[i as int]);
            assert(upto.drop_last() == self@.take(i as int));
            if same_chars(&self.entries[i].0, name) {
                return Some(self.entries[i].1);
            }
        }
        assert(self@.take(self@.len() as int) == self@);
        None
    }
}

/// Tells whether two texts hold the same characters.
pub fn same_chars(a: &Vec<char>, b: &Vec<char>) -> (same: bool)
    ensures
        same == (a@ == b@),
{
    if a.len() != b.len() {
        return false;
    }
    let mut i: usize = 0;
    while i < a.len()
        invariant
            i <= a@.len(),
            a@.len() == b@.len(),
            a@.take(i as int) == b@.take(i as int),
        decreases a@.len() - i,
    {
        if a[i] != b[i] {
            assert(a@[i as int] != b@[i as int]);
            return false;
        }
        assert(a@.take(i + 1) == a@.take(i as int).push(a@[i as int]));
        assert(b@.take(i + 1) == b@.take(i as int).push(b@[i as int]));
        i = i + 1;
    }
    assert(a@.take(a@.len() as int) == a@);
    assert(b@.take(b@.len() as int) == b@);
    true
}

} // verus!
