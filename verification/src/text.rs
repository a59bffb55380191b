//! Text as sequences of characters.
//!
//! Strings are read and taken apart character by character, so the helpers
//! here move between `String` and `Vec<char>` and offer the few searches and
//! edits that the rest of the crate needs.

use vstd::prelude::*;

verus! {

/// Number of bytes that UTF-8 takes for `c`.
pub open spec fn utf8_width(c: char) -> nat {
    if (c as u32) < 0x80 {
        1
    } else if (c as u32) < 0x800 {
        2
    } else if (c as u32) < 0x10000 {
        3
    } else {
        4
    }
}

/// Number of bytes that UTF-8 takes for the first `i` characters of `text`.
pub open spec fn byte_offset(text: Seq<char>, i: nat) -> nat
    decreases i,
{
    if i == 0 {
        0
    } else {
        byte_offset(text, (i - 1) as nat) + utf8_width(text[i - 1])
    }
}

/// Number of bytes that UTF-8 takes for `text`.
pub open spec fn byte_len(text: Seq<char>) -> nat {
    byte_offset(text, text.len())
}

/// The characters of `s`, in order, as `str::chars` yields them. A string
/// slice never takes more than `isize::MAX` bytes.
#[verifier::external_body]
pub(crate) fn chars_of(s: &str) -> (chars: Vec<char>)
    ensures
        chars@ == s@,
        byte_len(chars@) <= isize::MAX,
{
    s.chars().collect()
}

/// The string made of `chars`, in order, as collecting characters into a
/// `String` builds it.
#[verifier::external_body]
pub(crate) fn string_of(chars: &Vec<char>) -> (s: String)
    ensures
        s@ == chars@,
{
    chars.iter().collect()
}

/// Number of bytes that UTF-8 takes for `c`.
pub fn width_of(c: char) -> (width: usize)
    ensures
        width == utf8_width(c),
{
    let v: u32 = c as u32;
    if v < 0x80 {
        1
    } else if v < 0x800 {
        2
    } else if v < 0x10000 {
        3
    } else {
        4
    }
}

/// The characters of `text` from `start` up to `end`, as a string.
pub fn slice_of(text: &Vec<char>, start: usize, end: usize) -> (piece: String)
    requires
        start <= end <= text@.len(),
    ensures
        piece@ == text@.subrange(start as int, end as int),
{
    let mut chars: Vec<char> = Vec::new();
    let mut i: usize = start;
    while i < end
        invariant
            start <= i <= end <= text@.len(),
            chars@ == text@.subrange(start as int, i as int),
        decreases end - i,
    {
        chars.push(text[i]);
        assert(text@.subrange(start as int, i + 1) == text@.subrange(start as int, i as int).push(
            text@[i as int],
        ));
        i = i + 1;
    }
    string_of(&chars)
}

/// Tells whether two strings hold the same characters.
pub fn same_text(a: &str, b: &str) -> (same: bool)
    ensures
        same == (a@ == b@),
{
    let x = chars_of(a);
    let y = chars_of(b);
    if x.len() != y.len() {
        return false;
    }
    let mut i: usize = 0;
    while i < x.len()
        invariant
            x@ == a@,
            y@ == b@,
            i <= x@.len(),
            x@.len() == y@.len(),
            x@.take(i as int) == y@.take(i as int),
        decreases x@.len() - i,
    {
        if x[i] != y[i] {
            assert(x@[i as int] != y@[i as int]);
            return false;
        }
        assert(x@.take(i + 1) == x@.take(i as int).push(x@[i as int]));
        assert(y@.take(i + 1) == y@.take(i as int).push(y@[i as int]));
        i = i + 1;
    }
    assert(x@.take(x@.len() as int) == x@);
    assert(y@.take(y@.len() as int) == y@);
    true
}

/// Whether `c` is white space as Unicode defines it.
pub open spec fn is_space(c: char) -> bool {
    let v = c as u32;
    (0x09 <= v && v <= 0x0d) || v == 0x20 || v == 0x85 || v == 0xa0 || v == 0x1680 || (0x2000 <= v
        && v <= 0x200a) || v == 0x2028 || v == 0x2029 || v == 0x202f || v == 0x205f || v == 0x3000
}

/// Tells whether `c` is white space.
pub fn is_space_char(c: char) -> (space: bool)
    ensures
        space == is_space(c),
{
    let v: u32 = c as u32;
    (0x09 <= v && v <= 0x0d) || v == 0x20 || v == 0x85 || v == 0xa0 || v == 0x1680 || (0x2000 <= v
        && v <= 0x200a) || v == 0x2028 || v == 0x2029 || v == 0x202f || v == 0x205f || v == 0x3000
}

/// `text` without the white space at its start.
pub open spec fn trimmed_front(text: Seq<char>) -> Seq<char>
    decreases text.len(),
{
    if text.len() > 0 && is_space(text[0]) {
        trimmed_front(text.drop_first())
    } else {
        text
    }
}

/// `text` without the white space at its end.
pub open spec fn trimmed_back(text: Seq<char>) -> Seq<char>
    decreases text.len(),
{
    if text.len() > 0 && is_space(text.last()) {
        trimmed_back(text.drop_last())
    } else {
        text
    }
}

/// `text` without the white space at its start and at its end.
pub open spec fn trimmed(text: Seq<char>) -> Seq<char> {
    trimmed_back(trimmed_front(text))
}

/// Removes the white space at both ends of `text`.
pub fn trim(text: &Vec<char>) -> (kept: Vec<char>)
    ensures
        kept@ == trimmed(text@),
{
    let mut start: usize = 0;
    assert(text@.subrange(0, text@.len() as int) == text@);
    while start < text.len() && is_space_char(text[start])
        invariant
            start <= text@.len(),
            trimmed_front(text@) == trimmed_front(text@.subrange(start as int, text@.len() as int)),
        decreases text@.len() - start,
    {
        assert(text@.subrange(start as int, text@.len() as int).drop_first() == text@.subrange(
            start + 1,
            text@.len() as int,
        ));
        start = start + 1;
    }
    assert(text@.subrange(0, text@.len() as int) == text@);
    let ghost front = text@.subrange(start as int, text@.len() as int);
    assert(trimmed_front(text@) == front);
    let mut end: usize = text.len();
    while end > start && is_space_char(text[end - 1])
        invariant
            start <= end <= text@.len(),
            front == text@.subrange(start as int, text@.len() as int),
            trimmed_back(front) == trimmed_back(text@.subrange(start as int, end as int)),
        decreases end,
    {
        assert(text@.subrange(start as int, end as int).drop_last() == text@.subrange(
            start as int,
            end - 1,
        ));
        end = end - 1;
    }
    let mut kept: Vec<char> = Vec::new();
    let mut i: usize = start;
    while i < end
        invariant
            start <= i <= end <= text@.len(),
            kept@ == text@.subrange(start as int, i as int),
        decreases end - i,
    {
        kept.push(text[i]);
        assert(text@.subrange(start as int, i + 1) == text@.subrange(start as int, i as int).push(
            text@[i as int],
        ));
        i = i + 1;
    }
    kept
}

/// `c` in lower case, where it is an ASCII capital.
pub open spec fn ascii_lower(c: char) -> char {
    if 'A' <= c && c <= 'Z' {
        ((c as u8 + 32) as u8) as char
    } else {
        c
    }
}

/// `text` with its ASCII capitals in lower case.
pub open spec fn lowered(text: Seq<char>) -> Seq<char> {
    Seq::new(text.len(), |i: int| ascii_lower(text[i]))
}

/// Puts the ASCII capitals of `text` in lower case.
pub fn to_lower(text: &Vec<char>) -> (low: Vec<char>)
    ensures
        low@ == lowered(text@),
{
    let mut low: Vec<char> = Vec::new();
    let mut i: usize = 0;
    while i < text.len()
        invariant
            i <= text@.len(),
            low@.len() == i,
            forall|j: int| 0 <= j < i ==> low@[j] == ascii_lower(text@[j]),
        decreases text@.len() - i,
    {
        let c = text[i];
        if 'A' <= c && c <= 'Z' {
            let v: u8 = c as u8;
            low.push((v + 32) as char);
        } else {
            low.push(c);
        }
        i = i + 1;
    }
    assert(low@ =~= lowered(text@));
    low
}

/// Whether `needle` stands in `text` at the place `i`.
pub open spec fn found_at(text: Seq<char>, needle: Seq<char>, i: int) -> bool {
    0 <= i && i + needle.len() <= text.len() && text.subrange(i, i + needle.len()) == needle
}

/// Whether `needle` stands somewhere in `text`.
pub open spec fn contains_text(text: Seq<char>, needle: Seq<char>) -> bool {
    exists|i: int| found_at(text, needle, i)
}

/// Tells whether `needle` stands in `text` at the place `i`.
pub fn stands_at(text: &Vec<char>, needle: &Vec<char>, i: usize) -> (found: bool)
    ensures
        found == found_at(text@, needle@, i as int),
{
    if i > text.len() || needle.len() > text.len() - i {
        return false;
    }
    let mut k: usize = 0;
    let count = text.len();
    while k < needle.len()
        invariant
            count == text@.len(),
            i + needle@.len() <= text@.len(),
            k <= needle@.len(),
            text@.subrange(i as int, i + k) == needle@.take(k as int),
        decreases needle@.len() - k,
    {
        if text[i + k] != needle[k] {
            assert(text@.subrange(i as int, i + needle@.len())[k as int] != needle@[k as int]);
            return false;
        }
        assert(text@.subrange(i as int, i + k + 1) == text@.subrange(i as int, i + k).push(
            text@[i + k],
        ));
        assert(needle@.take(k + 1) == needle@.take(k as int).push(needle@[k as int]));
        k = k + 1;
    }
    assert(needle@.take(needle@.len() as int) == needle@);
    true
}

/// Tells whether `text` starts with `prefix`.
pub fn starts_with(text: &Vec<char>, prefix: &Vec<char>) -> (found: bool)
    ensures
        found == found_at(text@, prefix@, 0),
{
    stands_at(text, prefix, 0)
}

/// Tells whether `needle` stands somewhere in `text`.
pub fn contains(text: &Vec<char>, needle: &Vec<char>) -> (found: bool)
    ensures
        found == contains_text(text@, needle@),
{
    let mut i: usize = 0;
    while i < text.len()
        invariant
            i <= text@.len(),
            forall|j: int| 0 <= j < i ==> !found_at(text@, needle@, j),
        decreases text@.len() - i,
    {
        if stands_at(text, needle, i) {
            return true;
        }
        i = i + 1;
    }
    stands_at(text, needle, i)
}

/// `text` from the place `i` on, with `to` in the place of every `from`,
/// from left to right. An empty `from` stands before every character and at
/// the end.
pub open spec fn replaced_from(text: Seq<char>, from: Seq<char>, to: Seq<char>, i: int) -> Seq<char>
    decreases text.len() - i,
{
    if i < 0 || i > text.len() {
        Seq::empty()
    } else if i == text.len() {
        if from.len() == 0 {
            to
        } else {
            Seq::empty()
        }
    } else if from.len() == 0 {
        to + seq![text[i]] + replaced_from(text, from, to, i + 1)
    } else if found_at(text, from, i) {
        to + replaced_from(text, from, to, i + from.len())
    } else {
        seq![text[i]] + replaced_from(text, from, to, i + 1)
    }
}

/// `text` with `to` in the place of every `from`, from left to right.
pub open spec fn replaced(text: Seq<char>, from: Seq<char>, to: Seq<char>) -> Seq<char> {
    replaced_from(text, from, to, 0)
}

/// Puts `to` in the place of every `from` in `text`.
pub fn replace(text: &Vec<char>, from: &Vec<char>, to: &Vec<char>) -> (out: Vec<char>)
    ensures
        out@ == replaced(text@, from@, to@),
{
    let mut out: Vec<char> = Vec::new();
    let mut i: usize = 0;
    while i < text.len()
        invariant
            i <= text@.len(),
            replaced(text@, from@, to@) == out@ + replaced_from(text@, from@, to@, i as int),
        decreases text@.len() - i,
    {
        let ghost before = out@;
        let ghost rest = replaced_from(text@, from@, to@, i as int);
        if from.len() == 0 {
            append_chars(&mut out, to);
            out.push(text[i]);
            assert(before + (to@ + seq![text@[i as int]] + replaced_from(
                text@,
                from@,
                to@,
                i + 1,
            )) =~= (before + to@).push(text@[i as int]) + replaced_from(text@, from@, to@, i + 1));
            i = i + 1;
        } else if stands_at(text, from, i) {
            append_chars(&mut out, to);
            assert(before + (to@ + replaced_from(text@, from@, to@, i + from@.len())) =~= (before
                + to@) + replaced_from(text@, from@, to@, i + from@.len()));
            i = i + from.len();
        } else {
            out.push(text[i]);
            assert(before + (seq![text@[i as int]] + replaced_from(text@, from@, to@, i + 1))
                =~= before.push(text@[i as int]) + replaced_from(text@, from@, to@, i + 1));
            i = i + 1;
        }
    }
    if from.len() == 0 {
        let ghost before = out@;
        append_chars(&mut out, to);
    } else {
        assert(out@ + Seq::<char>::empty() =~= out@);
    }
    out
}

/// Appends the characters of `more` to `out`.
pub fn append_chars(out: &mut Vec<char>, more: &Vec<char>)
    ensures
        final(out)@ == old(out)@ + more@,
{
    let ghost before = out@;
    let mut i: usize = 0;
    while i < more.len()
        invariant
            i <= more@.len(),
            out@ == before + more@.take(i as int),
        decreases more@.len() - i,
    {
        out.push(more[i]);
        assert(more@.take(i + 1) == more@.take(i as int).push(more@[i as int]));
        assert(before + more@.take(i as int).push(more@[i as int]) =~= (before + more@.take(
            i as int,
        )).push(more@[i as int]));
        i = i + 1;
    }
    assert(more@.take(more@.len() as int) == more@);
}

/// `text` without its white space.
pub open spec fn without_spaces(text: Seq<char>) -> Seq<char> {
    text.filter(|c: char| !is_space(c))
}

/// Removes all white space from `text`.
pub fn remove_spaces(text: &Vec<char>) -> (out: Vec<char>)
    ensures
        out@ == without_spaces(text@),
{
    let mut out: Vec<char> = Vec::new();
    let mut i: usize = 0;
    assert(text@.take(0).filter(|c: char| !is_space(c)) =~= Seq::<char>::empty()) by {
        reveal(Seq::filter);
    }
    while i < text.len()
        invariant
            i <= text@.len(),
            out@ == text@.take(i as int).filter(|c: char| !is_space(c)),
        decreases text@.len() - i,
    {
        proof {
            reveal(Seq::filter);
            assert(text@.take(i + 1).drop_last() == text@.take(i as int));
        }
        if !is_space_char(text[i]) {
            out.push(text[i]);
        }
        i = i + 1;
    }
    assert(text@.take(text@.len() as int) == text@);
    out
}

} // verus!
