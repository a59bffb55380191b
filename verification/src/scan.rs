//! Finding the matches of a pattern in a text.
//!
//! The patterns are regular expressions in the syntax of Oniguruma, and the
//! `onig` crate searches for them. One search reports where each group of
//! the pattern matched, in bytes. Everything around a search is done here:
//! walking through a text from match to match, turning byte offsets into
//! character positions, and putting a text together again around what the
//! matches are replaced with.

use onig::{MatchParam, Regex, Region, SearchOptions};
use vstd::prelude::*;

use crate::text::{byte_len, byte_offset, chars_of, slice_of, utf8_width, width_of};

verus! {

/// What a search for `pattern` in `text` reports when it starts at the byte
/// `from`: for each group of the pattern the bytes at which its match starts
/// and ends, or nothing for a group that took no part, the whole match being
/// group 0. There is no report where the pattern is not a valid expression,
/// where no match starts at or behind `from`, or where the search gives up.
pub uninterp spec fn onig_search(pattern: Seq<char>, text: Seq<char>, from: usize) -> Option<
    Seq<Option<(usize, usize)>>,
>;

/// `Regex::new` and `Regex::search_with_param` with the default options and
/// limits, from `from` to the end of `text`; the groups are read off the
/// region with `Region::len` and `Region::pos`.
#[verifier::external_body]
fn search(pattern: &str, text: &str, from: usize) -> (report: Option<Vec<Option<(usize, usize)>>>)
    requires
        from <= byte_len(text@),
    ensures
        report.deep_view() == onig_search(pattern@, text@, from),
{
    let regex = Regex::new(pattern).ok()?;
    let mut region = Region::new();
    let options = SearchOptions::SEARCH_OPTION_NONE;
    let limits = MatchParam::default();
    match regex.search_with_param(text, from, text.len(), options, Some(&mut region), limits) {
        Ok(Some(_)) => Some((0..region.len()).map(|group| region.pos(group)).collect()),
        _ => None,
    }
}

/// The last character position up to `upto` that starts at the byte
/// `offset`.
pub open spec fn boundary(text: Seq<char>, offset: nat, upto: nat) -> Option<nat>
    decreases upto,
{
    if byte_offset(text, upto) == offset {
        Some(upto)
    } else if upto == 0 {
        None
    } else {
        boundary(text, offset, (upto - 1) as nat)
    }
}

/// The character position that starts at the byte `offset`; the end of the
/// text counts as a position.
pub open spec fn char_index(text: Seq<char>, offset: nat) -> Option<nat> {
    boundary(text, offset, text.len())
}

/// A span of bytes as a span of characters, where it starts and ends between
/// characters and does not end before it starts.
pub open spec fn char_span(text: Seq<char>, span: Option<(usize, usize)>) -> Option<(nat, nat)> {
    match span {
        Some((s, e)) => match (char_index(text, s as nat), char_index(text, e as nat)) {
            (Some(a), Some(b)) => if s <= e {
                Some((a, b))
            } else {
                None
            },
            _ => None,
        },
        None => None,
    }
}

/// The text that a group matched.
pub open spec fn group_text(text: Seq<char>, span: Option<(usize, usize)>) -> Option<Seq<char>> {
    match char_span(text, span) {
        Some((a, b)) => Some(text.subrange(a as int, b as int)),
        None => None,
    }
}

/// One match: where it starts and ends in the text, in characters, and what
/// each group of the pattern matched. Group 0 is the whole match.
pub struct Capture {
    pub start: usize,
    pub end: usize,
    pub groups: Vec<Option<String>>,
}

/// A match as plain values.
pub struct CaptureView {
    pub start: nat,
    pub end: nat,
    pub groups: Seq<Option<Seq<char>>>,
}

impl View for Capture {
    type V = CaptureView;

    open spec fn view(&self) -> CaptureView {
        CaptureView {
            start: self.start as nat,
            end: self.end as nat,
            groups: self.groups.deep_view(),
        }
    }
}

impl DeepView for Capture {
    type V = CaptureView;

    open spec fn deep_view(&self) -> CaptureView {
        self@
    }
}

impl CaptureView {
    /// What group `group` matched; nothing for a group that took no part or
    /// that the pattern does not have.
    pub open spec fn at(self, group: int) -> Option<Seq<char>> {
        if 0 <= group < self.groups.len() {
            self.groups[group]
        } else {
            None
        }
    }
}

impl Capture {
    /// What group `group` matched; nothing for a group that took no part or
    /// that the pattern does not have.
    pub fn at(&self, group: usize) -> (matched: Option<&String>)
        ensures
            match matched {
                Some(text) => self@.at(group as int) == Some(text@),
                None => self@.at(group as int) is None,
            },
    {
        if group < self.groups.len() {
            let ghost views = self.groups.deep_view();
            assert(views[group as int] == self.groups@[group as int].deep_view());
            match &self.groups[group] {
                Some(text) => Some(text),
                None => None,
            }
        } else {
            None
        }
    }
}

/// A report as a match, where the whole match lies between characters.
pub open spec fn converted(text: Seq<char>, report: Seq<Option<(usize, usize)>>) -> Option<
    CaptureView,
> {
    if report.len() == 0 {
        None
    } else {
        match char_span(text, report[0]) {
            Some((a, b)) => Some(
                CaptureView {
                    start: a,
                    end: b,
                    groups: Seq::new(report.len(), |g: int| group_text(text, report[g])),
                },
            ),
            None => None,
        }
    }
}

/// One more than the number of bytes of `text` from `offset` on.
pub open spec fn bytes_left(text: Seq<char>, offset: nat) -> nat {
    if offset <= byte_len(text) {
        (byte_len(text) - offset + 1) as nat
    } else {
        0
    }
}

/// The matches from the byte `last_end` on. A search starts where the match
/// before ended. A match that ends before the search started ends the walk,
/// and so does a report that does not lie between characters. An empty
/// match right behind the match before is passed over: the search starts
/// again one character further on.
pub open spec fn scan_from(
    pattern: Seq<char>,
    text: Seq<char>,
    last_end: nat,
    last_match_end: Option<nat>,
) -> Seq<CaptureView>
    decreases bytes_left(text, last_end), if last_match_end == Some(last_end) {
            0nat
        } else {
            1nat
        },
{
    if last_end > byte_len(text) || last_end > usize::MAX {
        Seq::empty()
    } else {
        match onig_search(pattern, text, last_end as usize) {
            None => Seq::empty(),
            Some(report) => match converted(text, report) {
                None => Seq::empty(),
                Some(capture) => {
                    let s = report[0].unwrap().0 as nat;
                    let e = report[0].unwrap().1 as nat;
                    if s < last_end || e < s {
                        Seq::empty()
                    } else if e == s && last_match_end == Some(e) {
                        if capture.end < text.len() {
                            scan_from(
                                pattern,
                                text,
                                last_end + utf8_width(text[capture.end as int]),
                                last_match_end,
                            )
                        } else {
                            Seq::empty()
                        }
                    } else {
                        seq![capture] + scan_from(pattern, text, e, Some(e))
                    }
                },
            },
        }
    }
}

/// All matches of `pattern` in `text`, from left to right. No two overlap.
pub open spec fn captures_of(pattern: Seq<char>, text: Seq<char>) -> Seq<CaptureView> {
    scan_from(pattern, text, 0, None)
}

/// Where the match before the `k`-th ended; the start of the text for the
/// first match.
pub open spec fn end_before(captures: Seq<CaptureView>, k: int) -> nat {
    if k <= 0 {
        0
    } else {
        captures[k - 1].end
    }
}

/// Each match lies within the text, holds its own text as group 0, and
/// starts no earlier than the match before it ends.
pub open spec fn well_spaced(captures: Seq<CaptureView>, text: Seq<char>) -> bool {
    forall|k: int|
        0 <= k < captures.len() ==> end_before(captures, k) <= (#[trigger] captures[k]).start
            <= captures[k].end <= text.len() && captures[k].groups.len() >= 1
            && captures[k].groups[0] == Some(
            text.subrange(captures[k].start as int, captures[k].end as int),
        )
}

/// The text up to the end of the `k`-th match, with each match before that
/// replaced.
pub open spec fn stitched(
    text: Seq<char>,
    captures: Seq<CaptureView>,
    replacements: Seq<Seq<char>>,
    k: nat,
) -> Seq<char>
    decreases k,
{
    if k == 0 {
        Seq::empty()
    } else {
        stitched(text, captures, replacements, (k - 1) as nat) + text.subrange(
            end_before(captures, k - 1) as int,
            captures[k - 1].start as int,
        ) + replacements[k - 1]
    }
}

/// The text with each match replaced: what stands between the matches stays
/// as it is.
pub open spec fn spliced(text: Seq<char>, captures: Seq<CaptureView>, replacements: Seq<Seq<char>>) -> Seq<
    char,
> {
    stitched(text, captures, replacements, captures.len()) + text.subrange(
        end_before(captures, captures.len() as int) as int,
        text.len() as int,
    )
}

/// A later character starts at a later byte, at least one byte further on
/// for each character between.
pub proof fn lemma_offsets_ascend(text: Seq<char>, i: nat, j: nat)
    requires
        i <= j,
    ensures
        byte_offset(text, i) <= byte_offset(text, j),
        i < j ==> byte_offset(text, i) < byte_offset(text, j),
        byte_offset(text, j) - byte_offset(text, i) >= j - i,
    decreases j,
{
    if i < j {
        lemma_offsets_ascend(text, i, (j - 1) as nat);
    }
}

/// The position found for a byte starts at that byte, and where none is
/// found no position up to `upto` starts there.
pub proof fn lemma_boundary(text: Seq<char>, offset: nat, upto: nat)
    ensures
        match boundary(text, offset, upto) {
            Some(i) => i <= upto && byte_offset(text, i) == offset,
            None => forall|i: nat| i <= upto ==> byte_offset(text, i) != offset,
        },
    decreases upto,
{
    if byte_offset(text, upto) != offset && upto > 0 {
        lemma_boundary(text, offset, (upto - 1) as nat);
    }
}

/// A span of characters never ends before it starts, and ends within the
/// text.
pub proof fn lemma_char_span(text: Seq<char>, span: Option<(usize, usize)>)
    ensures
        match char_span(text, span) {
            Some((a, b)) => a <= b <= text.len() && byte_offset(text, a) == span.unwrap().0
                && byte_offset(text, b) == span.unwrap().1,
            None => true,
        },
{
    match span {
        Some((s, e)) => {
            lemma_boundary(text, s as nat, text.len());
            lemma_boundary(text, e as nat, text.len());
            match (char_index(text, s as nat), char_index(text, e as nat)) {
                (Some(a), Some(b)) => {
                    if b < a {
                        lemma_offsets_ascend(text, b, a);
                    }
                },
                _ => {},
            }
        },
        None => {},
    }
}

/// The table tells for each byte offset into `text` which character starts
/// there.
pub open spec fn is_index_table(text: Seq<char>, table: Seq<Option<usize>>) -> bool {
    &&& table.len() == byte_len(text) + 1
    &&& forall|offset: int|
        0 <= offset < table.len() ==> match char_index(text, offset as nat) {
            Some(i) => #[trigger] table[offset] == Some(i as usize),
            None => table[offset] is None,
        }
}

/// Builds the table from byte offsets to character positions.
pub fn index_table(chars: &Vec<char>) -> (table: Vec<Option<usize>>)
    requires
        byte_len(chars@) <= isize::MAX,
    ensures
        is_index_table(chars@, table@),
{
    let ghost text = chars@;
    let mut table: Vec<Option<usize>> = Vec::new();
    let mut i: usize = 0;
    while i < chars.len()
        invariant
            text == chars@,
            byte_len(text) <= isize::MAX,
            i <= text.len(),
            table@.len() == byte_offset(text, i as nat),
            forall|offset: int|
                0 <= offset < table@.len() ==> match boundary(text, offset as nat, i as nat) {
                    Some(j) => #[trigger] table@[offset] == Some(j as usize),
                    None => table@[offset] is None,
                },
        decreases text.len() - i,
    {
        let width = width_of(chars[i]);
        let ghost before = table@;
        let ghost here = byte_offset(text, i as nat);
        proof {
            lemma_offsets_ascend(text, (i + 1) as nat, text.len());
        }
        table.push(Some(i));
        let mut k: usize = 1;
        while k < width
            invariant
                1 <= k <= width,
                width == utf8_width(text[i as int]),
                here + width <= isize::MAX,
                table@.len() == here + k,
                table@.take(here as int) == before,
                table@[here as int] == Some(i),
                forall|offset: int| here < offset < table@.len() ==> table@[offset] is None,
            decreases width - k,
        {
            table.push(None);
            k = k + 1;
        }
        proof {
            assert forall|offset: int| 0 <= offset < table@.len() implies match boundary(
                text,
                offset as nat,
                (i + 1) as nat,
            ) {
                Some(j) => #[trigger] table@[offset] == Some(j as usize),
                None => table@[offset] is None,
            } by {
                lemma_boundary(text, offset as nat, i as nat);
                if offset < here {
                    assert(table@[offset] == before[offset]);
                } else if offset > here {
                    assert forall|j: nat| j <= i implies byte_offset(text, j) != offset by {
                        lemma_offsets_ascend(text, j, i as nat);
                    }
                }
            }
        }
        i = i + 1;
    }
    let ghost before = table@;
    table.push(Some(i));
    proof {
        assert forall|offset: int| 0 <= offset < table@.len() implies match char_index(
            text,
            offset as nat,
        ) {
            Some(j) => #[trigger] table@[offset] == Some(j as usize),
            None => table@[offset] is None,
        } by {
            if offset < before.len() {
                assert(table@[offset] == before[offset]);
            }
        }
    }
    table
}

/// Turns a span of bytes into a span of characters.
pub fn span_of(chars: &Vec<char>, table: &Vec<Option<usize>>, span: Option<(usize, usize)>) -> (found:
    Option<(usize, usize)>)
    requires
        is_index_table(chars@, table@),
    ensures
        match found {
            Some((a, b)) => char_span(chars@, span) == Some((a as nat, b as nat)) && a <= b
                <= chars@.len(),
            None => char_span(chars@, span) is None,
        },
{
    let count = chars.len();
    proof {
        lemma_char_span(chars@, span);
    }
    match span {
        Some((s, e)) => {
            proof {
                lemma_boundary(chars@, s as nat, chars@.len());
                lemma_boundary(chars@, e as nat, chars@.len());
                assert forall|i: nat| i <= chars@.len() implies byte_offset(chars@, i) <= byte_len(
                    chars@,
                ) by {
                    lemma_offsets_ascend(chars@, i, chars@.len());
                }
            }
            if s <= e && e < table.len() {
                match (table[s], table[e]) {
                    (Some(a), Some(b)) => Some((a, b)),
                    _ => None,
                }
            } else {
                None
            }
        },
        None => None,
    }
}

/// Turns a report into a match.
pub fn convert(chars: &Vec<char>, table: &Vec<Option<usize>>, report: &Vec<Option<(usize, usize)>>) -> (capture:
    Option<Capture>)
    requires
        is_index_table(chars@, table@),
    ensures
        capture.deep_view() == converted(chars@, report@),
{
    if report.len() == 0 {
        return None;
    }
    let whole = match span_of(chars, table, report[0]) {
        Some(whole) => whole,
        None => {
            return None;
        },
    };
    let mut groups: Vec<Option<String>> = Vec::new();
    let mut g: usize = 0;
    while g < report.len()
        invariant
            is_index_table(chars@, table@),
            g <= report@.len(),
            groups@.len() == g,
            forall|k: int|
                0 <= k < g ==> (#[trigger] groups@[k]).deep_view() == group_text(
                    chars@,
                    report@[k],
                ),
        decreases report@.len() - g,
    {
        let matched = match span_of(chars, table, report[g]) {
            Some((a, b)) => Some(slice_of(chars, a, b)),
            None => None,
        };
        groups.push(matched);
        g = g + 1;
    }
    let capture = Capture { start: whole.0, end: whole.1, groups };
    assert(capture@.groups =~= Seq::new(
        report@.len(),
        |k: int| group_text(chars@, report@[k]),
    ));
    Some(capture)
}

/// Finds all matches of `pattern` in `text`, from left to right, as
/// `captures_of` defines them.
pub fn find_all(pattern: &str, text: &str) -> (found: Vec<Capture>)
    ensures
        found.deep_view() == captures_of(pattern@, text@),
        well_spaced(found.deep_view(), text@),
{
    let chars = chars_of(text);
    let table = index_table(&chars);
    let total: usize = table.len() - 1;
    let mut found: Vec<Capture> = Vec::new();
    let mut last_end: usize = 0;
    let mut last_match_end: Option<usize> = None;
    let ghost mut passed: Option<nat> = None;
    assert(found.deep_view() =~= Seq::<CaptureView>::empty());
    loop
        invariant
            chars@ == text@,
            is_index_table(chars@, table@),
            total == byte_len(text@),
            total <= isize::MAX,
            match last_match_end {
                Some(e) => passed == Some(e as nat),
                None => passed is None,
            },
            captures_of(pattern@, text@) == found.deep_view() + scan_from(
                pattern@,
                text@,
                last_end as nat,
                passed,
            ),
            well_spaced(found.deep_view(), text@),
            found@.len() > 0 ==> byte_offset(text@, found@[found@.len() - 1].end as nat)
                <= last_end,
        ensures
            found.deep_view() == captures_of(pattern@, text@),
            well_spaced(found.deep_view(), text@),
        decreases bytes_left(text@, last_end as nat), if passed == Some(last_end as nat) {
                0nat
            } else {
                1nat
            },
    {
        let ghost rest = scan_from(pattern@, text@, last_end as nat, passed);
        if last_end > total {
            assert(found.deep_view() + rest =~= found.deep_view());
            break ;
        }
        let report = match search(pattern, text, last_end) {
            Some(report) => report,
            None => {
                assert(found.deep_view() + rest =~= found.deep_view());
                break ;
            },
        };
        let capture = match convert(&chars, &table, &report) {
            Some(capture) => capture,
            None => {
                assert(found.deep_view() + rest =~= found.deep_view());
                break ;
            },
        };
        proof {
            lemma_char_span(text@, report@[0]);
        }
        let (s, e) = match report[0] {
            Some(span) => span,
            None => {
                break ;
            },
        };
        if s < last_end || e < s {
            assert(found.deep_view() + rest =~= found.deep_view());
            break ;
        }
        let skip = match last_match_end {
            Some(before) => e == s && before == e,
            None => false,
        };
        if skip {
            if capture.end < chars.len() {
                let width = width_of(chars[capture.end]);
                proof {
                    lemma_offsets_ascend(text@, (capture.end + 1) as nat, text@.len());
                    assert(rest == scan_from(
                        pattern@,
                        text@,
                        last_end as nat + utf8_width(text@[capture.end as int]),
                        passed,
                    ));
                }
                last_end = last_end + width;
            } else {
                assert(found.deep_view() + rest =~= found.deep_view());
                break ;
            }
        } else {
            let ghost before = found.deep_view();
            let ghost view = capture@;
            proof {
                assert(onig_search(pattern@, text@, last_end) == Some(report@));
                assert(converted(text@, report@) == Some(view));
                assert(report@[0].unwrap().0 == s && report@[0].unwrap().1 == e);
                assert(!(e == s && passed == Some(e as nat)));
                assert(rest == seq![view] + scan_from(pattern@, text@, e as nat, Some(e as nat)));
                if found@.len() > 0 {
                    let last = found@[found@.len() - 1];
                    assert(before[found@.len() - 1] == last@);
                    if view.start < last.end {
                        lemma_offsets_ascend(text@, view.start, last.end as nat);
                    }
                }
            }
            found.push(capture);
            last_end = e;
            last_match_end = Some(e);
            proof {
                passed = Some(e as nat);
                assert(found.deep_view() =~= before.push(view));
                assert(before + (seq![view] + scan_from(pattern@, text@, e as nat, passed))
                    =~= before.push(view) + scan_from(pattern@, text@, e as nat, passed));
                assert forall|k: int| 0 <= k < found@.len() implies end_before(
                    found.deep_view(),
                    k,
                ) <= (#[trigger] found.deep_view()[k]).start <= found.deep_view()[k].end
                    <= text@.len() && found.deep_view()[k].groups.len() >= 1
                    && found.deep_view()[k].groups[0] == Some(
                    text@.subrange(
                        found.deep_view()[k].start as int,
                        found.deep_view()[k].end as int,
                    ),
                ) by {
                    if k < before.len() {
                        assert(found.deep_view()[k] == before[k]);
                        assert(end_before(found.deep_view(), k) == end_before(before, k));
                    }
                }
            }
        }
    }
    found
}

/// Puts `text` together again with each match replaced by what
/// `replacements` holds for it.
pub fn splice(text: &str, found: &Vec<Capture>, replacements: &Vec<String>) -> (out: String)
    requires
        well_spaced(found.deep_view(), text@),
        replacements@.len() == found@.len(),
    ensures
        out@ == spliced(text@, found.deep_view(), replacements.deep_view()),
{
    let chars = chars_of(text);
    let ghost captures = found.deep_view();
    let ghost texts = replacements.deep_view();
    let mut out = String::new();
    let mut cursor: usize = 0;
    let mut k: usize = 0;
    while k < found.len()
        invariant
            chars@ == text@,
            captures == found.deep_view(),
            texts == replacements.deep_view(),
            well_spaced(captures, text@),
            replacements@.len() == found@.len(),
            k <= found@.len(),
            cursor == end_before(captures, k as int),
            cursor <= text@.len(),
            out@ == stitched(text@, captures, texts, k as nat),
        decreases found@.len() - k,
    {
        assert(captures[k as int] == found@[k as int]@);
        assert(texts[k as int] == replacements@[k as int]@);
        let gap = slice_of(&chars, cursor, found[k].start);
        out.append(gap.as_str());
        out.append(replacements[k].as_str());
        cursor = found[k].end;
        k = k + 1;
    }
    let tail = slice_of(&chars, cursor, chars.len());
    out.append(tail.as_str());
    out
}

proof fn lemma_scan_well_spaced(
    pattern: Seq<char>,
    text: Seq<char>,
    last_end: nat,
    last_match_end: Option<nat>,
)
    ensures
        well_spaced(scan_from(pattern, text, last_end, last_match_end), text),
        scan_from(pattern, text, last_end, last_match_end).len() > 0 ==> byte_offset(
            text,
            scan_from(pattern, text, last_end, last_match_end)[0].start,
        ) >= last_end,
    decreases bytes_left(text, last_end), if last_match_end == Some(last_end) {
            0nat
        } else {
            1nat
        },
{
    let found = scan_from(pattern, text, last_end, last_match_end);
    if last_end > byte_len(text) || last_end > usize::MAX {
    } else {
        match onig_search(pattern, text, last_end as usize) {
            None => {},
            Some(report) => match converted(text, report) {
                None => {},
                Some(capture) => {
                    let s = report[0].unwrap().0 as nat;
                    let e = report[0].unwrap().1 as nat;
                    lemma_char_span(text, report[0]);
                    if s < last_end || e < s {
                    } else if e == s && last_match_end == Some(e) {
                        if capture.end < text.len() {
                            lemma_scan_well_spaced(
                                pattern,
                                text,
                                last_end + utf8_width(text[capture.end as int]),
                                last_match_end,
                            );
                        }
                    } else {
                        let rest = scan_from(pattern, text, e, Some(e));
                        lemma_scan_well_spaced(pattern, text, e, Some(e));
                        assert(found == seq![capture] + rest);
                        assert(found[0] == capture);
                        assert forall|k: int| 0 <= k < found.len() implies end_before(found, k)
                            <= (#[trigger] found[k]).start <= found[k].end <= text.len()
                            && found[k].groups.len() >= 1 && found[k].groups[0] == Some(
                            text.subrange(found[k].start as int, found[k].end as int),
                        ) by {
                            if k > 0 {
                                assert(found[k] == rest[k - 1]);
                                if k == 1 {
                                    if rest[0].start < capture.end {
                                        lemma_offsets_ascend(text, rest[0].start, capture.end);
                                    }
                                } else {
                                    assert(found[k - 1] == rest[k - 2]);
                                    assert(end_before(found, k) == end_before(rest, k - 1));
                                }
                            }
                        }
                    }
                },
            },
        }
    }
}

/// The matches of a pattern lie within the text, one after the other, and
/// each holds its own text as group 0.
pub proof fn lemma_captures_well_spaced(pattern: Seq<char>, text: Seq<char>)
    ensures
        well_spaced(captures_of(pattern, text), text),
{
    lemma_scan_well_spaced(pattern, text, 0, None);
}

proof fn lemma_stitched_verbatim(
    text: Seq<char>,
    captures: Seq<CaptureView>,
    replacements: Seq<Seq<char>>,
    k: nat,
)
    requires
        well_spaced(captures, text),
        k <= captures.len(),
        replacements.len() == captures.len(),
        forall|j: int|
            0 <= j < captures.len() ==> #[trigger] replacements[j] == text.subrange(
                captures[j].start as int,
                captures[j].end as int,
            ),
    ensures
        end_before(captures, k as int) <= text.len(),
        stitched(text, captures, replacements, k) == text.subrange(
            0,
            end_before(captures, k as int) as int,
        ),
    decreases k,
{
    if k == 0 {
        assert(text.subrange(0, 0) =~= Seq::<char>::empty());
    } else {
        lemma_stitched_verbatim(text, captures, replacements, (k - 1) as nat);
        let here = captures[k - 1];
        let before = end_before(captures, k - 1) as int;
        assert(replacements[k - 1] == text.subrange(here.start as int, here.end as int));
        assert(text.subrange(0, before) + text.subrange(before, here.start as int) + text.subrange(
            here.start as int,
            here.end as int,
        ) =~= text.subrange(0, here.end as int));
    }
}

/// Where every match is written as it stands, putting a text together again
/// gives the text.
pub proof fn lemma_spliced_verbatim(
    text: Seq<char>,
    captures: Seq<CaptureView>,
    replacements: Seq<Seq<char>>,
)
    requires
        well_spaced(captures, text),
        replacements.len() == captures.len(),
        forall|j: int|
            0 <= j < captures.len() ==> #[trigger] replacements[j] == text.subrange(
                captures[j].start as int,
                captures[j].end as int,
            ),
    ensures
        spliced(text, captures, replacements) == text,
{
    lemma_stitched_verbatim(text, captures, replacements, captures.len());
    let end = end_before(captures, captures.len() as int) as int;
    assert(text.subrange(0, end) + text.subrange(end, text.len() as int) =~= text);
}

} // verus!
