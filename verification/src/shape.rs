//! The shape of a clock entry, character by character.
//!
//! An entry is `[<start>]--[<end>]`, white space, `=>`, white space, and the
//! claimed duration.  `<start>` and `<end>` are one or more characters other
//! than brackets.  The duration is one or more digits, a colon and two
//! digits.  White space and digits are those of Unicode, version 16.0.  A
//! line may hold text before and after an entry; where several places of a
//! line begin an entry, the first counts.

use vstd::prelude::*;

verus! {

/// The three texts of an entry.
pub struct EntryText {
    pub start: Seq<char>,
    pub end: Seq<char>,
    pub duration: Seq<char>,
}

/// Whether `c` is one of the two brackets.
pub open spec fn is_bracket(c: char) -> bool {
    c == '[' || c == ']'
}

/// Whether `c` is white space: the characters with the Unicode property
/// `White_Space`.
pub open spec fn is_white_space(c: char) -> bool {
    '\u{9}' <= c <= '\u{d}'
    || c == '\u{20}'
    || c == '\u{85}'
    || c == '\u{a0}'
    || c == '\u{1680}'
    || '\u{2000}' <= c <= '\u{200a}'
    || '\u{2028}' <= c <= '\u{2029}'
    || c == '\u{202f}'
    || c == '\u{205f}'
    || c == '\u{3000}'
}

/// Whether `c` is a decimal digit of some script: the characters of the
/// Unicode category `Nd`.
pub open spec fn is_decimal_digit(c: char) -> bool {
    '\u{30}' <= c <= '\u{39}'
    || '\u{660}' <= c <= '\u{669}'
    || '\u{6f0}' <= c <= '\u{6f9}'
    || '\u{7c0}' <= c <= '\u{7c9}'
    || '\u{966}' <= c <= '\u{96f}'
    || '\u{9e6}' <= c <= '\u{9ef}'
    || '\u{a66}' <= c <= '\u{a6f}'
    || '\u{ae6}' <= c <= '\u{aef}'
    || '\u{b66}' <= c <= '\u{b6f}'
    || '\u{be6}' <= c <= '\u{bef}'
    || '\u{c66}' <= c <= '\u{c6f}'
    || '\u{ce6}' <= c <= '\u{cef}'
    || '\u{d66}' <= c <= '\u{d6f}'
    || '\u{de6}' <= c <= '\u{def}'
    || '\u{e50}' <= c <= '\u{e59}'
    || '\u{ed0}' <= c <= '\u{ed9}'
    || '\u{f20}' <= c <= '\u{f29}'
    || '\u{1040}' <= c <= '\u{1049}'
    || '\u{1090}' <= c <= '\u{1099}'
    || '\u{17e0}' <= c <= '\u{17e9}'
    || '\u{1810}' <= c <= '\u{1819}'
    || '\u{1946}' <= c <= '\u{194f}'
    || '\u{19d0}' <= c <= '\u{19d9}'
    || '\u{1a80}' <= c <= '\u{1a89}'
    || '\u{1a90}' <= c <= '\u{1a99}'
    || '\u{1b50}' <= c <= '\u{1b59}'
    || '\u{1bb0}' <= c <= '\u{1bb9}'
    || '\u{1c40}' <= c <= '\u{1c49}'
    || '\u{1c50}' <= c <= '\u{1c59}'
    || '\u{a620}' <= c <= '\u{a629}'
    || '\u{a8d0}' <= c <= '\u{a8d9}'
    || '\u{a900}' <= c <= '\u{a909}'
    || '\u{a9d0}' <= c <= '\u{a9d9}'
    || '\u{a9f0}' <= c <= '\u{a9f9}'
    || '\u{aa50}' <= c <= '\u{aa59}'
    || '\u{abf0}' <= c <= '\u{abf9}'
    || '\u{ff10}' <= c <= '\u{ff19}'
    || '\u{104a0}' <= c <= '\u{104a9}'
    || '\u{10d30}' <= c <= '\u{10d39}'
    || '\u{10d40}' <= c <= '\u{10d49}'
    || '\u{11066}' <= c <= '\u{1106f}'
    || '\u{110f0}' <= c <= '\u{110f9}'
    || '\u{11136}' <= c <= '\u{1113f}'
    || '\u{111d0}' <= c <= '\u{111d9}'
    || '\u{112f0}' <= c <= '\u{112f9}'
    || '\u{11450}' <= c <= '\u{11459}'
    || '\u{114d0}' <= c <= '\u{114d9}'
    || '\u{11650}' <= c <= '\u{11659}'
    || '\u{116c0}' <= c <= '\u{116c9}'
    || '\u{116d0}' <= c <= '\u{116e3}'
    || '\u{11730}' <= c <= '\u{11739}'
    || '\u{118e0}' <= c <= '\u{118e9}'
    || '\u{11950}' <= c <= '\u{11959}'
    || '\u{11bf0}' <= c <= '\u{11bf9}'
    || '\u{11c50}' <= c <= '\u{11c59}'
    || '\u{11d50}' <= c <= '\u{11d59}'
    || '\u{11da0}' <= c <= '\u{11da9}'
    || '\u{11f50}' <= c <= '\u{11f59}'
    || '\u{16130}' <= c <= '\u{16139}'
    || '\u{16a60}' <= c <= '\u{16a69}'
    || '\u{16ac0}' <= c <= '\u{16ac9}'
    || '\u{16b50}' <= c <= '\u{16b59}'
    || '\u{16d70}' <= c <= '\u{16d79}'
    || '\u{1ccf0}' <= c <= '\u{1ccf9}'
    || '\u{1d7ce}' <= c <= '\u{1d7ff}'
    || '\u{1e140}' <= c <= '\u{1e149}'
    || '\u{1e2f0}' <= c <= '\u{1e2f9}'
    || '\u{1e4f0}' <= c <= '\u{1e4f9}'
    || '\u{1e5f1}' <= c <= '\u{1e5fa}'
    || '\u{1e950}' <= c <= '\u{1e959}'
    || '\u{1fbf0}' <= c <= '\u{1fbf9}'
}

/// The first place at or after `from` that holds a bracket; the length of
/// the line where none does.
pub open spec fn bracket_from(line: Seq<char>, from: int) -> int
    decreases line.len() - from,
{
    if from >= line.len() {
        line.len() as int
    } else if 0 <= from && is_bracket(line[from]) {
        from
    } else {
        bracket_from(line, from + 1)
    }
}

/// The place where the white space that begins at `from` ends.
pub open spec fn space_end(line: Seq<char>, from: int) -> int
    decreases line.len() - from,
{
    if 0 <= from < line.len() && is_white_space(line[from]) {
        space_end(line, from + 1)
    } else {
        from
    }
}

/// The place where the digits that begin at `from` end.
pub open spec fn digits_end(line: Seq<char>, from: int) -> int
    decreases line.len() - from,
{
    if 0 <= from < line.len() && is_decimal_digit(line[from]) {
        digits_end(line, from + 1)
    } else {
        from
    }
}

/// The entry that begins at the place `at` of the line, if one begins there.
pub open spec fn entry_at(line: Seq<char>, at: int) -> Option<EntryText> {
    let start_close = bracket_from(line, at + 1);
    let end_close = bracket_from(line, start_close + 4);
    let arrow = space_end(line, end_close + 1);
    let hours = space_end(line, arrow + 2);
    let colon = digits_end(line, hours);
    if 0 <= at < line.len() && line[at] == '['
        && at + 1 < start_close < line.len() && line[start_close] == ']'
        && start_close + 3 < line.len() && line[start_close + 1] == '-'
        && line[start_close + 2] == '-' && line[start_close + 3] == '['
        && start_close + 4 < end_close < line.len() && line[end_close] == ']'
        && end_close + 1 < arrow && arrow + 1 < line.len() && line[arrow] == '='
        && line[arrow + 1] == '>'
        && arrow + 2 < hours
        && hours < colon && colon + 2 < line.len() && line[colon] == ':'
        && is_decimal_digit(line[colon + 1]) && is_decimal_digit(line[colon + 2])
    {
        Some(
            EntryText {
                start: line.subrange(at + 1, start_close),
                end: line.subrange(start_close + 4, end_close),
                duration: line.subrange(hours, colon + 3),
            },
        )
    } else {
        None
    }
}

/// The first entry that begins at or after the place `from` of the line.
pub open spec fn entry_from(line: Seq<char>, from: int) -> Option<EntryText>
    decreases line.len() - from,
{
    if from >= line.len() {
        None
    } else if entry_at(line, from) is Some {
        entry_at(line, from)
    } else {
        entry_from(line, from + 1)
    }
}

/// The first entry of the line.
pub open spec fn entry_in(line: Seq<char>) -> Option<EntryText> {
    entry_from(line, 0)
}

/// Whether no character of `text` is a bracket.
pub open spec fn bracket_free(text: Seq<char>) -> bool {
    forall|i: int| 0 <= i < text.len() ==> !is_bracket(#[trigger] text[i])
}

/// Whether all of `text` is white space.
pub open spec fn all_space(text: Seq<char>) -> bool {
    forall|i: int| 0 <= i < text.len() ==> is_white_space(#[trigger] text[i])
}

/// Whether all of `text` is digits.
pub open spec fn all_digits(text: Seq<char>) -> bool {
    forall|i: int| 0 <= i < text.len() ==> is_decimal_digit(#[trigger] text[i])
}

/// Whether `text` has the shape of a duration: digits, a colon, two digits.
pub open spec fn is_duration(text: Seq<char>) -> bool {
    &&& text.len() >= 4
    &&& all_digits(text.subrange(0, text.len() - 3))
    &&& text[text.len() - 3] == ':'
    &&& is_decimal_digit(text[text.len() - 2])
    &&& is_decimal_digit(text[text.len() - 1])
}

/// An entry written out: the start and the end in brackets with two dashes
/// between them, the arrow with white space on both sides, the duration.
pub open spec fn written(
    start: Seq<char>,
    end: Seq<char>,
    before_arrow: Seq<char>,
    after_arrow: Seq<char>,
    duration: Seq<char>,
) -> Seq<char> {
    seq!['['] + start + seq![']', '-', '-', '['] + end + seq![']'] + before_arrow + seq!['=', '>']
        + after_arrow + duration
}

/// Whether the parts can be written out as an entry that stands first in
/// its line: no opening bracket before it, start and end not empty and
/// without brackets, white space on both sides of the arrow, and a duration
/// of digits, a colon and two digits.
pub open spec fn well_written(
    before: Seq<char>,
    start: Seq<char>,
    end: Seq<char>,
    before_arrow: Seq<char>,
    after_arrow: Seq<char>,
    duration: Seq<char>,
) -> bool {
    &&& forall|i: int| 0 <= i < before.len() ==> #[trigger] before[i] != '['
    &&& start.len() > 0
    &&& bracket_free(start)
    &&& end.len() > 0
    &&& bracket_free(end)
    &&& before_arrow.len() > 0
    &&& all_space(before_arrow)
    &&& after_arrow.len() > 0
    &&& all_space(after_arrow)
    &&& is_duration(duration)
}

/// Up to the first bracket there is no bracket.
pub proof fn lemma_bracket_from(line: Seq<char>, from: int)
    requires
        0 <= from,
    ensures
        forall|k: int| from <= k < bracket_from(line, from) ==> !is_bracket(#[trigger] line[k]),
        bracket_from(line, from) < line.len() ==> is_bracket(line[bracket_from(line, from)]),
    decreases line.len() - from,
{
    if from < line.len() && !is_bracket(line[from]) {
        lemma_bracket_from(line, from + 1);
    }
}

/// The first bracket is where a stretch without brackets ends in one.
pub proof fn lemma_bracket_found(line: Seq<char>, from: int, at: int)
    requires
        0 <= from <= at < line.len(),
        forall|k: int| from <= k < at ==> !is_bracket(#[trigger] line[k]),
        is_bracket(line[at]),
    ensures
        bracket_from(line, from) == at,
    decreases at - from,
{
    if from < at {
        lemma_bracket_found(line, from + 1, at);
    }
}

/// White space ends where a stretch of it meets another character or the end
/// of the line.
pub proof fn lemma_space_end(line: Seq<char>, from: int, at: int)
    requires
        0 <= from <= at <= line.len(),
        forall|k: int| from <= k < at ==> is_white_space(#[trigger] line[k]),
        at < line.len() ==> !is_white_space(line[at]),
    ensures
        space_end(line, from) == at,
    decreases at - from,
{
    if from < at {
        lemma_space_end(line, from + 1, at);
    }
}

/// Digits end where a stretch of them meets another character or the end of
/// the line.
pub proof fn lemma_digits_end(line: Seq<char>, from: int, at: int)
    requires
        0 <= from <= at <= line.len(),
        forall|k: int| from <= k < at ==> is_decimal_digit(#[trigger] line[k]),
        at < line.len() ==> !is_decimal_digit(line[at]),
    ensures
        digits_end(line, from) == at,
    decreases at - from,
{
    if from < at {
        lemma_digits_end(line, from + 1, at);
    }
}

/// From `from` to where the digits end there are digits only.
pub proof fn lemma_digits_run(line: Seq<char>, from: int)
    requires
        0 <= from,
    ensures
        from <= digits_end(line, from),
        digits_end(line, from) <= line.len() || digits_end(line, from) == from,
        forall|k: int| from <= k < digits_end(line, from) ==> is_decimal_digit(#[trigger] line[k]),
    decreases line.len() - from,
{
    if from < line.len() && is_decimal_digit(line[from]) {
        lemma_digits_run(line, from + 1);
    }
}

/// The first entry at or after `from` is the one at `at`, where an entry
/// begins at `at` and none before it.
pub proof fn lemma_first_entry(line: Seq<char>, from: int, at: int)
    requires
        0 <= from <= at,
        entry_at(line, at) is Some,
        forall|p: int| from <= p < at ==> #[trigger] entry_at(line, p) is None,
    ensures
        entry_from(line, from) == entry_at(line, at),
    decreases at - from,
{
    if from < at {
        lemma_first_entry(line, from + 1, at);
    }
}

/// A line has no entry at or after `from` where none begins at any place.
pub proof fn lemma_no_entry(line: Seq<char>, from: int)
    requires
        0 <= from,
        forall|p: int| from <= p < line.len() ==> #[trigger] entry_at(line, p) is None,
    ensures
        entry_from(line, from) is None,
    decreases line.len() - from,
{
    if from < line.len() {
        lemma_no_entry(line, from + 1);
    }
}

/// The first entry of a line, where it has one, begins at some place.
pub proof fn lemma_entry_begins(line: Seq<char>, from: int) -> (at: int)
    requires
        0 <= from,
        entry_from(line, from) is Some,
    ensures
        from <= at < line.len(),
        entry_at(line, at) == entry_from(line, from),
    decreases line.len() - from,
{
    if entry_at(line, from) is Some {
        from
    } else {
        lemma_entry_begins(line, from + 1)
    }
}

/// The texts of an entry have the shape that the pattern asks for: start and
/// end are not empty and hold no bracket, the duration is digits, a colon and
/// two digits.
pub proof fn lemma_entry_shape(line: Seq<char>)
    requires
        entry_in(line) is Some,
    ensures
        entry_in(line)->0.start.len() > 0,
        bracket_free(entry_in(line)->0.start),
        entry_in(line)->0.end.len() > 0,
        bracket_free(entry_in(line)->0.end),
        is_duration(entry_in(line)->0.duration),
{
    let at = lemma_entry_begins(line, 0);
    let start_close = bracket_from(line, at + 1);
    let end_close = bracket_from(line, start_close + 4);
    let arrow = space_end(line, end_close + 1);
    let hours = space_end(line, arrow + 2);
    let colon = digits_end(line, hours);
    lemma_bracket_from(line, at + 1);
    lemma_bracket_from(line, start_close + 4);
    lemma_digits_run(line, hours);
    let text = entry_in(line)->0;
    assert(text.start == line.subrange(at + 1, start_close));
    assert(text.end == line.subrange(start_close + 4, end_close));
    assert(text.duration == line.subrange(hours, colon + 3));
    assert forall|i: int| 0 <= i < text.start.len() implies !is_bracket(
        #[trigger] text.start[i],
    ) by {
        assert(text.start[i] == line[at + 1 + i]);
    }
    assert forall|i: int| 0 <= i < text.end.len() implies !is_bracket(#[trigger] text.end[i]) by {
        assert(text.end[i] == line[start_close + 4 + i]);
    }
    let digits = text.duration.subrange(0, text.duration.len() - 3);
    assert forall|i: int| 0 <= i < digits.len() implies is_decimal_digit(#[trigger] digits[i]) by {
        assert(digits[i] == line[hours + i]);
    }
}

/// A line without an opening bracket holds no entry.
pub proof fn lemma_no_bracket_no_entry(line: Seq<char>)
    requires
        forall|i: int| 0 <= i < line.len() ==> #[trigger] line[i] != '[',
    ensures
        entry_in(line) is None,
{
    lemma_no_entry(line, 0);
}

/// A digit is no white space.
pub proof fn lemma_digit_is_no_space(c: char)
    requires
        is_decimal_digit(c),
    ensures
        !is_white_space(c),
{
}

/// A line that holds an entry written out, with no opening bracket before
/// it, has that entry as its first: start, end and duration come back as
/// they were written, whatever follows.
pub proof fn lemma_written_entry(
    before: Seq<char>,
    start: Seq<char>,
    end: Seq<char>,
    before_arrow: Seq<char>,
    after_arrow: Seq<char>,
    duration: Seq<char>,
    after: Seq<char>,
)
    requires
        well_written(before, start, end, before_arrow, after_arrow, duration),
    ensures
        entry_in(before + written(start, end, before_arrow, after_arrow, duration) + after)
            == Some(EntryText { start, end, duration }),
{
    let line = before + written(start, end, before_arrow, after_arrow, duration) + after;
    let at = before.len() as int;
    let start_close = at + 1 + start.len();
    let end_close = start_close + 4 + end.len();
    let arrow = end_close + 1 + before_arrow.len();
    let hours = arrow + 2 + after_arrow.len();
    let colon = hours + duration.len() - 3;
    assert(line.len() == colon + 3 + after.len());
    assert forall|k: int| 0 <= k < at implies line[k] == before[k] by {}
    assert(line[at] == '[');
    assert forall|k: int| at + 1 <= k < start_close implies #[trigger] line[k] == start[k - at
        - 1] by {}
    assert(line[start_close] == ']');
    assert(line[start_close + 1] == '-');
    assert(line[start_close + 2] == '-');
    assert(line[start_close + 3] == '[');
    assert forall|k: int| start_close + 4 <= k < end_close implies #[trigger] line[k] == end[k
        - start_close - 4] by {}
    assert(line[end_close] == ']');
    assert forall|k: int| end_close + 1 <= k < arrow implies #[trigger] line[k]
        == before_arrow[k - end_close - 1] by {}
    assert(line[arrow] == '=');
    assert(line[arrow + 1] == '>');
    assert forall|k: int| arrow + 2 <= k < hours implies #[trigger] line[k] == after_arrow[k
        - arrow - 2] by {}
    assert forall|k: int| hours <= k < colon + 3 implies #[trigger] line[k] == duration[k
        - hours] by {}
    let digits = duration.subrange(0, duration.len() - 3);
    assert forall|k: int| hours <= k < colon implies is_decimal_digit(#[trigger] line[k]) by {
        assert(digits[k - hours] == duration[k - hours]);
    }
    assert(line[colon] == ':');
    assert(line[hours] == duration[0]);
    assert(is_decimal_digit(line[hours]) || hours == colon);
    assert forall|k: int| at + 1 <= k < start_close implies !is_bracket(#[trigger] line[k]) by {
        assert(!is_bracket(start[k - at - 1]));
    }
    assert forall|k: int| start_close + 4 <= k < end_close implies !is_bracket(
        #[trigger] line[k],
    ) by {
        assert(!is_bracket(end[k - start_close - 4]));
    }
    assert forall|k: int| end_close + 1 <= k < arrow implies is_white_space(#[trigger] line[k]) by {
        assert(is_white_space(before_arrow[k - end_close - 1]));
    }
    assert forall|k: int| arrow + 2 <= k < hours implies is_white_space(#[trigger] line[k]) by {
        assert(is_white_space(after_arrow[k - arrow - 2]));
    }
    lemma_bracket_found(line, at + 1, start_close);
    lemma_bracket_found(line, start_close + 4, end_close);
    lemma_space_end(line, end_close + 1, arrow);
    if hours < colon {
        lemma_digit_is_no_space(line[hours]);
    }
    lemma_space_end(line, arrow + 2, hours);
    lemma_digits_end(line, hours, colon);
    assert(line[colon + 1] == duration[duration.len() - 2]);
    assert(line[colon + 2] == duration[duration.len() - 1]);
    assert(line.subrange(at + 1, start_close) =~= start);
    assert(line.subrange(start_close + 4, end_close) =~= end);
    assert(line.subrange(hours, colon + 3) =~= duration);
    assert(entry_at(line, at) == Some(EntryText { start, end, duration }));
    assert forall|p: int| 0 <= p < at implies #[trigger] entry_at(line, p) is None by {
        assert(line[p] == before[p]);
    }
    lemma_first_entry(line, 0, at);
}

} // verus!
