//! A whole log: line after line into the totals, until one is refused.
//!
//! A line that holds no entry changes nothing.  A line that holds an entry
//! which passes its checks adds to the totals.  The first entry that is
//! refused ends the run: there are no totals then, and no report.

use crate::calendar::{
    parsed_time, parsed_timestamp, TimeOfDay, Timestamp, CALENDAR_END, DURATION_FORMAT,
    EPOCH_DATE, TIMESTAMP_FORMAT,
};
use crate::entry::{interval_minutes, line_outcome, read_line, Entry, EntryError};
use crate::pattern::EntryMatcher;
use crate::shape::{
    entry_in, lemma_no_bracket_no_entry, lemma_written_entry, well_written, written, EntryText,
};
use crate::report::{all_dates_known, report, reports, sum_on_calendar};
use crate::text::texts;
use crate::totals::{minutes_on, recorded, DayTotals};
use vstd::prelude::*;

verus! {

/// An entry that was refused, and the line it stands on (the first is 0).
#[derive(Clone, Copy, Debug, PartialEq, Eq, Structural)]
pub struct Failure {
    pub line: usize,
    pub error: EntryError,
}

/// The totals after one more line, or the reason the run has ended.
pub open spec fn step(state: Result<Map<int, nat>, EntryError>, line: Seq<char>) -> Result<
    Map<int, nat>,
    EntryError,
> {
    match state {
        Err(error) => Err(error),
        Ok(totals) => match line_outcome(line) {
            None => Ok(totals),
            Some(Ok(entry)) => Ok(recorded(totals, entry.date as int, entry.minutes as nat)),
            Some(Err(error)) => Err(error),
        },
    }
}

/// The totals of a log, or the reason its first refused entry was refused.
pub open spec fn tallied(lines: Seq<Seq<char>>) -> Result<Map<int, nat>, EntryError>
    decreases lines.len(),
{
    if lines.len() == 0 {
        Ok(Map::empty())
    } else {
        step(tallied(lines.drop_last()), lines.last())
    }
}

/// Whether the line holds an entry that is refused.
pub open spec fn is_refused(line: Seq<char>) -> bool {
    line_outcome(line) matches Some(Err(_))
}

/// Whether line `at` holds the first refused entry of the log.
pub open spec fn first_refused(lines: Seq<Seq<char>>, at: int) -> bool {
    &&& 0 <= at < lines.len()
    &&& is_refused(lines[at])
    &&& forall|k: int| 0 <= k < at ==> !is_refused(#[trigger] lines[k])
}

/// A run that has ended stays ended, with the same reason.
pub proof fn lemma_failure_is_final(lines: Seq<Seq<char>>, n: int)
    requires
        0 <= n <= lines.len(),
        tallied(lines.take(n)) is Err,
    ensures
        tallied(lines) == tallied(lines.take(n)),
    decreases lines.len() - n,
{
    if n < lines.len() {
        assert(lines.take(n + 1).drop_last() == lines.take(n));
        lemma_failure_is_final(lines, n + 1);
    } else {
        assert(lines.take(n) == lines);
    }
}

/// Takes one line into the totals.  A line adds less than a day, and only to
/// a date of the calendar.
pub fn apply_line(matcher: &EntryMatcher, totals: &mut DayTotals, line: &str) -> (r: Result<
    (),
    EntryError,
>)
    requires
        old(totals).wf(),
        old(totals).entries() < u64::MAX,
    ensures
        final(totals).wf(),
        match step(Ok(old(totals)@), line@) {
            Ok(after) => r is Ok && final(totals)@ == after,
            Err(error) => r == Err::<(), EntryError>(error) && final(totals)@ == old(totals)@,
        },
        old(totals).entries() <= final(totals).entries() <= old(totals).entries() + 1,
        old(totals).sum() <= final(totals).sum() < old(totals).sum() + 1440,
        all_dates_known(old(totals)@) ==> all_dates_known(final(totals)@),
{
    match read_line(matcher, line) {
        None => Ok(()),
        Some(Ok(entry)) => {
            totals.record(entry);
            Ok(())
        },
        Some(Err(error)) => Err(error),
    }
}

/// Takes a whole log into totals, up to the first entry that is refused.
pub fn tally(matcher: &EntryMatcher, lines: &Vec<String>) -> (r: Result<DayTotals, Failure>)
    ensures
        match r {
            Ok(totals) => {
                &&& tallied(texts(lines@)) == Ok::<Map<int, nat>, EntryError>(totals@)
                &&& totals.wf()
                &&& totals.entries() <= lines@.len()
                &&& totals.sum() <= 1439 * lines@.len()
                &&& all_dates_known(totals@)
            },
            Err(failure) => {
                &&& tallied(texts(lines@)) == Err::<Map<int, nat>, EntryError>(failure.error)
                &&& first_refused(texts(lines@), failure.line as int)
                &&& line_outcome(lines@[failure.line as int]@) == Some(
                    Err::<Entry, EntryError>(failure.error),
                )
            },
        },
{
    let n: usize = lines.len();
    let mut totals = DayTotals::new();
    let mut i: usize = 0;
    let ghost all = texts(lines@);
    assert(all.take(0) == Seq::<Seq<char>>::empty());
    while i < n
        invariant
            n == lines@.len(),
            all == texts(lines@),
            i <= n,
            totals.wf(),
            totals.entries() <= i,
            totals.sum() <= 1439 * i,
            all_dates_known(totals@),
            tallied(all.take(i as int)) == Ok::<Map<int, nat>, EntryError>(totals@),
            forall|k: int| 0 <= k < i ==> !is_refused(#[trigger] all[k]),
        decreases n - i,
    {
        proof {
            assert(all.take(i + 1).drop_last() == all.take(i as int));
            assert(all.take(i + 1).last() == lines@[i as int]@);
        }
        match apply_line(matcher, &mut totals, lines[i].as_str()) {
            Ok(()) => {},
            Err(error) => {
                proof {
                    lemma_failure_is_final(all, i + 1);
                }
                return Err(Failure { line: i, error });
            },
        }
        i = i + 1;
    }
    assert(all.take(n as int) == all);
    Ok(totals)
}

/// What went wrong in a run.
#[derive(Clone, Copy, Debug, PartialEq, Eq, Structural)]
pub enum RunError {
    /// An entry of the log was refused.
    Refused(Failure),
    /// The calendar does not reach the end of the sum of the totals.
    OffCalendar,
}

/// A whole run: the log into totals, the totals into the lines of the report.
/// An entry that is refused leaves no report.  A log without one has a
/// report, as long as the calendar reaches as many days past 1 January 1970
/// as the log has lines.
pub fn summarize(matcher: &EntryMatcher, lines: &Vec<String>) -> (r: Result<Vec<String>, RunError>)
    ensures
        match tallied(texts(lines@)) {
            Err(error) => r matches Err(RunError::Refused(failure)) && failure.error == error
                && first_refused(texts(lines@), failure.line as int) && line_outcome(
                lines@[failure.line as int]@,
            ) == Some(Err::<Entry, EntryError>(error)),
            Ok(totals) => {
                &&& reports(
                    totals,
                    match r {
                        Ok(out) => Some(texts(out@)),
                        Err(_) => None,
                    },
                )
                &&& r is Err ==> r == Err::<Vec<String>, RunError>(RunError::OffCalendar)
                &&& EPOCH_DATE + lines@.len() <= CALENDAR_END ==> r is Ok
            },
        },
{
    let totals = match tally(matcher, lines) {
        Ok(totals) => totals,
        Err(failure) => {
            return Err(RunError::Refused(failure));
        },
    };
    proof {
        if EPOCH_DATE + lines@.len() <= CALENDAR_END {
            assert(totals.sum() / 1440 <= lines@.len());
            assert(sum_on_calendar(totals.sum()));
        }
    }
    match report(&totals) {
        Some(out) => Ok(out),
        None => Err(RunError::OffCalendar),
    }
}

/// A line whose entry lies on one date and is as long as claimed adds exactly
/// the claimed minutes to the total of that date, and the run goes on.
pub proof fn lemma_agreeing_line_counts(
    totals: Map<int, nat>,
    line: Seq<char>,
    text: EntryText,
    start: Timestamp,
    end: Timestamp,
    claimed: TimeOfDay,
)
    requires
        entry_in(line) == Some(text),
        parsed_timestamp(text.start, TIMESTAMP_FORMAT@) == Some(start),
        parsed_timestamp(text.end, TIMESTAMP_FORMAT@) == Some(end),
        parsed_time(text.duration, DURATION_FORMAT@) == Some(claimed),
        start.date == end.date,
        interval_minutes(start, end) == claimed.minutes(),
    ensures
        step(Ok(totals), line) matches Ok(after) && after == recorded(
            totals,
            start.date as int,
            claimed.minutes() as nat,
        ) && minutes_on(after, start.date as int) == minutes_on(totals, start.date as int)
            + claimed.minutes(),
{
}

/// A line whose entry is not as long as claimed ends the run.
pub proof fn lemma_disagreeing_line_is_refused(
    line: Seq<char>,
    text: EntryText,
    start: Timestamp,
    end: Timestamp,
    claimed: TimeOfDay,
)
    requires
        entry_in(line) == Some(text),
        parsed_timestamp(text.start, TIMESTAMP_FORMAT@) == Some(start),
        parsed_timestamp(text.end, TIMESTAMP_FORMAT@) == Some(end),
        parsed_time(text.duration, DURATION_FORMAT@) == Some(claimed),
        start.date == end.date,
        interval_minutes(start, end) != claimed.minutes(),
    ensures
        line_outcome(line) == Some(
            Err::<Entry, EntryError>(EntryError::DurationMismatch { start, end, claimed }),
        ),
        is_refused(line),
{
}

/// A line whose entry starts and ends on different dates ends the run,
/// whatever else the line holds.
pub proof fn lemma_split_line_is_refused(
    line: Seq<char>,
    text: EntryText,
    start: Timestamp,
    end: Timestamp,
)
    requires
        entry_in(line) == Some(text),
        parsed_timestamp(text.start, TIMESTAMP_FORMAT@) == Some(start),
        parsed_timestamp(text.end, TIMESTAMP_FORMAT@) == Some(end),
        start.date != end.date,
    ensures
        line_outcome(line) == Some(
            Err::<Entry, EntryError>(EntryError::DateMismatch { start, end }),
        ),
        is_refused(line),
{
}

/// An entry written out whose ends lie on one date and whose interval is as
/// long as claimed adds exactly the claimed minutes to the total of that
/// date, and the run goes on: no text of it is missing and none is refused.
pub proof fn lemma_written_entry_counts(
    totals: Map<int, nat>,
    before: Seq<char>,
    text: EntryText,
    before_arrow: Seq<char>,
    after_arrow: Seq<char>,
    after: Seq<char>,
    start: Timestamp,
    end: Timestamp,
    claimed: TimeOfDay,
)
    requires
        well_written(before, text.start, text.end, before_arrow, after_arrow, text.duration),
        parsed_timestamp(text.start, TIMESTAMP_FORMAT@) == Some(start),
        parsed_timestamp(text.end, TIMESTAMP_FORMAT@) == Some(end),
        parsed_time(text.duration, DURATION_FORMAT@) == Some(claimed),
        start.date == end.date,
        interval_minutes(start, end) == claimed.minutes(),
    ensures
        step(
            Ok(totals),
            before + written(text.start, text.end, before_arrow, after_arrow, text.duration)
                + after,
        ) matches Ok(now) && now == recorded(
            totals,
            start.date as int,
            claimed.minutes() as nat,
        ) && minutes_on(now, start.date as int) == minutes_on(totals, start.date as int)
            + claimed.minutes(),
{
    let line = before + written(text.start, text.end, before_arrow, after_arrow, text.duration)
        + after;
    lemma_written_entry(
        before,
        text.start,
        text.end,
        before_arrow,
        after_arrow,
        text.duration,
        after,
    );
    lemma_agreeing_line_counts(totals, line, text, start, end, claimed);
}

/// An entry written out whose interval is not as long as claimed is taken
/// as it was written and refused: the line is not passed over as a note.
pub proof fn lemma_written_entry_is_refused(
    before: Seq<char>,
    text: EntryText,
    before_arrow: Seq<char>,
    after_arrow: Seq<char>,
    after: Seq<char>,
    start: Timestamp,
    end: Timestamp,
    claimed: TimeOfDay,
)
    requires
        well_written(before, text.start, text.end, before_arrow, after_arrow, text.duration),
        parsed_timestamp(text.start, TIMESTAMP_FORMAT@) == Some(start),
        parsed_timestamp(text.end, TIMESTAMP_FORMAT@) == Some(end),
        parsed_time(text.duration, DURATION_FORMAT@) == Some(claimed),
        start.date != end.date || interval_minutes(start, end) != claimed.minutes(),
    ensures
        is_refused(
            before + written(text.start, text.end, before_arrow, after_arrow, text.duration)
                + after,
        ),
        line_outcome(
            before + written(text.start, text.end, before_arrow, after_arrow, text.duration)
                + after,
        ) == Some(
            Err::<Entry, EntryError>(
                if start.date != end.date {
                    EntryError::DateMismatch { start, end }
                } else {
                    EntryError::DurationMismatch { start, end, claimed }
                },
            ),
        ),
{
    lemma_written_entry(
        before,
        text.start,
        text.end,
        before_arrow,
        after_arrow,
        text.duration,
        after,
    );
}

/// A line without an opening bracket leaves the run as it was.
pub proof fn lemma_plain_line_changes_nothing(
    state: Result<Map<int, nat>, EntryError>,
    line: Seq<char>,
)
    requires
        forall|i: int| 0 <= i < line.len() ==> #[trigger] line[i] != '[',
    ensures
        step(state, line) == state,
{
    lemma_no_bracket_no_entry(line);
}

/// A log with a refused entry has no totals.
pub proof fn lemma_refused_line_ends_run(lines: Seq<Seq<char>>, at: int)
    requires
        0 <= at < lines.len(),
        is_refused(lines[at]),
    ensures
        tallied(lines) is Err,
{
    let upto = lines.take(at + 1);
    assert(upto.drop_last() == lines.take(at));
    assert(upto.last() == lines[at]);
    lemma_failure_is_final(lines, at + 1);
}

/// A log without a refused entry has totals.
pub proof fn lemma_run_succeeds(lines: Seq<Seq<char>>)
    requires
        forall|k: int| 0 <= k < lines.len() ==> !is_refused(#[trigger] lines[k]),
    ensures
        tallied(lines) is Ok,
    decreases lines.len(),
{
    if lines.len() > 0 {
        let before = lines.drop_last();
        assert forall|k: int| 0 <= k < before.len() implies !is_refused(#[trigger] before[k]) by {
            assert(before[k] == lines[k]);
        }
        lemma_run_succeeds(before);
        assert(!is_refused(lines[lines.len() - 1]));
    }
}

/// A line that holds no entry leaves the run as it was.
pub proof fn lemma_note_changes_nothing(state: Result<Map<int, nat>, EntryError>, line: Seq<char>)
    requires
        entry_in(line) is None,
    ensures
        step(state, line) == state,
{
}

/// A log comes to the same with or without a line that holds no entry,
/// wherever that line stands.
pub proof fn lemma_notes_do_not_count(
    before: Seq<Seq<char>>,
    note: Seq<char>,
    after: Seq<Seq<char>>,
)
    requires
        entry_in(note) is None,
    ensures
        tallied(before.push(note) + after) == tallied(before + after),
    decreases after.len(),
{
    if after.len() == 0 {
        assert(before.push(note) + after == before.push(note));
        assert(before + after == before);
        assert(before.push(note).drop_last() == before);
    } else {
        let with = before.push(note) + after;
        let without = before + after;
        assert(with.drop_last() == before.push(note) + after.drop_last());
        assert(without.drop_last() == before + after.drop_last());
        assert(with.last() == after.last());
        assert(without.last() == after.last());
        lemma_notes_do_not_count(before, note, after.drop_last());
    }
}

} // verus!
