//! Clock entries: reading one from a line and checking it.
//!
//! An entry claims a duration for an interval.  It is accepted only if both
//! ends of the interval lie on one calendar date and the interval is, to the
//! minute, as long as claimed.  Anything else in a line that has the shape of
//! an entry is an error in the log, never a line to pass over.

use crate::calendar::{
    calendar_day, parsed_time, parsed_timestamp, read_duration, read_timestamp, TimeOfDay,
    Timestamp, DURATION_FORMAT, TIMESTAMP_FORMAT,
};
use crate::pattern::{
    group_text, lemma_group_texts, EntryMatcher, DURATION_GROUP, END_GROUP, START_GROUP,
};
use crate::shape::{entry_in, lemma_written_entry, well_written, written, EntryText};
use vstd::prelude::*;

verus! {

/// A checked entry: the date it belongs to and the minutes it adds.
#[derive(Clone, Copy, Debug, PartialEq, Eq, Structural)]
pub struct Entry {
    /// Day number of the date.
    pub date: i32,
    /// Length of the interval in minutes.
    pub minutes: u64,
}

/// Why a line with the shape of an entry was refused.
#[derive(Clone, Copy, Debug, PartialEq, Eq, Structural)]
pub enum EntryError {
    /// The match gave no start timestamp.
    MissingStart,
    /// The start timestamp cannot be read.
    BadStart,
    /// The match gave no end timestamp.
    MissingEnd,
    /// The end timestamp cannot be read.
    BadEnd,
    /// Start and end lie on different dates.
    DateMismatch { start: Timestamp, end: Timestamp },
    /// The match gave no duration.
    MissingDuration,
    /// The claimed duration cannot be read.
    BadDuration,
    /// The interval from `start` to `end` is not as long as `claimed`.
    DurationMismatch { start: Timestamp, end: Timestamp, claimed: TimeOfDay },
}

impl EntryError {
    /// What to tell the keeper of the log.
    pub open spec fn message_text(self) -> Seq<char> {
        match self {
            EntryError::MissingStart => "start_datetime is None"@,
            EntryError::BadStart => "failed to parse start_datetime"@,
            EntryError::MissingEnd => "end_datetime is None"@,
            EntryError::BadEnd => "failed to parse end_datetime"@,
            EntryError::DateMismatch { .. } => "start datetime is not equivalent to end datetime"@,
            EntryError::MissingDuration => "duration is None"@,
            EntryError::BadDuration => "failed to parse duration"@,
            EntryError::DurationMismatch { .. } => "invalid duration"@,
        }
    }

    /// What to tell the keeper of the log.
    pub fn message(&self) -> (r: &'static str)
        ensures
            r@ == self.message_text(),
    {
        match self {
            EntryError::MissingStart => "start_datetime is None",
            EntryError::BadStart => "failed to parse start_datetime",
            EntryError::MissingEnd => "end_datetime is None",
            EntryError::BadEnd => "failed to parse end_datetime",
            EntryError::DateMismatch { .. } => "start datetime is not equivalent to end datetime",
            EntryError::MissingDuration => "duration is None",
            EntryError::BadDuration => "failed to parse duration",
            EntryError::DurationMismatch { .. } => "invalid duration",
        }
    }
}

/// Minutes from `start` to `end`, both taken on the same date; negative where
/// `end` is the earlier.
pub open spec fn interval_minutes(start: Timestamp, end: Timestamp) -> int {
    end.time.minutes() - start.time.minutes()
}

/// The date that an interval lies on, if it lies on one.
pub open spec fn interval_date(start: Timestamp, end: Timestamp) -> Result<i32, EntryError> {
    if start.date == end.date {
        Ok(start.date)
    } else {
        Err(EntryError::DateMismatch { start, end })
    }
}

/// The entry that an interval and a claimed duration make, if they agree.
pub open spec fn checked_entry(start: Timestamp, end: Timestamp, claimed: TimeOfDay) -> Result<
    Entry,
    EntryError,
> {
    if start.date != end.date {
        Err(EntryError::DateMismatch { start, end })
    } else if interval_minutes(start, end) != claimed.minutes() {
        Err(EntryError::DurationMismatch { start, end, claimed })
    } else {
        Ok(Entry { date: start.date, minutes: claimed.minutes() as u64 })
    }
}

/// What the fields of an entry come to, each given as it was captured and
/// read: `None` for a group without text, `Some(None)` for text that cannot
/// be read.  The fields are looked at in the order start, end, duration, and
/// the dates are compared before the duration is looked at.
pub open spec fn entry_of_fields(
    start: Option<Option<Timestamp>>,
    end: Option<Option<Timestamp>>,
    claimed: Option<Option<TimeOfDay>>,
) -> Result<Entry, EntryError> {
    match start {
        None => Err(EntryError::MissingStart),
        Some(None) => Err(EntryError::BadStart),
        Some(Some(s)) => match end {
            None => Err(EntryError::MissingEnd),
            Some(None) => Err(EntryError::BadEnd),
            Some(Some(e)) => if s.date != e.date {
                Err(EntryError::DateMismatch { start: s, end: e })
            } else {
                match claimed {
                    None => Err(EntryError::MissingDuration),
                    Some(None) => Err(EntryError::BadDuration),
                    Some(Some(c)) => checked_entry(s, e, c),
                }
            },
        },
    }
}

/// The timestamp in the group `name` of the entry in `line`.
pub open spec fn timestamp_field(line: Seq<char>, name: Seq<char>) -> Option<Option<Timestamp>> {
    match group_text(entry_in(line), name) {
        None => None,
        Some(text) => Some(parsed_timestamp(text, TIMESTAMP_FORMAT@)),
    }
}

/// The claimed duration of the entry in `line`.
pub open spec fn duration_field(line: Seq<char>) -> Option<Option<TimeOfDay>> {
    match group_text(entry_in(line), DURATION_GROUP@) {
        None => None,
        Some(text) => Some(parsed_time(text, DURATION_FORMAT@)),
    }
}

/// What the three texts of an entry come to, once read.
pub open spec fn entry_of_text(text: EntryText) -> Result<Entry, EntryError> {
    entry_of_fields(
        Some(parsed_timestamp(text.start, TIMESTAMP_FORMAT@)),
        Some(parsed_timestamp(text.end, TIMESTAMP_FORMAT@)),
        Some(parsed_time(text.duration, DURATION_FORMAT@)),
    )
}

/// What a line of the log comes to: `None` for a line that holds no entry,
/// else the entry or the reason it is refused.
pub open spec fn line_outcome(line: Seq<char>) -> Option<Result<Entry, EntryError>> {
    match entry_in(line) {
        None => None,
        Some(text) => Some(entry_of_text(text)),
    }
}

/// Compares the dates of the two ends of an interval.
pub fn same_date(start: Timestamp, end: Timestamp) -> (r: Result<i32, EntryError>)
    ensures
        r == interval_date(start, end),
{
    if start.date == end.date {
        Ok(start.date)
    } else {
        Err(EntryError::DateMismatch { start, end })
    }
}

/// Checks an interval against the duration claimed for it.
pub fn check_entry(start: Timestamp, end: Timestamp, claimed: TimeOfDay) -> (r: Result<
    Entry,
    EntryError,
>)
    ensures
        r == checked_entry(start, end, claimed),
{
    if start.date != end.date {
        return Err(EntryError::DateMismatch { start, end });
    }
    let interval: i64 = end.time.to_minutes() - start.time.to_minutes();
    let wanted: i64 = claimed.to_minutes();
    if interval != wanted {
        return Err(EntryError::DurationMismatch { start, end, claimed });
    }
    Ok(Entry { date: start.date, minutes: wanted as u64 })
}

/// Makes an entry of its fields, each given as it was captured and read:
/// `None` for a group without text, `Some(None)` for text that cannot be
/// read.
pub fn entry_from_fields(
    start: Option<Option<Timestamp>>,
    end: Option<Option<Timestamp>>,
    claimed: Option<Option<TimeOfDay>>,
) -> (r: Result<Entry, EntryError>)
    ensures
        r == entry_of_fields(start, end, claimed),
{
    let start = match start {
        None => { return Err(EntryError::MissingStart); },
        Some(None) => { return Err(EntryError::BadStart); },
        Some(Some(stamp)) => stamp,
    };
    let end = match end {
        None => { return Err(EntryError::MissingEnd); },
        Some(None) => { return Err(EntryError::BadEnd); },
        Some(Some(stamp)) => stamp,
    };
    match same_date(start, end) {
        Ok(_) => {},
        Err(error) => { return Err(error); },
    }
    match claimed {
        None => Err(EntryError::MissingDuration),
        Some(None) => Err(EntryError::BadDuration),
        Some(Some(time)) => check_entry(start, end, time),
    }
}

/// The timestamp in the group `name` of the entry that `line` holds.
pub fn timestamp_in(matcher: &EntryMatcher, line: &str, name: &str) -> (r: Option<
    Option<Timestamp>,
>)
    ensures
        r == timestamp_field(line@, name@),
        r matches Some(Some(stamp)) ==> stamp.time.on_clock() && calendar_day(stamp.date as int)
            is Some,
{
    match matcher.field(line, name) {
        Some(text) => Some(read_timestamp(text)),
        None => None,
    }
}

/// The duration that the entry in `line` claims.
pub fn duration_in(matcher: &EntryMatcher, line: &str) -> (r: Option<Option<TimeOfDay>>)
    ensures
        r == duration_field(line@),
        r matches Some(Some(time)) ==> time.on_clock(),
{
    match matcher.field(line, DURATION_GROUP) {
        Some(text) => Some(read_duration(text)),
        None => None,
    }
}

/// Reads the entry that `line` holds, if it holds one.  An entry that
/// passes lies on a date of the calendar and is less than a day long.
pub fn read_line(matcher: &EntryMatcher, line: &str) -> (r: Option<Result<Entry, EntryError>>)
    ensures
        r == line_outcome(line@),
        r matches Some(Ok(entry)) ==> calendar_day(entry.date as int) is Some && entry.minutes
            < 1440,
{
    if !matcher.is_entry(line) {
        return None;
    }
    proof {
        lemma_group_texts(entry_in(line@)->0);
    }
    let start = timestamp_in(matcher, line, START_GROUP);
    let end = timestamp_in(matcher, line, END_GROUP);
    let claimed = duration_in(matcher, line);
    Some(entry_from_fields(start, end, claimed))
}

/// An interval on one date that is as long as claimed makes an entry of the
/// claimed minutes on that date.
pub proof fn lemma_agreeing_entry(start: Timestamp, end: Timestamp, claimed: TimeOfDay)
    requires
        start.date == end.date,
        interval_minutes(start, end) == claimed.minutes(),
    ensures
        checked_entry(start, end, claimed) matches Ok(entry) && entry.date == start.date
            && entry.minutes == claimed.minutes(),
{
}

/// An interval on one date that is not as long as claimed is refused as a
/// mismatch of the duration.
pub proof fn lemma_disagreeing_entry(start: Timestamp, end: Timestamp, claimed: TimeOfDay)
    requires
        start.date == end.date,
        interval_minutes(start, end) != claimed.minutes(),
    ensures
        checked_entry(start, end, claimed) == Err::<Entry, EntryError>(
            EntryError::DurationMismatch { start, end, claimed },
        ),
{
}

/// An interval whose ends lie on different dates is refused as a mismatch of
/// the dates, whatever duration is claimed for it and whether or not that
/// can be read.
pub proof fn lemma_split_interval(
    start: Timestamp,
    end: Timestamp,
    claimed: Option<Option<TimeOfDay>>,
)
    requires
        start.date != end.date,
    ensures
        entry_of_fields(Some(Some(start)), Some(Some(end)), claimed) == Err::<Entry, EntryError>(
            EntryError::DateMismatch { start, end },
        ),
{
}

/// A line that has the shape of an entry is never refused for a missing
/// text: its three texts are all there.
pub proof fn lemma_no_text_is_missing(line: Seq<char>)
    ensures
        line_outcome(line) != Some(Err::<Entry, EntryError>(EntryError::MissingStart)),
        line_outcome(line) != Some(Err::<Entry, EntryError>(EntryError::MissingEnd)),
        line_outcome(line) != Some(Err::<Entry, EntryError>(EntryError::MissingDuration)),
{
}

/// A line that holds an entry written out, with no opening bracket before
/// it, comes to what the three texts come to as they were written, whatever
/// follows the entry.
pub proof fn lemma_written_line(
    before: Seq<char>,
    start: Seq<char>,
    end: Seq<char>,
    before_arrow: Seq<char>,
    after_arrow: Seq<char>,
    duration: Seq<char>,
    after: Seq<char>,
)
    requires
        well_written(before, start, end, before_arrow, after_arrow, duration),
    ensures
        line_outcome(before + written(start, end, before_arrow, after_arrow, duration) + after)
            == Some(entry_of_text(EntryText { start, end, duration })),
{
    lemma_written_entry(before, start, end, before_arrow, after_arrow, duration, after);
}

} // verus!
