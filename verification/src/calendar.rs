//! Dates and clock times as plain numbers.
//!
//! Reading a timestamp and naming a date are the work of the `chrono` crate.
//! A date is carried as its day number in the proleptic Gregorian calendar
//! (1 January of year 1 is day 1); a time of day as hour and minute.  What
//! `chrono` answers depends on the text and the format alone, so the
//! contracts speak of it through the names below.

use chrono::format::ParseError;
use chrono::{Datelike, NaiveDate, NaiveDateTime, NaiveTime, Timelike};
use std::fmt::Write;
use vstd::prelude::*;

verus! {

/// Format of the two timestamps of an entry, as in `2024-03-07 Thu 09:15`.
pub const TIMESTAMP_FORMAT: &'static str = "%Y-%m-%d %a %H:%M";

/// Format of the claimed duration: hours, then two digits of minutes.
pub const DURATION_FORMAT: &'static str = "%_H:%M";

/// Format of the date at the head of a report row.
pub const LABEL_FORMAT: &'static str = "%Y-%m-%d %a";

/// Day number of 1 January 1970.
pub const EPOCH_DATE: i32 = 719_163;

/// Day number of the first date of the calendar, 1 January of the year
/// -262143.
pub const CALENDAR_START: i32 = -95_746_129;

/// Day number of the last date of the calendar, 31 December of the year
/// 262142.
pub const CALENDAR_END: i32 = 95_745_399;

/// A time of day, or a span of less than a day, to the minute.
#[derive(Clone, Copy, Debug, PartialEq, Eq, Structural)]
pub struct TimeOfDay {
    pub hour: u32,
    pub minute: u32,
}

/// A minute on the calendar: a date and a time of day.
#[derive(Clone, Copy, Debug, PartialEq, Eq, Structural)]
pub struct Timestamp {
    /// Day number of the date.
    pub date: i32,
    pub time: TimeOfDay,
}

impl TimeOfDay {
    /// Minutes since midnight.
    pub open spec fn minutes(self) -> int {
        self.hour * 60 + self.minute
    }

    /// Whether a clock can show this time: the hour below 24, the minute
    /// below 60.
    pub open spec fn on_clock(self) -> bool {
        self.hour < 24 && self.minute < 60
    }

    /// Minutes since midnight.
    pub fn to_minutes(&self) -> (r: i64)
        ensures
            r == self.minutes(),
    {
        let hour: i64 = self.hour as i64;
        let minute: i64 = self.minute as i64;
        hour * 60 + minute
    }
}

/// The error with which the `chrono` crate refuses a text.
#[verifier::external_type_specification]
#[verifier::external_body]
pub struct ExParseError(ParseError);

/// The timestamp that `text` holds when read by `format`, or `None` where it
/// cannot be read so.
pub uninterp spec fn parsed_timestamp(text: Seq<char>, format: Seq<char>) -> Option<Timestamp>;

/// The time of day that `text` holds when read by `format`, or `None` where
/// it cannot be read so.
pub uninterp spec fn parsed_time(text: Seq<char>, format: Seq<char>) -> Option<TimeOfDay>;

/// The day of the month on which the date with day number `date` falls, or
/// `None` where the calendar has no such date.
pub uninterp spec fn calendar_day(date: int) -> Option<int>;

/// The date with day number `date` written out by `format`, or `None` where
/// the calendar has no such date or the format cannot be applied to a date.
pub uninterp spec fn calendar_label(date: int, format: Seq<char>) -> Option<Seq<char>>;

/// `NaiveDateTime::parse_from_str`, with the result taken apart by
/// `Datelike::num_days_from_ce`, `Timelike::hour` and `Timelike::minute`.
/// The seconds are left out; where the format names none they are zero.
/// The hour is documented to range from 0 to 23 and the minute from 0 to 59,
/// and the day number of a date that was read is one that the calendar
/// turns back into that date.
#[verifier::external_body]
fn parse_timestamp(text: &str, format: &str) -> (r: Result<Timestamp, ParseError>)
    ensures
        match r {
            Ok(stamp) => parsed_timestamp(text@, format@) == Some(stamp) && stamp.time.on_clock()
                && calendar_day(stamp.date as int) is Some,
            Err(_) => parsed_timestamp(text@, format@) is None,
        },
{
    match NaiveDateTime::parse_from_str(text, format) {
        Ok(moment) => Ok(
            Timestamp {
                date: moment.num_days_from_ce(),
                time: TimeOfDay { hour: moment.hour(), minute: moment.minute() },
            },
        ),
        Err(e) => Err(e),
    }
}

/// `NaiveTime::parse_from_str`, with the result taken apart by
/// `Timelike::hour` and `Timelike::minute`, which are documented to range
/// from 0 to 23 and from 0 to 59.
#[verifier::external_body]
fn parse_time(text: &str, format: &str) -> (r: Result<TimeOfDay, ParseError>)
    ensures
        match r {
            Ok(time) => parsed_time(text@, format@) == Some(time) && time.on_clock(),
            Err(_) => parsed_time(text@, format@) is None,
        },
{
    match NaiveTime::parse_from_str(text, format) {
        Ok(time) => Ok(TimeOfDay { hour: time.hour(), minute: time.minute() }),
        Err(e) => Err(e),
    }
}

/// `NaiveDate::from_num_days_from_ce_opt`, then `Datelike::day`, which is
/// documented to range from 1 to 31.  The calendar has every date from
/// `NaiveDate::MIN` to `NaiveDate::MAX`, whose day numbers are
/// [`CALENDAR_START`] and [`CALENDAR_END`].
#[verifier::external_body]
pub(crate) fn day_of_month(date: i32) -> (r: Option<u32>)
    ensures
        match r {
            Some(day) => calendar_day(date as int) == Some(day as int) && 1 <= day <= 31,
            None => calendar_day(date as int) is None,
        },
        CALENDAR_START <= date <= CALENDAR_END ==> r is Some,
{
    match NaiveDate::from_num_days_from_ce_opt(date) {
        Some(day) => Some(day.day()),
        None => None,
    }
}

/// `NaiveDate::from_num_days_from_ce_opt`, then `NaiveDate::format` written
/// into a string.  A format that cannot be applied gives `None`.
/// [`LABEL_FORMAT`] asks for year, month, day and weekday, which every date
/// has, so with it there is a label for every date of the calendar.
#[verifier::external_body]
pub(crate) fn date_label(date: i32, format: &str) -> (r: Option<String>)
    ensures
        match r {
            Some(label) => calendar_label(date as int, format@) == Some(label@),
            None => calendar_label(date as int, format@) is None,
        },
        format@ == LABEL_FORMAT@ && calendar_day(date as int) is Some ==> r is Some,
{
    let day = NaiveDate::from_num_days_from_ce_opt(date)?;
    let mut label = String::new();
    match write!(label, "{}", day.format(format)) {
        Ok(()) => Some(label),
        Err(_) => None,
    }
}

/// Reads a timestamp of an entry.  One that can be read shows a time of the
/// clock on a date of the calendar.
pub fn read_timestamp(text: &str) -> (r: Option<Timestamp>)
    ensures
        r == parsed_timestamp(text@, TIMESTAMP_FORMAT@),
        r matches Some(stamp) ==> stamp.time.on_clock() && calendar_day(stamp.date as int) is Some,
{
    match parse_timestamp(text, TIMESTAMP_FORMAT) {
        Ok(stamp) => Some(stamp),
        Err(_) => None,
    }
}

/// Reads the duration that an entry claims.  One that can be read is less
/// than a day.
pub fn read_duration(text: &str) -> (r: Option<TimeOfDay>)
    ensures
        r == parsed_time(text@, DURATION_FORMAT@),
        r matches Some(time) ==> time.on_clock(),
{
    match parse_time(text, DURATION_FORMAT) {
        Ok(time) => Some(time),
        Err(_) => None,
    }
}

} // verus!
