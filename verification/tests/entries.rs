use worktime::calendar::{CALENDAR_END, CALENDAR_START};
use worktime::calendar::{read_duration, read_timestamp, TimeOfDay, Timestamp};
use worktime::entry::{
    check_entry, duration_in, entry_from_fields, read_line, same_date, timestamp_in, Entry,
    EntryError,
};
use worktime::pattern::{EntryMatcher, END_GROUP, START_GROUP};

const MAR_1: i32 = 738946;
const MAR_2: i32 = 738947;
const MAR_7: i32 = 738952;

fn at(date: i32, hour: u32, minute: u32) -> Timestamp {
    Timestamp { date, time: TimeOfDay { hour, minute } }
}

fn span(hour: u32, minute: u32) -> TimeOfDay {
    TimeOfDay { hour, minute }
}

fn matcher() -> EntryMatcher {
    EntryMatcher::new().unwrap()
}

#[test]
fn timestamp_is_read_to_the_minute() {
    assert_eq!(read_timestamp("2024-03-07 Thu 09:15"), Some(at(MAR_7, 9, 15)));
    assert_eq!(read_timestamp("2024-03-01 Fri 00:00"), Some(at(MAR_1, 0, 0)));
    assert_eq!(read_timestamp("2024-03-01 Fri 23:59"), Some(at(MAR_1, 23, 59)));
    assert_eq!(read_timestamp("1970-01-01 Thu 00:00"), Some(at(719163, 0, 0)));
    assert_eq!(read_timestamp("0001-01-01 Mon 00:00"), Some(at(1, 0, 0)));
}

#[test]
fn timestamp_that_cannot_be_read() {
    assert_eq!(read_timestamp(""), None);
    assert_eq!(read_timestamp("2024-03-07 09:15"), None);
    assert_eq!(read_timestamp("2024-03-07 Thu"), None);
    assert_eq!(read_timestamp("2024-03-07 Thu 24:00"), None);
    assert_eq!(read_timestamp("2024-03-07 Thu 09:60"), None);
    assert_eq!(read_timestamp("2024-02-30 Fri 09:00"), None);
    assert_eq!(read_timestamp("2024-13-01 Fri 09:00"), None);
    assert_eq!(read_timestamp("2024-03-07 Fri 09:15"), None);
    assert_eq!(read_timestamp("2024-03-07 Thu 09:15:00"), None);
    assert_eq!(read_timestamp("yesterday"), None);
}

#[test]
fn duration_is_read_as_hours_and_minutes() {
    assert_eq!(read_duration("1:05"), Some(span(1, 5)));
    assert_eq!(read_duration("0:30"), Some(span(0, 30)));
    assert_eq!(read_duration("12:00"), Some(span(12, 0)));
    assert_eq!(read_duration("23:59"), Some(span(23, 59)));
    assert_eq!(read_duration(" 1:05"), Some(span(1, 5)));
}

#[test]
fn duration_that_cannot_be_read() {
    assert_eq!(read_duration(""), None);
    assert_eq!(read_duration("24:00"), None);
    assert_eq!(read_duration("100:00"), None);
    assert_eq!(read_duration("1:60"), None);
    assert_eq!(read_duration("1:5x"), None);
    assert_eq!(read_duration("1"), None);
}

#[test]
fn minutes_since_midnight() {
    assert_eq!(span(0, 0).to_minutes(), 0);
    assert_eq!(span(1, 5).to_minutes(), 65);
    assert_eq!(span(23, 59).to_minutes(), 1439);
    assert_eq!(span(u32::MAX, u32::MAX).to_minutes(), 4294967295i64 * 61);
}

#[test]
fn interval_on_one_date() {
    assert_eq!(same_date(at(MAR_1, 8, 0), at(MAR_1, 9, 5)), Ok(MAR_1));
    assert_eq!(same_date(at(MAR_1, 9, 5), at(MAR_1, 8, 0)), Ok(MAR_1));
}

#[test]
fn interval_over_two_dates() {
    let start = at(MAR_1, 23, 0);
    let end = at(MAR_2, 1, 0);
    assert_eq!(same_date(start, end), Err(EntryError::DateMismatch { start, end }));
}

#[test]
fn entry_as_long_as_claimed() {
    assert_eq!(
        check_entry(at(MAR_1, 8, 0), at(MAR_1, 9, 5), span(1, 5)),
        Ok(Entry { date: MAR_1, minutes: 65 })
    );
    assert_eq!(
        check_entry(at(MAR_7, 13, 0), at(MAR_7, 13, 30), span(0, 30)),
        Ok(Entry { date: MAR_7, minutes: 30 })
    );
    assert_eq!(
        check_entry(at(MAR_7, 0, 0), at(MAR_7, 23, 59), span(23, 59)),
        Ok(Entry { date: MAR_7, minutes: 1439 })
    );
}

#[test]
fn entry_of_no_length() {
    assert_eq!(
        check_entry(at(MAR_7, 9, 0), at(MAR_7, 9, 0), span(0, 0)),
        Ok(Entry { date: MAR_7, minutes: 0 })
    );
}

#[test]
fn entry_not_as_long_as_claimed() {
    let start = at(MAR_1, 8, 0);
    let end = at(MAR_1, 9, 0);
    for claimed in [span(2, 0), span(0, 59), span(1, 1), span(0, 0)] {
        assert_eq!(
            check_entry(start, end, claimed),
            Err(EntryError::DurationMismatch { start, end, claimed })
        );
    }
}

#[test]
fn entry_that_ends_before_it_starts() {
    let start = at(MAR_1, 9, 0);
    let end = at(MAR_1, 8, 0);
    let claimed = span(1, 0);
    assert_eq!(
        check_entry(start, end, claimed),
        Err(EntryError::DurationMismatch { start, end, claimed })
    );
}

#[test]
fn entry_over_two_dates_is_refused_for_its_dates() {
    let start = at(MAR_1, 23, 0);
    let end = at(MAR_2, 1, 0);
    assert_eq!(
        check_entry(start, end, span(2, 0)),
        Err(EntryError::DateMismatch { start, end })
    );
    assert_eq!(
        check_entry(start, end, span(9, 9)),
        Err(EntryError::DateMismatch { start, end })
    );
}

#[test]
fn fields_are_judged_in_order() {
    let start = at(MAR_1, 8, 0);
    let end = at(MAR_1, 9, 0);
    let late = at(MAR_2, 9, 0);
    let ok = Some(Some(span(1, 0)));
    assert_eq!(entry_from_fields(None, None, None), Err(EntryError::MissingStart));
    assert_eq!(entry_from_fields(Some(None), None, None), Err(EntryError::BadStart));
    assert_eq!(entry_from_fields(Some(Some(start)), None, None), Err(EntryError::MissingEnd));
    assert_eq!(entry_from_fields(Some(Some(start)), Some(None), ok), Err(EntryError::BadEnd));
    assert_eq!(
        entry_from_fields(Some(Some(start)), Some(Some(late)), Some(None)),
        Err(EntryError::DateMismatch { start, end: late })
    );
    assert_eq!(
        entry_from_fields(Some(Some(start)), Some(Some(late)), None),
        Err(EntryError::DateMismatch { start, end: late })
    );
    assert_eq!(
        entry_from_fields(Some(Some(start)), Some(Some(end)), None),
        Err(EntryError::MissingDuration)
    );
    assert_eq!(
        entry_from_fields(Some(Some(start)), Some(Some(end)), Some(None)),
        Err(EntryError::BadDuration)
    );
    assert_eq!(
        entry_from_fields(Some(Some(start)), Some(Some(end)), Some(Some(span(2, 0)))),
        Err(EntryError::DurationMismatch { start, end, claimed: span(2, 0) })
    );
    assert_eq!(
        entry_from_fields(Some(Some(start)), Some(Some(end)), ok),
        Ok(Entry { date: MAR_1, minutes: 60 })
    );
}

#[test]
fn fields_of_a_line() {
    let m = matcher();
    let line = "[2024-03-01 Fri 08:00]--[2024-03-01 Fri 09:05] => 1:05";
    assert_eq!(timestamp_in(&m, line, START_GROUP), Some(Some(at(MAR_1, 8, 0))));
    assert_eq!(timestamp_in(&m, line, END_GROUP), Some(Some(at(MAR_1, 9, 5))));
    assert_eq!(duration_in(&m, line), Some(Some(span(1, 5))));
    let odd = "[soon]--[2024-03-01 Fri 09:05] => 77:05";
    assert_eq!(timestamp_in(&m, odd, START_GROUP), Some(None));
    assert_eq!(timestamp_in(&m, odd, END_GROUP), Some(Some(at(MAR_1, 9, 5))));
    assert_eq!(duration_in(&m, odd), Some(None));
    assert_eq!(timestamp_in(&m, "a note", START_GROUP), None);
    assert_eq!(duration_in(&m, "a note"), None);
}

#[test]
fn line_with_a_good_entry() {
    let m = matcher();
    assert_eq!(
        read_line(&m, "[2024-03-01 Fri 08:00]--[2024-03-01 Fri 09:05] => 1:05"),
        Some(Ok(Entry { date: MAR_1, minutes: 65 }))
    );
    assert_eq!(
        read_line(&m, "CLOCK: [2024-03-07 Thu 13:00]--[2024-03-07 Thu 13:30] =>  0:30"),
        Some(Ok(Entry { date: MAR_7, minutes: 30 }))
    );
}

#[test]
fn line_without_an_entry() {
    let m = matcher();
    assert_eq!(read_line(&m, ""), None);
    assert_eq!(read_line(&m, "* Tasks"), None);
    assert_eq!(read_line(&m, "[2024-03-01 Fri 08:00]"), None);
}

#[test]
fn line_with_a_start_that_cannot_be_read() {
    let m = matcher();
    assert_eq!(
        read_line(&m, "[2024-03-01 08:00]--[2024-03-01 Fri 09:05] => 1:05"),
        Some(Err(EntryError::BadStart))
    );
}

#[test]
fn line_with_an_end_that_cannot_be_read() {
    let m = matcher();
    assert_eq!(
        read_line(&m, "[2024-03-01 Fri 08:00]--[2024-03-01 Fri 25:05] => 1:05"),
        Some(Err(EntryError::BadEnd))
    );
}

#[test]
fn line_with_a_duration_that_cannot_be_read() {
    let m = matcher();
    assert_eq!(
        read_line(&m, "[2024-03-01 Fri 08:00]--[2024-03-01 Fri 09:05] => 1:65"),
        Some(Err(EntryError::BadDuration))
    );
    assert_eq!(
        read_line(&m, "[2024-03-01 Fri 08:00]--[2024-03-01 Fri 09:05] => 101:05"),
        Some(Err(EntryError::BadDuration))
    );
}

#[test]
fn line_over_two_dates() {
    let m = matcher();
    assert_eq!(
        read_line(&m, "[2024-03-01 Fri 23:00]--[2024-03-02 Sat 01:00] => 2:00"),
        Some(Err(EntryError::DateMismatch { start: at(MAR_1, 23, 0), end: at(MAR_2, 1, 0) }))
    );
    assert_eq!(
        read_line(&m, "[2024-03-01 Fri 23:00]--[2024-03-02 Sat 01:00] => 99:99"),
        Some(Err(EntryError::DateMismatch { start: at(MAR_1, 23, 0), end: at(MAR_2, 1, 0) }))
    );
}

#[test]
fn line_with_a_wrong_duration() {
    let m = matcher();
    assert_eq!(
        read_line(&m, "[2024-03-01 Fri 08:00]--[2024-03-01 Fri 09:00] => 2:00"),
        Some(Err(EntryError::DurationMismatch {
            start: at(MAR_1, 8, 0),
            end: at(MAR_1, 9, 0),
            claimed: span(2, 0),
        }))
    );
}

#[test]
fn every_refusal_has_its_message() {
    let start = at(MAR_1, 8, 0);
    let end = at(MAR_2, 9, 0);
    let claimed = span(1, 0);
    assert_eq!(EntryError::MissingStart.message(), "start_datetime is None");
    assert_eq!(EntryError::BadStart.message(), "failed to parse start_datetime");
    assert_eq!(EntryError::MissingEnd.message(), "end_datetime is None");
    assert_eq!(EntryError::BadEnd.message(), "failed to parse end_datetime");
    assert_eq!(
        EntryError::DateMismatch { start, end }.message(),
        "start datetime is not equivalent to end datetime"
    );
    assert_eq!(EntryError::MissingDuration.message(), "duration is None");
    assert_eq!(EntryError::BadDuration.message(), "failed to parse duration");
    assert_eq!(EntryError::DurationMismatch { start, end, claimed }.message(), "invalid duration");
}

#[test]
fn what_is_read_lies_on_the_clock_and_the_calendar() {
    for text in [
        "2024-03-07 Thu 09:15",
        "+262142-12-31 Fri 23:59",
        "-262143-01-01 Mon 00:00",
        "0000-02-29 Tue 12:00",
        "9999-12-31 Fri 23:59",
    ] {
        match read_timestamp(text) {
            Some(stamp) => {
                assert!(stamp.time.hour < 24 && stamp.time.minute < 60, "{}", text);
                assert!(CALENDAR_START <= stamp.date && stamp.date <= CALENDAR_END, "{}", text);
            }
            None => {}
        }
    }
    assert_eq!(read_timestamp("9999-12-31 Fri 23:59"), Some(at(3652059, 23, 59)));
    assert_eq!(read_timestamp("+262143-01-01 Mon 00:00"), None);
    for text in ["0:00", "9:59", "23:59", " 7:07"] {
        let time = read_duration(text).unwrap();
        assert!(time.hour < 24 && time.minute < 60, "{}", text);
    }
}
