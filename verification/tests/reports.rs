use worktime::calendar::{CALENDAR_END, CALENDAR_START, EPOCH_DATE};
use worktime::entry::Entry;
use worktime::report::{
    arrange, day_rows, render, report, total_minutes, write_day_line, write_goal_line,
    write_sum_line,
};
use worktime::text::{padded_text, push_decimal, push_padded};
use worktime::totals::{DayRow, DayTotals};

const FEB_29: i32 = 738945;
const MAR_1: i32 = 738946;
const MAR_7: i32 = 738952;
const MAR_31: i32 = 738976;
const APR_7: i32 = 738983;

fn row(date: i32, minutes: u128) -> DayRow {
    DayRow { date, minutes }
}

#[test]
fn decimal_digits() {
    let mut out = String::from("n=");
    push_decimal(&mut out, 0);
    assert_eq!(out, "n=0");
    push_decimal(&mut out, 7);
    push_decimal(&mut out, 10);
    push_decimal(&mut out, 1234567890);
    assert_eq!(out, "n=07101234567890");
    let mut big = String::new();
    push_decimal(&mut big, u128::MAX);
    assert_eq!(big, "340282366920938463463374607431768211455");
}

#[test]
fn numbers_are_two_wide_at_least() {
    assert_eq!(padded_text(0), " 0");
    assert_eq!(padded_text(5), " 5");
    assert_eq!(padded_text(9), " 9");
    assert_eq!(padded_text(10), "10");
    assert_eq!(padded_text(59), "59");
    assert_eq!(padded_text(100), "100");
    let mut out = String::from("x");
    push_padded(&mut out, 3);
    push_padded(&mut out, 30);
    assert_eq!(out, "x 330");
}

#[test]
fn row_of_a_date() {
    assert_eq!(write_day_line("2024-03-01 Fri", 65), "2024-03-01 Fri:  1h 5m");
    assert_eq!(write_day_line("2024-03-07 Thu", 90), "2024-03-07 Thu:  1h30m");
    assert_eq!(write_day_line("x", 0), "x:  0h 0m");
    assert_eq!(write_day_line("x", 1439), "x: 23h59m");
}

#[test]
fn row_of_a_date_shows_a_clock() {
    assert_eq!(write_day_line("x", 1440), "x:  0h 0m");
    assert_eq!(write_day_line("x", 25 * 60 + 1), "x:  1h 1m");
    assert_eq!(write_day_line("x", 47 * 60 + 59), "x: 23h59m");
}

#[test]
fn sum_row() {
    assert_eq!(write_sum_line(1, 65), "sum:             0d 1h 5m");
    assert_eq!(write_sum_line(2, 1440 + 600 + 10), "sum:             1d10h10m");
    assert_eq!(write_sum_line(31, 30 * 1440 + 1439), "sum:            30d23h59m");
}

#[test]
fn goal_row() {
    assert_eq!(write_goal_line(0), "goal:            0d 0h 0m");
    assert_eq!(write_goal_line(1), "goal:            0d 8h 0m");
    assert_eq!(write_goal_line(2), "goal:            0d16h 0m");
    assert_eq!(write_goal_line(3), "goal:            1d 0h 0m");
    assert_eq!(write_goal_line(22), "goal:            7d 8h 0m");
    assert_eq!(write_goal_line(31), "goal:           10d 8h 0m");
    assert_eq!(write_goal_line(300), "goal:           100d 0h 0m");
}

#[test]
fn minutes_of_all_rows() {
    assert_eq!(total_minutes(&vec![]), Some(0));
    assert_eq!(total_minutes(&vec![row(MAR_1, 65)]), Some(65));
    assert_eq!(total_minutes(&vec![row(MAR_1, 65), row(MAR_7, 90), row(APR_7, 1)]), Some(156));
    assert_eq!(total_minutes(&vec![row(MAR_1, u128::MAX), row(MAR_7, 0)]), Some(u128::MAX));
    assert_eq!(total_minutes(&vec![row(MAR_1, u128::MAX), row(MAR_7, 1)]), None);
}

#[test]
fn rows_come_by_day_of_the_month() {
    let items = vec![row(MAR_31, 1), row(MAR_7, 2), row(FEB_29, 3), row(MAR_1, 4)];
    assert_eq!(
        arrange(&items),
        Some(vec![row(MAR_1, 4), row(MAR_7, 2), row(FEB_29, 3), row(MAR_31, 1)])
    );
}

#[test]
fn rows_of_equal_days_keep_their_order() {
    let items = vec![row(APR_7, 1), row(MAR_1, 2), row(MAR_7, 3)];
    assert_eq!(arrange(&items), Some(vec![row(MAR_1, 2), row(APR_7, 1), row(MAR_7, 3)]));
    let items = vec![row(MAR_7, 3), row(MAR_1, 2), row(APR_7, 1)];
    assert_eq!(arrange(&items), Some(vec![row(MAR_1, 2), row(MAR_7, 3), row(APR_7, 1)]));
}

#[test]
fn no_rows_to_arrange() {
    assert_eq!(arrange(&vec![]), Some(vec![]));
}

#[test]
fn rows_off_the_calendar_cannot_be_arranged() {
    assert_eq!(arrange(&vec![row(MAR_1, 1), row(i32::MAX, 1)]), None);
    assert_eq!(arrange(&vec![row(i32::MIN, 1)]), None);
}

#[test]
fn report_of_one_entry() {
    let lines = render(&vec![row(MAR_1, 65)], 1).unwrap();
    assert_eq!(
        lines,
        vec![
            "2024-03-01 Fri:  1h 5m".to_string(),
            "sum:             0d 1h 5m".to_string(),
            "goal:            0d 8h 0m".to_string(),
        ]
    );
}

#[test]
fn report_of_nothing() {
    assert_eq!(
        render(&vec![], 0),
        Some(vec!["sum:             0d 0h 0m".to_string(), "goal:            0d 0h 0m".to_string()])
    );
}

#[test]
fn report_of_several_dates() {
    let rows = vec![row(MAR_1, 8 * 60), row(MAR_7, 9 * 60 + 30), row(MAR_31, 7 * 60 + 45)];
    assert_eq!(
        render(&rows, 3),
        Some(vec![
            "2024-03-01 Fri:  8h 0m".to_string(),
            "2024-03-07 Thu:  9h30m".to_string(),
            "2024-03-31 Sun:  7h45m".to_string(),
            "sum:             1d 1h15m".to_string(),
            "goal:            1d 0h 0m".to_string(),
        ])
    );
}

#[test]
fn sum_runs_past_the_end_of_a_month() {
    let month = 31 * 1440;
    assert_eq!(
        render(&vec![row(MAR_1, month - 1)], 1).unwrap()[1],
        "sum:            30d23h59m"
    );
    assert_eq!(render(&vec![row(MAR_1, month)], 1).unwrap()[1], "sum:             0d 0h 0m");
    assert_eq!(
        render(&vec![row(MAR_1, month + 1440 + 61)], 1).unwrap()[1],
        "sum:             1d 1h 1m"
    );
}

#[test]
fn no_report_off_the_calendar() {
    assert_eq!(render(&vec![row(i32::MAX, 1)], 1), None);
    assert_eq!(render(&vec![row(MAR_1, u128::MAX)], 1), None);
    assert_eq!(render(&vec![row(MAR_1, u128::MAX), row(MAR_7, 1)], 2), None);
    assert_eq!(render(&vec![row(MAR_1, (i32::MAX as u128) * 1440)], 1), None);
}

#[test]
fn rows_of_totals() {
    let mut totals = DayTotals::new();
    totals.record(Entry { date: MAR_31, minutes: 10 });
    totals.record(Entry { date: MAR_7, minutes: 60 });
    totals.record(Entry { date: MAR_1, minutes: 5 });
    totals.record(Entry { date: MAR_7, minutes: 30 });
    assert_eq!(day_rows(&totals), Some(vec![row(MAR_1, 5), row(MAR_7, 90), row(MAR_31, 10)]));
}

#[test]
fn rows_of_totals_over_two_months() {
    let mut totals = DayTotals::new();
    totals.record(Entry { date: APR_7, minutes: 1 });
    totals.record(Entry { date: MAR_7, minutes: 2 });
    totals.record(Entry { date: MAR_1, minutes: 3 });
    let rows = day_rows(&totals).unwrap();
    assert_eq!(rows.len(), 3);
    assert_eq!(rows[0], row(MAR_1, 3));
    assert!(rows[1..].contains(&row(MAR_7, 2)));
    assert!(rows[1..].contains(&row(APR_7, 1)));
}

#[test]
fn rows_of_totals_off_the_calendar() {
    let mut totals = DayTotals::new();
    totals.record(Entry { date: MAR_1, minutes: 3 });
    totals.record(Entry { date: i32::MAX, minutes: 3 });
    assert_eq!(day_rows(&totals), None);
    assert_eq!(report(&totals), None);
}

#[test]
fn report_of_totals() {
    let mut totals = DayTotals::new();
    totals.record(Entry { date: MAR_7, minutes: 60 });
    totals.record(Entry { date: MAR_7, minutes: 30 });
    assert_eq!(
        report(&totals),
        Some(vec![
            "2024-03-07 Thu:  1h30m".to_string(),
            "sum:             0d 1h30m".to_string(),
            "goal:            0d 8h 0m".to_string(),
        ])
    );
}

#[test]
fn calendar_runs_from_its_first_date_to_its_last() {
    assert_eq!(CALENDAR_START, -95_746_129);
    assert_eq!(CALENDAR_END, 95_745_399);
    assert_eq!(arrange(&vec![row(CALENDAR_START, 1)]), Some(vec![row(CALENDAR_START, 1)]));
    assert_eq!(arrange(&vec![row(CALENDAR_END, 1)]), Some(vec![row(CALENDAR_END, 1)]));
    assert_eq!(arrange(&vec![row(CALENDAR_START - 1, 1)]), None);
    assert_eq!(arrange(&vec![row(CALENDAR_END + 1, 1)]), None);
    assert_eq!(arrange(&vec![row(0, 1), row(-1, 2), row(1, 3)]).map(|rows| rows.len()), Some(3));
}

#[test]
fn every_date_of_the_calendar_has_a_label() {
    let first = render(&vec![row(CALENDAR_START, 0)], 1).unwrap();
    assert!(first[0].starts_with("-262143-01-01 "), "{}", first[0]);
    let last = render(&vec![row(CALENDAR_END, 0)], 1).unwrap();
    assert!(last[0].starts_with("+262142-12-31 "), "{}", last[0]);
    assert_eq!(render(&vec![row(1, 0)], 1).unwrap()[0], "0001-01-01 Mon:  0h 0m");
    assert_eq!(render(&vec![row(0, 0)], 1).unwrap()[0], "0000-12-31 Sun:  0h 0m");
    let mut date = CALENDAR_START;
    while date <= CALENDAR_END - 1_000_003 {
        assert!(render(&vec![row(date, 0)], 1).is_some(), "{}", date);
        date += 1_000_003;
    }
}

#[test]
fn sum_reaches_the_end_of_the_calendar() {
    let days = (CALENDAR_END - EPOCH_DATE) as u128;
    let lines = render(&vec![row(MAR_1, days * 1440 + 1439)], 1).unwrap();
    assert_eq!(lines[1], "sum:            30d23h59m");
    assert_eq!(render(&vec![row(MAR_1, days * 1440 + 1440)], 1), None);
}
