//! The report: one row for each date, then the sum and the goal.
//!
//! Rows come in the order of the day of the month, 1 to 31, whatever the
//! month: a log that spans several months has the rows of equal days side by
//! side.  The sum is read off the calendar as the moment that lies the whole
//! total after midnight of 1 January 1970.  The goal is eight hours for each
//! date that has a row.

use crate::calendar::{
    calendar_day, calendar_label, date_label, day_of_month, CALENDAR_END, EPOCH_DATE,
    LABEL_FORMAT,
};
use crate::text::{padded, push_padded, texts};
use crate::totals::{has_row, lists, minutes_sum, DayRow, DayTotals};
use vstd::prelude::*;
use vstd::string::StringExecFns;

verus! {

/// The day of the month of a row's date.
pub open spec fn row_day(row: DayRow) -> Option<int> {
    calendar_day(row.date as int)
}

/// Whether the calendar knows the date of every row.
pub open spec fn all_dated(rows: Seq<DayRow>) -> bool {
    forall|i: int| 0 <= i < rows.len() ==> #[trigger] row_day(rows[i]) is Some
}

/// The rows among the first `n` of `items` that fall on the `day` of a month,
/// in the order they have there.
pub open spec fn rows_on_day(items: Seq<DayRow>, n: int, day: int) -> Seq<DayRow>
    decreases n,
{
    if n <= 0 {
        Seq::empty()
    } else if row_day(items[n - 1]) == Some(day) {
        rows_on_day(items, n - 1, day).push(items[n - 1])
    } else {
        rows_on_day(items, n - 1, day)
    }
}

/// The rows of `items` that fall on the days 1 to `last` of a month, day
/// after day.
pub open spec fn rows_through_day(items: Seq<DayRow>, last: int) -> Seq<DayRow>
    decreases last,
{
    if last <= 0 {
        Seq::empty()
    } else {
        rows_through_day(items, last - 1) + rows_on_day(items, items.len() as int, last)
    }
}

/// Whether the rows stand in the order of the day of the month.
pub open spec fn in_day_order(rows: Seq<DayRow>) -> bool {
    forall|i: int, j: int|
        0 <= i < j < rows.len() ==> (#[trigger] row_day(rows[i]))->0 <= (#[trigger] row_day(
            rows[j],
        ))->0
}

/// Whether `row` is one of the first `n` of `items`.
pub open spec fn among(items: Seq<DayRow>, n: int, row: DayRow) -> bool {
    exists|j: int| 0 <= j < n && j < items.len() && #[trigger] items[j] == row
}

/// Whether every row falls on a day from 1 to 31.
pub open spec fn all_in_month(rows: Seq<DayRow>) -> bool {
    forall|i: int|
        0 <= i < rows.len() ==> 1 <= (#[trigger] row_day(rows[i]))->0 <= 31 && row_day(
            rows[i],
        ) is Some
}

/// Whether no two rows have the same date.
pub open spec fn distinct_dates(rows: Seq<DayRow>) -> bool {
    forall|i: int, j: int|
        0 <= i < j < rows.len() ==> #[trigger] rows[i].date != #[trigger] rows[j].date
}

/// The rows picked for one day are rows of `items` that fall on that day,
/// all of them, each once.
proof fn lemma_rows_on_day(items: Seq<DayRow>, n: int, day: int)
    requires
        0 <= n <= items.len(),
        distinct_dates(items),
    ensures
        forall|k: int|
            0 <= k < rows_on_day(items, n, day).len() ==> among(
                items,
                n,
                #[trigger] rows_on_day(items, n, day)[k],
            ) && row_day(rows_on_day(items, n, day)[k]) == Some(day),
        distinct_dates(rows_on_day(items, n, day)),
        forall|j: int|
            0 <= j < n && row_day(#[trigger] items[j]) == Some(day) ==> rows_on_day(
                items,
                n,
                day,
            ).contains(items[j]),
    decreases n,
{
    if n > 0 {
        lemma_rows_on_day(items, n - 1, day);
        let before = rows_on_day(items, n - 1, day);
        let now = rows_on_day(items, n, day);
        let last = items[n - 1];
        assert forall|k: int| 0 <= k < now.len() implies among(items, n, #[trigger] now[k])
            && row_day(now[k]) == Some(day) by {
            if k < before.len() {
                assert(among(items, n - 1, before[k]));
                let j = choose|j: int| 0 <= j < n - 1 && j < items.len() && items[j] == before[k];
                assert(items[j] == now[k]);
            } else {
                assert(items[n - 1] == now[k]);
            }
        }
        assert forall|a: int, b: int| 0 <= a < b < now.len() implies #[trigger] now[a].date
            != #[trigger] now[b].date by {
            if b >= before.len() {
                assert(among(items, n - 1, before[a]));
                let j = choose|j: int| 0 <= j < n - 1 && j < items.len() && items[j] == before[a];
                assert(items[j].date != items[n - 1].date);
            }
        }
        assert forall|j: int| 0 <= j < n && row_day(#[trigger] items[j]) == Some(day) implies now.contains(
            items[j],
        ) by {
            if j < n - 1 {
                assert(before.contains(items[j]));
                let k = choose|k: int| 0 <= k < before.len() && before[k] == items[j];
                assert(now[k] == items[j]);
            } else {
                assert(now[now.len() - 1] == items[j]);
            }
        }
    }
}

/// The rows picked for the days 1 to `last` are rows of `items` that fall on
/// those days, all of them, each once, in the order of the days.
proof fn lemma_rows_through_day(items: Seq<DayRow>, last: int)
    requires
        distinct_dates(items),
    ensures
        forall|k: int|
            0 <= k < rows_through_day(items, last).len() ==> among(
                items,
                items.len() as int,
                #[trigger] rows_through_day(items, last)[k],
            ) && row_day(rows_through_day(items, last)[k]) is Some && 1 <= row_day(
                rows_through_day(items, last)[k],
            )->0 <= last,
        distinct_dates(rows_through_day(items, last)),
        in_day_order(rows_through_day(items, last)),
        forall|j: int|
            0 <= j < items.len() && row_day(#[trigger] items[j]) is Some && 1 <= row_day(
                items[j],
            )->0 <= last ==> rows_through_day(items, last).contains(items[j]),
    decreases last,
{
    if last > 0 {
        lemma_rows_through_day(items, last - 1);
        lemma_rows_on_day(items, items.len() as int, last);
        let before = rows_through_day(items, last - 1);
        let today = rows_on_day(items, items.len() as int, last);
        let now = rows_through_day(items, last);
        assert(now == before + today);
        assert forall|k: int| 0 <= k < now.len() implies among(
            items,
            items.len() as int,
            #[trigger] now[k],
        ) && row_day(now[k]) is Some && 1 <= row_day(now[k])->0 <= last by {
            if k < before.len() {
                assert(now[k] == before[k]);
            } else {
                assert(now[k] == today[k - before.len()]);
            }
        }
        assert forall|a: int, b: int| 0 <= a < b < now.len() implies #[trigger] now[a].date
            != #[trigger] now[b].date by {
            if b < before.len() {
                assert(now[a] == before[a] && now[b] == before[b]);
            } else if a >= before.len() {
                assert(now[a] == today[a - before.len()] && now[b] == today[b - before.len()]);
            } else {
                assert(now[a] == before[a] && now[b] == today[b - before.len()]);
                assert(row_day(now[a])->0 <= last - 1);
                assert(row_day(now[b]) == Some(last));
            }
        }
        assert forall|a: int, b: int| 0 <= a < b < now.len() implies (#[trigger] row_day(
            now[a],
        ))->0 <= (#[trigger] row_day(now[b]))->0 by {
            if b < before.len() {
                assert(now[a] == before[a] && now[b] == before[b]);
            } else if a >= before.len() {
                assert(now[a] == today[a - before.len()] && now[b] == today[b - before.len()]);
            } else {
                assert(now[a] == before[a] && now[b] == today[b - before.len()]);
            }
        }
        assert forall|j: int|
            0 <= j < items.len() && row_day(#[trigger] items[j]) is Some && 1 <= row_day(
                items[j],
            )->0 <= last implies now.contains(items[j]) by {
            if row_day(items[j])->0 == last {
                assert(today.contains(items[j]));
                let k = choose|k: int| 0 <= k < today.len() && today[k] == items[j];
                assert(now[before.len() + k] == items[j]);
            } else {
                assert(before.contains(items[j]));
                let k = choose|k: int| 0 <= k < before.len() && before[k] == items[j];
                assert(now[k] == items[j]);
            }
        }
    }
}

/// Rows that list the totals still do when put into the order of the report,
/// and then stand in the order of the day of the month.
pub proof fn lemma_arranged_rows(items: Seq<DayRow>, totals: Map<int, nat>)
    requires
        lists(items, totals),
        all_in_month(items),
        totals.dom().finite(),
    ensures
        lists(rows_through_day(items, 31), totals),
        in_day_order(rows_through_day(items, 31)),
        all_in_month(rows_through_day(items, 31)),
{
    let rows = rows_through_day(items, 31);
    lemma_rows_through_day(items, 31);
    assert forall|i: int| 0 <= i < rows.len() implies totals.contains_key(
        #[trigger] rows[i].date as int,
    ) && totals[rows[i].date as int] == rows[i].minutes by {
        assert(among(items, items.len() as int, rows[i]));
        let j = choose|j: int| 0 <= j < items.len() && items[j] == rows[i];
        assert(totals.contains_key(items[j].date as int));
    }
    assert forall|date: int| #[trigger] totals.contains_key(date) implies has_row(rows, date) by {
        assert(has_row(items, date));
        let j = choose|j: int| 0 <= j < items.len() && items[j].date == date;
        assert(row_day(items[j]) is Some);
        assert(rows.contains(items[j]));
        let k = choose|k: int| 0 <= k < rows.len() && rows[k] == items[j];
        assert(rows[k].date == date);
    }
    let dates = Seq::new(rows.len(), |i: int| rows[i].date as int);
    assert(dates.no_duplicates());
    assert(dates.to_set() =~= totals.dom()) by {
        assert forall|date: int| totals.dom().contains(date) implies dates.to_set().contains(
            date,
        ) by {
            assert(has_row(rows, date));
            let k = choose|k: int| 0 <= k < rows.len() && rows[k].date == date;
            assert(dates[k] == date);
        }
        assert forall|date: int| dates.to_set().contains(date) implies totals.dom().contains(
            date,
        ) by {
            let k = choose|k: int| 0 <= k < dates.len() && dates[k] == date;
            assert(totals.contains_key(rows[k].date as int));
        }
    }
    dates.unique_seq_to_set();
}

/// Puts rows into the order of the report.  The calendar decides whether a
/// date has a day of the month; where it has none for some row, there is no
/// report.
pub fn arrange(items: &Vec<DayRow>) -> (r: Option<Vec<DayRow>>)
    ensures
        r is Some <==> all_dated(items@),
        r is Some ==> all_in_month(items@),
        r matches Some(rows) ==> rows@ == rows_through_day(items@, 31),
{
    let n: usize = items.len();
    let mut days: Vec<u32> = Vec::new();
    let mut i: usize = 0;
    while i < n
        invariant
            n == items@.len(),
            i <= n,
            days@.len() == i,
            forall|k: int|
                0 <= k < i ==> #[trigger] row_day(items@[k]) == Some(days@[k] as int) && 1
                    <= days@[k] <= 31,
        decreases n - i,
    {
        match day_of_month(items[i].date) {
            Some(day) => {
                days.push(day);
            },
            None => {
                assert(row_day(items@[i as int]) is None);
                return None;
            },
        }
        i = i + 1;
    }
    let mut out: Vec<DayRow> = Vec::new();
    let mut day: u32 = 1;
    while day <= 31
        invariant
            n == items@.len(),
            days@.len() == n,
            1 <= day <= 32,
            forall|k: int|
                0 <= k < n ==> #[trigger] row_day(items@[k]) == Some(days@[k] as int),
            out@ == rows_through_day(items@, day - 1),
        decreases 32 - day,
    {
        let mut k: usize = 0;
        while k < n
            invariant
                n == items@.len(),
                days@.len() == n,
                k <= n,
                1 <= day <= 31,
                forall|k: int|
                    0 <= k < n ==> #[trigger] row_day(items@[k]) == Some(days@[k] as int),
                out@ == rows_through_day(items@, day - 1) + rows_on_day(items@, k as int, day as int),
            decreases n - k,
        {
            if days[k] == day {
                out.push(items[k]);
            }
            assert(row_day(items@[k as int]) == Some(days@[k as int] as int));
            k = k + 1;
        }
        day = day + 1;
    }
    Some(out)
}

/// Minutes in an hour.
pub const HOUR: u128 = 60;

/// Minutes in a day.
pub const DAY: u128 = 1440;

/// Hours that each date with a row adds to the goal.
pub const GOAL_HOURS: u128 = 8;

/// The hour at which a clock stands `minutes` after midnight.
pub open spec fn clock_hours(minutes: nat) -> nat {
    (minutes / 60) % 24
}

/// The minute at which a clock stands `minutes` after midnight.
pub open spec fn clock_minutes(minutes: nat) -> nat {
    minutes % 60
}

/// The row of a date: its label, then the total as a clock shows it.
pub open spec fn day_line(label: Seq<char>, minutes: nat) -> Seq<char> {
    label + ": "@ + padded(clock_hours(minutes)) + "h"@ + padded(clock_minutes(minutes)) + "m"@
}

/// The sum row for a total that ends on the `day` of a month.
pub open spec fn sum_line(day: int, minutes: nat) -> Seq<char> {
    "sum:            "@ + padded((day - 1) as nat) + "d"@ + padded(clock_hours(minutes)) + "h"@
        + padded(clock_minutes(minutes)) + "m"@
}

/// The goal row for `dates` dates.
pub open spec fn goal_line(dates: nat) -> Seq<char> {
    "goal:           "@ + padded(dates * 8 / 24) + "d"@ + padded(dates * 8 % 24) + "h 0m"@
}

/// The day of the month on which the moment lies that comes `minutes` after
/// midnight of 1 January 1970; `None` where the calendar does not reach it.
pub open spec fn sum_day(minutes: nat) -> Option<int> {
    if EPOCH_DATE + minutes / 1440 <= i32::MAX {
        calendar_day(EPOCH_DATE + minutes / 1440)
    } else {
        None
    }
}

/// The rows of the dates, one line each; `None` where some date has no label.
pub open spec fn day_lines(rows: Seq<DayRow>) -> Option<Seq<Seq<char>>>
    decreases rows.len(),
{
    if rows.len() == 0 {
        Some(Seq::empty())
    } else {
        match (
            day_lines(rows.drop_last()),
            calendar_label(rows.last().date as int, LABEL_FORMAT@),
        ) {
            (Some(lines), Some(label)) => Some(
                lines.push(day_line(label, rows.last().minutes as nat)),
            ),
            _ => None,
        }
    }
}

/// The report of `rows` for a log with `dates` dates: the rows of the dates,
/// the sum and the goal.
pub open spec fn report_lines(rows: Seq<DayRow>, dates: nat) -> Option<Seq<Seq<char>>> {
    match (day_lines(rows), sum_day(minutes_sum(rows))) {
        (Some(lines), Some(day)) => Some(
            lines.push(sum_line(day, minutes_sum(rows))).push(goal_line(dates)),
        ),
        _ => None,
    }
}

/// Writes the row of a date whose label is `label`.
pub fn write_day_line(label: &str, minutes: u128) -> (r: String)
    ensures
        r@ == day_line(label@, minutes as nat),
{
    let mut out = String::new();
    out.append(label);
    out.append(": ");
    push_padded(&mut out, (minutes / HOUR) % 24);
    out.append("h");
    push_padded(&mut out, minutes % HOUR);
    out.append("m");
    assert(out@ =~= day_line(label@, minutes as nat));
    out
}

/// Writes the sum row for a total that ends on the `day` of a month.
pub fn write_sum_line(day: u32, minutes: u128) -> (r: String)
    requires
        1 <= day,
    ensures
        r@ == sum_line(day as int, minutes as nat),
{
    let mut out = String::new();
    out.append("sum:            ");
    push_padded(&mut out, (day - 1) as u128);
    out.append("d");
    push_padded(&mut out, (minutes / HOUR) % 24);
    out.append("h");
    push_padded(&mut out, minutes % HOUR);
    out.append("m");
    assert(out@ =~= sum_line(day as int, minutes as nat));
    out
}

/// Writes the goal row for `dates` dates.
pub fn write_goal_line(dates: usize) -> (r: String)
    ensures
        r@ == goal_line(dates as nat),
{
    let hours: u128 = dates as u128 * GOAL_HOURS;
    let mut out = String::new();
    out.append("goal:           ");
    push_padded(&mut out, hours / 24);
    out.append("d");
    push_padded(&mut out, hours % 24);
    out.append("h 0m");
    assert(out@ =~= goal_line(dates as nat));
    out
}

/// A sum grows with every row.
proof fn lemma_minutes_sum_grows(rows: Seq<DayRow>, n: int)
    requires
        0 <= n <= rows.len(),
    ensures
        minutes_sum(rows.take(n)) <= minutes_sum(rows),
    decreases rows.len() - n,
{
    if n < rows.len() {
        lemma_minutes_sum_grows(rows, n + 1);
        assert(rows.take(n + 1).drop_last() == rows.take(n));
    } else {
        assert(rows.take(n) == rows);
    }
}

/// Rows without a label for one of the first of them have none for all.
proof fn lemma_day_lines_need_labels(rows: Seq<DayRow>, n: int)
    requires
        0 <= n <= rows.len(),
        day_lines(rows.take(n)) is None,
    ensures
        day_lines(rows) is None,
    decreases rows.len() - n,
{
    if n < rows.len() {
        assert(rows.take(n + 1).drop_last() == rows.take(n));
        lemma_day_lines_need_labels(rows, n + 1);
    } else {
        assert(rows.take(n) == rows);
    }
}

/// Adds up the minutes of the rows; `None` where the sum is too large for
/// the machine.
pub fn total_minutes(rows: &Vec<DayRow>) -> (r: Option<u128>)
    ensures
        match r {
            Some(total) => total == minutes_sum(rows@),
            None => minutes_sum(rows@) > u128::MAX,
        },
{
    let n: usize = rows.len();
    let mut total: u128 = 0;
    let mut i: usize = 0;
    while i < n
        invariant
            n == rows@.len(),
            i <= n,
            total == minutes_sum(rows@.take(i as int)),
        decreases n - i,
    {
        proof {
            assert(rows@.take(i + 1).drop_last() == rows@.take(i as int));
            lemma_minutes_sum_grows(rows@, i + 1);
        }
        match total.checked_add(rows[i].minutes) {
            Some(more) => {
                total = more;
            },
            None => {
                return None;
            },
        }
        i = i + 1;
    }
    assert(rows@.take(n as int) == rows@);
    Some(total)
}

/// Whether the calendar reaches the moment that comes `minutes` after
/// midnight of 1 January 1970.
pub open spec fn sum_on_calendar(minutes: nat) -> bool {
    EPOCH_DATE + minutes / 1440 <= CALENDAR_END
}

/// Writes the report of `rows` for a log with `dates` dates.  There is a
/// report where the calendar knows the date of every row and reaches the end
/// of the sum; beyond that the calendar decides.
pub fn render(rows: &Vec<DayRow>, dates: usize) -> (r: Option<Vec<String>>)
    ensures
        match report_lines(rows@, dates as nat) {
            Some(lines) => r matches Some(out) && texts(out@) == lines,
            None => r is None,
        },
        all_dated(rows@) && sum_on_calendar(minutes_sum(rows@)) ==> r is Some,
{
    let n: usize = rows.len();
    let mut out: Vec<String> = Vec::new();
    let mut i: usize = 0;
    assert(rows@.take(0) == Seq::<DayRow>::empty());
    while i < n
        invariant
            n == rows@.len(),
            i <= n,
            day_lines(rows@.take(i as int)) == Some(texts(out@)),
        decreases n - i,
    {
        let ghost before = texts(out@);
        proof {
            assert(rows@.take(i + 1).drop_last() == rows@.take(i as int));
        }
        match date_label(rows[i].date, LABEL_FORMAT) {
            Some(label) => {
                out.push(write_day_line(label.as_str(), rows[i].minutes));
                assert(texts(out@) == before.push(day_line(label@, rows@[i as int].minutes as nat)));
            },
            None => {
                proof {
                    lemma_day_lines_need_labels(rows@, i + 1);
                    assert(row_day(rows@[i as int]) is None);
                }
                return None;
            },
        }
        i = i + 1;
    }
    assert(rows@.take(n as int) == rows@);
    let total: u128 = match total_minutes(rows) {
        Some(total) => total,
        None => {
            return None;
        },
    };
    let days: u128 = total / DAY;
    if days > (i32::MAX - EPOCH_DATE) as u128 {
        return None;
    }
    let end: i32 = EPOCH_DATE + days as i32;
    let day: u32 = match day_of_month(end) {
        Some(day) => day,
        None => {
            return None;
        },
    };
    let ghost rows_text = texts(out@);
    out.push(write_sum_line(day, total));
    out.push(write_goal_line(dates));
    assert(texts(out@) == rows_text.push(sum_line(day as int, total as nat)).push(
        goal_line(dates as nat),
    ));
    Some(out)
}

/// Whether `rows` can head the report of `totals`: they list the totals in
/// the order of the day of the month.
pub open spec fn report_rows(rows: Seq<DayRow>, totals: Map<int, nat>) -> bool {
    lists(rows, totals) && all_in_month(rows) && in_day_order(rows)
}

/// Whether the calendar knows every date of `totals`.
pub open spec fn all_dates_known(totals: Map<int, nat>) -> bool {
    forall|date: int| #[trigger] totals.contains_key(date) ==> calendar_day(date) is Some
}

/// The rows of the report of `totals`.  Dates that fall on the same day of
/// the month come in no particular order.
pub fn day_rows(totals: &DayTotals) -> (r: Option<Vec<DayRow>>)
    ensures
        r is Some <==> all_dates_known(totals@),
        r matches Some(rows) ==> report_rows(rows@, totals@),
{
    let items = totals.rows();
    proof {
        if all_dates_known(totals@) {
            assert forall|i: int| 0 <= i < items@.len() implies #[trigger] row_day(
                items@[i],
            ) is Some by {
                assert(totals@.contains_key(items@[i].date as int));
            }
        }
        if all_dated(items@) {
            assert forall|date: int| #[trigger] totals@.contains_key(date) implies calendar_day(
                date,
            ) is Some by {
                assert(has_row(items@, date));
                let i = choose|i: int| 0 <= i < items@.len() && items@[i].date == date;
                assert(row_day(items@[i]) is Some);
            }
        }
    }
    match arrange(&items) {
        Some(rows) => {
            proof {
                lemma_arranged_rows(items@, totals@);
            }
            Some(rows)
        },
        None => None,
    }
}

/// Whether `lines` are the report of `totals`, or there is none where `lines`
/// is `None`: the report of some rows that can head it.
pub open spec fn reports(totals: Map<int, nat>, lines: Option<Seq<Seq<char>>>) -> bool {
    exists|rows: Seq<DayRow>| #[trigger]
        report_rows(rows, totals) && report_lines(rows, totals.dom().len()) == lines
}

/// The report of `totals`, line by line.  Where the calendar knows every
/// date, the lines are those of some rows that can head the report.  There
/// is a report where the calendar knows every date and reaches the end of
/// the sum; beyond that the calendar decides.
pub fn report(totals: &DayTotals) -> (r: Option<Vec<String>>)
    ensures
        !all_dates_known(totals@) ==> r is None,
        all_dates_known(totals@) ==> reports(
            totals@,
            match r {
                Some(out) => Some(texts(out@)),
                None => None,
            },
        ),
        totals.wf() && all_dates_known(totals@) && sum_on_calendar(totals.sum()) ==> r is Some,
{
    let dates: usize = totals.len();
    match day_rows(totals) {
        Some(rows) => {
            proof {
                if totals.wf() {
                    totals.lemma_rows_add_up(rows@);
                }
                assert forall|i: int| 0 <= i < rows@.len() implies #[trigger] row_day(
                    rows@[i],
                ) is Some by {}
            }
            let r = render(&rows, dates);
            assert(report_rows(rows@, totals@));
            assert(report_lines(rows@, totals@.dom().len()) == match r {
                Some(out) => Some(texts(out@)),
                None => None::<Seq<Seq<char>>>,
            });
            r
        },
        None => None,
    }
}

} // verus!
