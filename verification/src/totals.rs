//! Minutes worked per calendar date.
//!
//! The totals are a map from a date's day number to the minutes recorded for
//! it.  Recording an entry adds its minutes to the total of its date, which
//! starts at zero; nothing else ever changes a total.

use crate::entry::Entry;
use std::collections::HashMap;
use vstd::prelude::*;

verus! {

broadcast use vstd::std_specs::hash::group_hash_axioms;

/// The minutes that `totals` holds for `date`: none where it has no total.
pub open spec fn minutes_on(totals: Map<int, nat>, date: int) -> nat {
    if totals.contains_key(date) {
        totals[date]
    } else {
        0
    }
}

/// The totals after `minutes` are added to the total of `date`.
pub open spec fn recorded(totals: Map<int, nat>, date: int, minutes: nat) -> Map<int, nat> {
    totals.insert(date, minutes_on(totals, date) + minutes)
}

/// Recording adds exactly the minutes recorded, to the date they are recorded
/// for, and leaves every other date as it was.
pub proof fn lemma_recording_adds(totals: Map<int, nat>, date: int, minutes: nat)
    ensures
        recorded(totals, date, minutes).contains_key(date),
        minutes_on(recorded(totals, date, minutes), date) == minutes_on(totals, date) + minutes,
        forall|other: int|
            other != date ==> recorded(totals, date, minutes).contains_key(other)
                == totals.contains_key(other) && #[trigger] minutes_on(
                recorded(totals, date, minutes),
                other,
            ) == minutes_on(totals, other),
{
}

/// The order in which two entries are recorded does not matter, on one date
/// or on two.
pub proof fn lemma_recording_commutes(
    totals: Map<int, nat>,
    first_date: int,
    first: nat,
    second_date: int,
    second: nat,
)
    ensures
        recorded(recorded(totals, first_date, first), second_date, second) == recorded(
            recorded(totals, second_date, second),
            first_date,
            first,
        ),
{
    assert(recorded(recorded(totals, first_date, first), second_date, second) =~= recorded(
        recorded(totals, second_date, second),
        first_date,
        first,
    ));
}

/// Two entries recorded on one date count as one entry of both their minutes.
pub proof fn lemma_recording_joins(totals: Map<int, nat>, date: int, first: nat, second: nat)
    ensures
        recorded(recorded(totals, date, first), date, second) == recorded(
            totals,
            date,
            first + second,
        ),
        minutes_on(recorded(recorded(totals, date, first), date, second), date) == minutes_on(
            totals,
            date,
        ) + first + second,
{
    assert(recorded(recorded(totals, date, first), date, second) =~= recorded(
        totals,
        date,
        first + second,
    ));
}

/// One date with its total.
#[derive(Clone, Copy, Debug, PartialEq, Eq, Structural)]
pub struct DayRow {
    /// Day number of the date.
    pub date: i32,
    /// Minutes recorded for the date.
    pub minutes: u128,
}

/// Whether `rows` holds the row of `date`.
pub open spec fn has_row(rows: Seq<DayRow>, date: int) -> bool {
    exists|i: int| 0 <= i < rows.len() && #[trigger] rows[i].date == date
}

/// Whether `rows` lists `totals`: every date of the totals in one row with
/// its minutes, and no other row.
pub open spec fn lists(rows: Seq<DayRow>, totals: Map<int, nat>) -> bool {
    &&& rows.len() == totals.dom().len()
    &&& forall|i: int|
        0 <= i < rows.len() ==> totals.contains_key(#[trigger] rows[i].date as int)
            && totals[rows[i].date as int] == rows[i].minutes
    &&& forall|i: int, j: int|
        0 <= i < j < rows.len() ==> #[trigger] rows[i].date != #[trigger] rows[j].date
    &&& forall|date: int| #[trigger] totals.contains_key(date) ==> has_row(rows, date)
}

/// The minutes of all rows together.
pub open spec fn minutes_sum(rows: Seq<DayRow>) -> nat
    decreases rows.len(),
{
    if rows.len() == 0 {
        0
    } else {
        minutes_sum(rows.drop_last()) + rows.last().minutes as nat
    }
}

/// Whether the minutes of `totals` add up to `sum`, however they are listed.
pub open spec fn sums_to(totals: Map<int, nat>, sum: nat) -> bool {
    forall|rows: Seq<DayRow>| #[trigger] lists(rows, totals) ==> minutes_sum(rows) == sum
}

/// A row put in the place of another changes the sum by their difference.
proof fn lemma_sum_update(rows: Seq<DayRow>, at: int, row: DayRow)
    requires
        0 <= at < rows.len(),
    ensures
        minutes_sum(rows.update(at, row)) == minutes_sum(rows) - rows[at].minutes + row.minutes,
    decreases rows.len(),
{
    let changed = rows.update(at, row);
    if at == rows.len() - 1 {
        assert(changed.drop_last() =~= rows.drop_last());
    } else {
        assert(changed.drop_last() =~= rows.drop_last().update(at, row));
        lemma_sum_update(rows.drop_last(), at, row);
    }
}

/// A row taken out lowers the sum by its minutes.
proof fn lemma_sum_remove(rows: Seq<DayRow>, at: int)
    requires
        0 <= at < rows.len(),
    ensures
        minutes_sum(rows.remove(at)) == minutes_sum(rows) - rows[at].minutes,
    decreases rows.len(),
{
    let rest = rows.remove(at);
    if at == rows.len() - 1 {
        assert(rest =~= rows.drop_last());
    } else {
        assert(rest.drop_last() =~= rows.drop_last().remove(at));
        assert(rest.last() == rows.last());
        lemma_sum_remove(rows.drop_last(), at);
    }
}

/// Recording raises the sum of all totals by exactly the minutes recorded.
pub proof fn lemma_recording_raises_sum(totals: Map<int, nat>, sum: nat, date: int, minutes: nat)
    requires
        totals.dom().finite(),
        sums_to(totals, sum),
    ensures
        sums_to(recorded(totals, date, minutes), sum + minutes),
{
    let after = recorded(totals, date, minutes);
    assert forall|rows: Seq<DayRow>| #[trigger] lists(rows, after) implies minutes_sum(rows) == sum
        + minutes by {
        assert(after.contains_key(date));
        assert(has_row(rows, date));
        let at = choose|i: int| 0 <= i < rows.len() && rows[i].date == date;
        assert(rows[at].minutes == minutes_on(totals, date) + minutes);
        if totals.contains_key(date) {
            let row = DayRow { date: rows[at].date, minutes: totals[date] as u128 };
            let before = rows.update(at, row);
            assert(after.dom() =~= totals.dom());
            assert forall|i: int| 0 <= i < before.len() implies totals.contains_key(
                #[trigger] before[i].date as int,
            ) && totals[before[i].date as int] == before[i].minutes by {
                if i != at {
                    assert(before[i] == rows[i]);
                    assert(after.contains_key(rows[i].date as int));
                    assert(rows[i].date != rows[at].date);
                }
            }
            assert forall|i: int, j: int| 0 <= i < j < before.len() implies #[trigger] before[i].date
                != #[trigger] before[j].date by {
                assert(before[i].date == rows[i].date && before[j].date == rows[j].date);
            }
            assert forall|other: int| #[trigger] totals.contains_key(other) implies has_row(
                before,
                other,
            ) by {
                assert(after.contains_key(other));
                assert(has_row(rows, other));
                let k = choose|k: int| 0 <= k < rows.len() && rows[k].date == other;
                assert(before[k].date == other);
            }
            assert(lists(before, totals));
            lemma_sum_update(rows, at, row);
        } else {
            let before = rows.remove(at);
            assert(after.dom() =~= totals.dom().insert(date));
            assert forall|i: int| 0 <= i < before.len() implies totals.contains_key(
                #[trigger] before[i].date as int,
            ) && totals[before[i].date as int] == before[i].minutes by {
                let from = if i < at { i } else { i + 1 };
                assert(before[i] == rows[from]);
                assert(after.contains_key(rows[from].date as int));
                assert(rows[from].date != rows[at].date);
            }
            assert forall|i: int, j: int| 0 <= i < j < before.len() implies #[trigger] before[i].date
                != #[trigger] before[j].date by {
                let from_i = if i < at { i } else { i + 1 };
                let from_j = if j < at { j } else { j + 1 };
                assert(before[i] == rows[from_i] && before[j] == rows[from_j]);
            }
            assert forall|other: int| #[trigger] totals.contains_key(other) implies has_row(
                before,
                other,
            ) by {
                assert(after.contains_key(other));
                assert(has_row(rows, other));
                let k = choose|k: int| 0 <= k < rows.len() && rows[k].date == other;
                let to = if k < at { k } else { k - 1 };
                assert(before[to] == rows[k]);
                assert(before[to].date == other);
            }
            assert(lists(before, totals));
            lemma_sum_remove(rows, at);
        }
    }
}

/// Minutes worked on each date, their sum, and the number of entries they
/// came from.
pub struct DayTotals {
    days: HashMap<i32, u128>,
    sum: u128,
    entries: u64,
}

impl View for DayTotals {
    type V = Map<int, nat>;

    /// The totals as a map from day number to minutes.
    closed spec fn view(&self) -> Map<int, nat> {
        Map::new(
            |date: int| i32::MIN <= date <= i32::MAX && self.days@.contains_key(date as i32),
            |date: int| self.days@[date as i32] as nat,
        )
    }
}

impl DayTotals {
    /// No total, nor their sum, is larger than the entries can have made it,
    /// and the sum is that of the totals.
    pub closed spec fn wf(&self) -> bool {
        &&& forall|date: i32| #[trigger]
            self.days@.contains_key(date) ==> self.days@[date] <= self.entries * u64::MAX
        &&& self.sum <= self.entries * u64::MAX
        &&& sums_to(self@, self.sum as nat)
    }

    /// The minutes of all dates together.
    pub closed spec fn sum(&self) -> nat {
        self.sum as nat
    }

    /// However the totals are listed, the minutes add up to their sum.
    pub proof fn lemma_rows_add_up(&self, rows: Seq<DayRow>)
        requires
            self.wf(),
            lists(rows, self@),
        ensures
            minutes_sum(rows) == self.sum(),
    {
    }

    /// Number of entries recorded so far.
    pub closed spec fn entries(&self) -> nat {
        self.entries as nat
    }

    /// Totals with nothing recorded.
    pub fn new() -> (r: DayTotals)
        ensures
            r.wf(),
            r@ == Map::<int, nat>::empty(),
            r.sum() == 0,
            r.entries() == 0,
    {
        let r = DayTotals { days: HashMap::new(), sum: 0, entries: 0 };
        assert(r@ =~= Map::<int, nat>::empty());
        assert forall|rows: Seq<DayRow>| #[trigger] lists(rows, r@) implies minutes_sum(rows)
            == 0 by {
            assert(rows.len() == 0);
        }
        r
    }

    /// Adds the minutes of `entry` to the total of its date.  The count of
    /// entries must still fit the machine after it.
    pub fn record(&mut self, entry: Entry)
        requires
            old(self).wf(),
            old(self).entries() < u64::MAX,
        ensures
            final(self).wf(),
            final(self)@ == recorded(old(self)@, entry.date as int, entry.minutes as nat),
            final(self).sum() == old(self).sum() + entry.minutes,
            final(self).entries() == old(self).entries() + 1,
    {
        proof {
            self.lemma_same_dates();
            lemma_recording_raises_sum(
                self@,
                self.sum as nat,
                entry.date as int,
                entry.minutes as nat,
            );
        }
        let ghost before = self.days@;
        let ghost count = self.entries as int;
        let added: u128 = entry.minutes as u128;
        let total: u128 = match self.days.get(&entry.date) {
            Some(so_far) => {
                assert(*so_far <= count * u64::MAX);
                assert(count * u64::MAX + u64::MAX <= u64::MAX * u64::MAX) by (nonlinear_arith)
                    requires
                        0 <= count < u64::MAX,
                ;
                *so_far + added
            },
            None => added,
        };
        assert(count * u64::MAX + u64::MAX <= u64::MAX * u64::MAX) by (nonlinear_arith)
            requires
                0 <= count < u64::MAX,
        ;
        self.days.insert(entry.date, total);
        self.sum = self.sum + added;
        self.entries = self.entries + 1;
        proof {
            assert(total <= (count + 1) * u64::MAX) by (nonlinear_arith)
                requires
                    total <= count * u64::MAX + u64::MAX,
            ;
            assert(self.sum <= (count + 1) * u64::MAX) by (nonlinear_arith)
                requires
                    self.sum <= count * u64::MAX + u64::MAX,
            ;
            assert forall|date: i32| #[trigger] self.days@.contains_key(date) implies self.days@[date]
                <= self.entries * u64::MAX by {
                if date != entry.date {
                    assert(before.contains_key(date));
                    assert(before[date] <= count * u64::MAX);
                    assert(count * u64::MAX <= (count + 1) * u64::MAX) by (nonlinear_arith)
                        requires
                            count >= 0,
                    ;
                }
            }
            assert(self@ =~= recorded(old(self)@, entry.date as int, entry.minutes as nat));
        }
    }

    /// Number of entries recorded so far.
    pub fn entry_count(&self) -> (r: u64)
        ensures
            r == self.entries(),
    {
        self.entries
    }

    /// The minutes recorded for `date`, if any entry fell on it.
    pub fn total(&self, date: i32) -> (r: Option<u128>)
        ensures
            r is Some <==> self@.contains_key(date as int),
            r matches Some(minutes) ==> self@[date as int] == minutes,
    {
        match self.days.get(&date) {
            Some(minutes) => Some(*minutes),
            None => None,
        }
    }

    /// Number of dates that have a total.
    pub fn len(&self) -> (r: usize)
        ensures
            r == self@.dom().len(),
            self@.dom().finite(),
    {
        proof {
            self.lemma_same_dates();
        }
        self.days.len()
    }

    /// The totals as rows, one for each date, in no particular order.
    pub fn rows(&self) -> (r: Vec<DayRow>)
        ensures
            lists(r@, self@),
            self@.dom().finite(),
    {
        let mut out: Vec<DayRow> = Vec::new();
        proof {
            self.lemma_same_dates();
        }
        for pair in it: self.days.iter()
            invariant
                out@.len() == it.index(),
                it.seq().len() == self@.dom().len(),
                it.seq().no_duplicates(),
                forall|i: int|
                    0 <= i < it.seq().len() ==> self.days@.contains_key(*(#[trigger] it.seq()[i]).0)
                        && self.days@[*it.seq()[i].0] == *it.seq()[i].1,
                forall|date: int| #[trigger]
                    self@.contains_key(date) ==> exists|i: int|
                        0 <= i < it.seq().len() && *(#[trigger] it.seq()[i]).0 == date,
                forall|i: int|
                    #![trigger out@[i]]
                    #![trigger it.seq()[i]]
                    0 <= i < out@.len() ==> out@[i].date == *it.seq()[i].0 && out@[i].minutes
                        == *it.seq()[i].1,
        {
            let (date, minutes) = pair;
            out.push(DayRow { date: *date, minutes: *minutes });
        }
        out
    }

    /// The view has as many dates as the table has keys.
    proof fn lemma_same_dates(&self)
        ensures
            self@.dom().finite(),
            self@.dom().len() == self.days@.dom().len(),
    {
        let widen = |date: i32| date as int;
        assert(self.days@.dom().map(widen) =~= self@.dom()) by {
            assert forall|date: int| self@.dom().contains(date) implies self.days@.dom().map(
                widen,
            ).contains(date) by {
                assert(self.days@.dom().contains(date as i32));
                assert(widen(date as i32) == date);
            }
        }
        vstd::set_lib::lemma_map_size(self.days@.dom(), self@.dom(), widen);
    }
}

} // verus!
