//! Statistics of habits over a window of dates: eligible periods,
//! successes and streaks.

use crate::date::{
    date_day, day_text, fmt_day, invalid_text, is_date, parse_day, range_order_text,
    week_start_day, weekday_from_days,
};
use crate::error::CliError;
use crate::habits::ByName;
use crate::model::{views_of, Db, DbView, Habit, HabitView, Period};
use crate::sorting::{sort_vec, stable_sort};
use crate::tally::{habit_outcomes, outcomes, tally, tally_of};
use vstd::prelude::*;

verus! {

/// The first and the last date of what is looked at.
#[derive(Debug)]
pub struct Window {
    pub from: String,
    pub to: String,
}

/// The successes among the eligible periods. The rate is their quotient,
/// undefined where nothing is eligible.
#[derive(Clone, Copy, Debug, PartialEq, Eq, Structural)]
pub struct SuccessRate {
    pub successes: u32,
    pub eligible: u32,
}

/// The statistics of one habit over a window.
#[derive(Debug)]
pub struct StatsRow {
    pub habit_id: String,
    pub name: String,
    pub period: Period,
    pub target: u32,
    pub window: Window,
    pub current_streak: u32,
    pub longest_streak: u32,
    pub success_rate: SuccessRate,
}

pub struct StatsRowView {
    pub habit_id: Seq<char>,
    pub name: Seq<char>,
    pub period: Period,
    pub target: u32,
    pub from: Seq<char>,
    pub to: Seq<char>,
    pub current_streak: u32,
    pub longest_streak: u32,
    pub success_rate: SuccessRate,
}

impl View for StatsRow {
    type V = StatsRowView;

    open spec fn view(&self) -> StatsRowView {
        StatsRowView {
            habit_id: self.habit_id@,
            name: self.name@,
            period: self.period,
            target: self.target,
            from: self.window.from@,
            to: self.window.to@,
            current_streak: self.current_streak,
            longest_streak: self.longest_streak,
            success_rate: self.success_rate,
        }
    }
}

/// The row of a habit over the dates `from` to `to`.
pub open spec fn stats_row(db: DbView, h: HabitView, from: Seq<char>, to: Seq<char>) -> StatsRowView {
    let t = tally_of(outcomes(db, h, date_day(from), date_day(to)));
    StatsRowView {
        habit_id: h.id,
        name: h.name,
        period: h.target.period,
        target: h.target.quantity,
        from,
        to,
        current_streak: t.current_streak,
        longest_streak: t.longest_streak,
        success_rate: SuccessRate { successes: t.successes, eligible: t.eligible },
    }
}

/// The rows of the habits over the dates `from` to `to`, in listing order.
pub open spec fn stats_rows(db: DbView, hs: Seq<HabitView>, from: Seq<char>, to: Seq<char>) -> Seq<
    StatsRowView,
> {
    stable_sort::<Habit, ByName>(hs).map_values(|h: HabitView| stats_row(db, h, from, to))
}

/// The first fault of a window, as its error message, or `None`.
pub open spec fn window_fault(from: Seq<char>, to: Seq<char>) -> Option<Seq<char>> {
    if !is_date(from) {
        Some(invalid_text("from"@, from))
    } else if !is_date(to) {
        Some(invalid_text("to"@, to))
    } else if date_day(from) > date_day(to) {
        Some(range_order_text())
    } else {
        None
    }
}

/// Copies the habits of a slice.
pub fn clone_habits(habits: &[Habit]) -> (out: Vec<Habit>)
    ensures
        views_of(out@) == views_of(habits@),
{
    let mut out: Vec<Habit> = Vec::new();
    let mut i: usize = 0;
    while i < habits.len()
        invariant
            i <= habits@.len(),
            out@.len() == i,
            forall|k: int| 0 <= k < i ==> (#[trigger] out@[k])@ == habits@[k]@,
        decreases habits@.len() - i,
    {
        out.push(habits[i].clone());
        i += 1;
    }
    assert(views_of(out@) =~= views_of(habits@));
    out
}

/// Reads the window `from..=to` as day numbers.
pub fn parse_window(from: &str, to: &str) -> (r: Result<(i64, i64), CliError>)
    ensures
        r is Ok <==> window_fault(from@, to@) is None,
        r is Ok ==> {
            &&& r->Ok_0.0 == date_day(from@)
            &&& r->Ok_0.1 == date_day(to@)
            &&& crate::date::FIRST_TEXT_DAY <= r->Ok_0.0 <= r->Ok_0.1 <= crate::date::LAST_TEXT_DAY
        },
        r is Err ==> r->Err_0.is_usage(window_fault(from@, to@)->0),
{
    let first = match parse_day(from, "from") {
        Ok(n) => n,
        Err(e) => {
            return Err(e);
        },
    };
    let last = match parse_day(to, "to") {
        Ok(n) => n,
        Err(e) => {
            return Err(e);
        },
    };
    if first > last {
        return Err(CliError::usage("Invalid range: from > to"));
    }
    Ok((first, last))
}

/// The statistics of the habits over the dates `from` to `to`, both
/// included.
pub fn build_stats(db: &Db, habits: &[Habit], from: &str, to: &str) -> (r: Result<
    Vec<StatsRow>,
    CliError,
>)
    ensures
        r is Ok <==> window_fault(from@, to@) is None,
        r is Ok ==> views_of(r->Ok_0@) == stats_rows(db@, views_of(habits@), from@, to@),
        r is Err ==> r->Err_0.is_usage(window_fault(from@, to@)->0),
{
    let (first, last) = match parse_window(from, to) {
        Ok(w) => w,
        Err(e) => {
            return Err(e);
        },
    };
    let sorted = sort_vec::<Habit, ByName>(clone_habits(habits));
    let ghost hs = views_of(sorted@);
    let mut rows: Vec<StatsRow> = Vec::new();
    let mut i: usize = 0;
    while i < sorted.len()
        invariant
            i <= sorted@.len(),
            hs == views_of(sorted@),
            first == date_day(from@),
            last == date_day(to@),
            crate::date::FIRST_TEXT_DAY <= first <= last <= crate::date::LAST_TEXT_DAY,
            rows@.len() == i,
            forall|k: int| 0 <= k < i ==> (#[trigger] rows@[k])@ == stats_row(db@, hs[k], from@, to@),
        decreases sorted@.len() - i,
    {
        let h = &sorted[i];
        let results = habit_outcomes(db, h, first, last);
        let t = tally(&results);
        rows.push(
            StatsRow {
                habit_id: h.id.clone(),
                name: h.name.clone(),
                period: h.target.period,
                target: h.target.quantity,
                window: Window { from: from.to_owned(), to: to.to_owned() },
                current_streak: t.current_streak,
                longest_streak: t.longest_streak,
                success_rate: SuccessRate { successes: t.successes, eligible: t.eligible },
            },
        );
        i += 1;
    }
    assert(views_of(rows@) =~= hs.map_values(|h: HabitView| stats_row(db@, h, from@, to@)));
    Ok(rows)
}

/// The first day of the window that is looked at where only its end is
/// given: the 30 days up to the end for a habit counted by the day, the 12
/// ISO weeks up to the week of the end for one counted by the week.
pub open spec fn recent_from(period: Period, to: int) -> int {
    match period {
        Period::Day => to - 29,
        Period::Week => week_start_day(to) - 77,
    }
}

/// The last day of the window that is looked at where only its end is
/// given: the end itself, or the Sunday of its week for a habit counted by
/// the week.
pub open spec fn recent_to(period: Period, to: int) -> int {
    match period {
        Period::Day => to,
        Period::Week => week_start_day(to) + 6,
    }
}

/// The row of a habit over its recent window up to day `to`.
pub open spec fn recent_row(db: DbView, h: HabitView, to: int) -> StatsRowView {
    let first = recent_from(h.target.period, to);
    let last = recent_to(h.target.period, to);
    let t = tally_of(outcomes(db, h, first, last));
    StatsRowView {
        habit_id: h.id,
        name: h.name,
        period: h.target.period,
        target: h.target.quantity,
        from: day_text(first),
        to: day_text(last),
        current_streak: t.current_streak,
        longest_streak: t.longest_streak,
        success_rate: SuccessRate { successes: t.successes, eligible: t.eligible },
    }
}

/// The statistics of the habits, each over its recent window up to the
/// date `to`, in listing order.
pub fn build_recent_stats(db: &Db, habits: &[Habit], to: &str) -> (r: Result<
    Vec<StatsRow>,
    CliError,
>)
    ensures
        r is Ok <==> is_date(to@),
        r is Ok ==> views_of(r->Ok_0@) == stable_sort::<Habit, ByName>(
            views_of(habits@),
        ).map_values(|h: HabitView| recent_row(db@, h, date_day(to@))),
        r is Err ==> r->Err_0.is_usage(invalid_text("to"@, to@)),
{
    let end = match parse_day(to, "to") {
        Ok(n) => n,
        Err(e) => {
            return Err(e);
        },
    };
    let week_start: i64 = end - (weekday_from_days(end) as i64 - 1);
    let sorted = sort_vec::<Habit, ByName>(clone_habits(habits));
    let ghost hs = views_of(sorted@);
    let mut rows: Vec<StatsRow> = Vec::new();
    let mut i: usize = 0;
    while i < sorted.len()
        invariant
            i <= sorted@.len(),
            hs == views_of(sorted@),
            end == date_day(to@),
            week_start == week_start_day(end as int),
            end - 6 <= week_start <= end,
            crate::date::FIRST_TEXT_DAY <= end <= crate::date::LAST_TEXT_DAY,
            rows@.len() == i,
            forall|k: int| 0 <= k < i ==> (#[trigger] rows@[k])@ == recent_row(db@, hs[k], end as int),
        decreases sorted@.len() - i,
    {
        let h = &sorted[i];
        let (first, last): (i64, i64) = match h.target.period {
            Period::Day => (end - 29, end),
            Period::Week => (week_start - 77, week_start + 6),
        };
        let results = habit_outcomes(db, h, first, last);
        let t = tally(&results);
        rows.push(
            StatsRow {
                habit_id: h.id.clone(),
                name: h.name.clone(),
                period: h.target.period,
                target: h.target.quantity,
                window: Window { from: fmt_day(first), to: fmt_day(last) },
                current_streak: t.current_streak,
                longest_streak: t.longest_streak,
                success_rate: SuccessRate { successes: t.successes, eligible: t.eligible },
            },
        );
        i += 1;
    }
    assert(views_of(rows@) =~= hs.map_values(|h: HabitView| recent_row(db@, h, end as int)));
    Ok(rows)
}

} // verus!
