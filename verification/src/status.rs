//! The status of a date: how far each scheduled habit has come on it, and
//! how each habit stands in an ISO week.

use crate::completion::{
    counted_total, done_on, declaration_met, habit_progress, is_declared, is_done_for_date,
    progress_of, raw_total, totals_between,
};
use crate::date::{
    date_day, day_text, fmt_day, invalid_text, is_date, parse_day, week_label, week_label_of_day,
    week_start_day, weekday_from_days, FIRST_TEXT_DAY, LAST_TEXT_DAY, MAX_DAY, MIN_DAY,
};
use crate::error::CliError;
use crate::habits::{is_scheduled_on_day, list_habits, listed_habits, scheduled_on_day};
use crate::model::{views_of, Db, DbView, Habit, HabitView, Period};
use crate::text::{capped, opt_text};
use vstd::prelude::*;

verus! {

/// How far a scheduled habit has come on a date.
#[derive(Debug)]
pub struct TodayHabitRow {
    pub id: String,
    pub name: String,
    pub period: Period,
    pub target: u32,
    /// Quantity that counts toward completion semantics.
    pub quantity: u32,
    /// Raw recorded quantity (may differ where a declaration is owed).
    pub raw_quantity: u32,
    pub done: bool,
    /// Whether this habit requires a declaration for completion.
    pub needs_declaration: bool,
    /// Whether a declaration exists for this date (if required).
    pub declared: bool,
}

pub struct TodayHabitRowView {
    pub id: Seq<char>,
    pub name: Seq<char>,
    pub period: Period,
    pub target: u32,
    pub quantity: u32,
    pub raw_quantity: u32,
    pub done: bool,
    pub needs_declaration: bool,
    pub declared: bool,
}

impl View for TodayHabitRow {
    type V = TodayHabitRowView;

    open spec fn view(&self) -> TodayHabitRowView {
        TodayHabitRowView {
            id: self.id@,
            name: self.name@,
            period: self.period,
            target: self.target,
            quantity: self.quantity,
            raw_quantity: self.raw_quantity,
            done: self.done,
            needs_declaration: self.needs_declaration,
            declared: self.declared,
        }
    }
}

/// The scheduled habits of a date.
#[derive(Debug)]
pub struct TodaySection {
    pub date: String,
    pub habits: Vec<TodayHabitRow>,
}

pub struct TodaySectionView {
    pub date: Seq<char>,
    pub habits: Seq<TodayHabitRowView>,
}

impl View for TodaySection {
    type V = TodaySectionView;

    open spec fn view(&self) -> TodaySectionView {
        TodaySectionView { date: self.date@, habits: views_of(self.habits@) }
    }
}

/// A habit counted by the day within a week: on how many of its scheduled
/// days it is done.
#[derive(Debug)]
pub struct WeekHabitDayRow {
    pub id: String,
    pub name: String,
    pub period: Period,
    pub scheduled_days: u32,
    pub done_scheduled_days: u32,
    pub needs_declaration: bool,
}

/// A habit counted by the week within a week.
#[derive(Debug)]
pub struct WeekHabitWeekRow {
    pub id: String,
    pub name: String,
    pub period: Period,
    pub target: u32,
    /// Counted quantity for the ISO week.
    pub quantity: u32,
    /// Raw recorded quantity for the ISO week.
    pub raw_quantity: u32,
    pub needs_declaration: bool,
}

/// A habit within a week.
#[derive(Debug)]
pub enum WeekHabitRow {
    Day(WeekHabitDayRow),
    Week(WeekHabitWeekRow),
}

pub enum WeekHabitRowView {
    Day {
        id: Seq<char>,
        name: Seq<char>,
        period: Period,
        scheduled_days: u32,
        done_scheduled_days: u32,
        needs_declaration: bool,
    },
    Week {
        id: Seq<char>,
        name: Seq<char>,
        period: Period,
        target: u32,
        quantity: u32,
        raw_quantity: u32,
        needs_declaration: bool,
    },
}

impl View for WeekHabitRow {
    type V = WeekHabitRowView;

    open spec fn view(&self) -> WeekHabitRowView {
        match self {
            WeekHabitRow::Day(r) => WeekHabitRowView::Day {
                id: r.id@,
                name: r.name@,
                period: r.period,
                scheduled_days: r.scheduled_days,
                done_scheduled_days: r.done_scheduled_days,
                needs_declaration: r.needs_declaration,
            },
            WeekHabitRow::Week(r) => WeekHabitRowView::Week {
                id: r.id@,
                name: r.name@,
                period: r.period,
                target: r.target,
                quantity: r.quantity,
                raw_quantity: r.raw_quantity,
                needs_declaration: r.needs_declaration,
            },
        }
    }
}

/// The habits within an ISO week.
#[derive(Debug)]
pub struct WeekSection {
    pub id: String,
    pub start_date: String,
    pub end_date: String,
    pub habits: Vec<WeekHabitRow>,
}

pub struct WeekSectionView {
    pub id: Seq<char>,
    pub start_date: Seq<char>,
    pub end_date: Seq<char>,
    pub habits: Seq<WeekHabitRowView>,
}

impl View for WeekSection {
    type V = WeekSectionView;

    open spec fn view(&self) -> WeekSectionView {
        WeekSectionView {
            id: self.id@,
            start_date: self.start_date@,
            end_date: self.end_date@,
            habits: views_of(self.habits@),
        }
    }
}

/// The status of a date and of a week.
#[derive(Debug)]
pub struct Status {
    pub today: TodaySection,
    pub week: WeekSection,
}

pub struct StatusView {
    pub today: TodaySectionView,
    pub week: WeekSectionView,
}

impl View for Status {
    type V = StatusView;

    open spec fn view(&self) -> StatusView {
        StatusView { today: self.today@, week: self.week@ }
    }
}

/// The row of a habit for day `day`, a habit counted by the week reporting
/// the week of `week_day`.
pub open spec fn today_row(db: DbView, h: HabitView, day: int, week_day: int) -> TodayHabitRowView {
    let p = progress_of(db, h, day, week_day);
    TodayHabitRowView {
        id: h.id,
        name: h.name,
        period: h.target.period,
        target: h.target.quantity,
        quantity: p.quantity,
        raw_quantity: p.raw_quantity,
        done: p.done,
        needs_declaration: h.needs_declaration,
        declared: declaration_met(db, h, day_text(day)),
    }
}

/// The rows of the habits of `hs` that are scheduled on day `day`.
pub open spec fn today_rows(db: DbView, hs: Seq<HabitView>, day: int, week_day: int) -> Seq<
    TodayHabitRowView,
>
    decreases hs.len(),
{
    if hs.len() == 0 {
        Seq::empty()
    } else if scheduled_on_day(hs.last(), day) {
        today_rows(db, hs.drop_last(), day, week_day).push(
            today_row(db, hs.last(), day, week_day),
        )
    } else {
        today_rows(db, hs.drop_last(), day, week_day)
    }
}

/// The number of days `from..=to` on which the habit is scheduled.
pub open spec fn scheduled_days(h: HabitView, from: int, to: int) -> nat
    decreases to - from + 1,
{
    if to < from {
        0
    } else {
        scheduled_days(h, from, to - 1) + (if scheduled_on_day(h, to) {
            1nat
        } else {
            0
        })
    }
}

/// The number of days `from..=to` on which the habit is scheduled and
/// done.
pub open spec fn done_days(db: DbView, h: HabitView, from: int, to: int) -> nat
    decreases to - from + 1,
{
    if to < from {
        0
    } else {
        done_days(db, h, from, to - 1) + (if scheduled_on_day(h, to) && done_on(
            db,
            h,
            day_text(to),
        ) {
            1nat
        } else {
            0
        })
    }
}

/// The row of a habit for the week that starts on day `from`.
pub open spec fn week_row(db: DbView, h: HabitView, from: int) -> WeekHabitRowView {
    match h.target.period {
        Period::Day => WeekHabitRowView::Day {
            id: h.id,
            name: h.name,
            period: Period::Day,
            scheduled_days: scheduled_days(h, from, from + 6) as u32,
            done_scheduled_days: done_days(db, h, from, from + 6) as u32,
            needs_declaration: h.needs_declaration,
        },
        Period::Week => WeekHabitRowView::Week {
            id: h.id,
            name: h.name,
            period: Period::Week,
            target: h.target.quantity,
            quantity: capped(counted_total(db, h, from, from + 6)),
            raw_quantity: capped(raw_total(db, h, from, from + 6)),
            needs_declaration: h.needs_declaration,
        },
    }
}

/// The status of the date with day number `day`, with the ISO week that
/// holds the day `week_day`.
pub open spec fn status_of(
    db: DbView,
    date: Seq<char>,
    day: int,
    week_day: int,
    include_archived: bool,
) -> StatusView {
    let hs = listed_habits(db.habits, include_archived);
    let from = week_start_day(week_day);
    StatusView {
        today: TodaySectionView { date, habits: today_rows(db, hs, day, week_day) },
        week: WeekSectionView {
            id: week_label(from),
            start_date: day_text(from),
            end_date: day_text(from + 6),
            habits: hs.map_values(|h: HabitView| week_row(db, h, from)),
        },
    }
}

/// The date whose week is reported: `week_of` where it is given, else the
/// date itself.
pub open spec fn week_date(date: Seq<char>, week_of: Option<Seq<char>>) -> Seq<char> {
    match week_of {
        Some(w) => w,
        None => date,
    }
}

/// The row of a habit counted by the day for the week that starts on day
/// `from`.
fn week_day_row(db: &Db, h: &Habit, from: i64) -> (row: WeekHabitRow)
    requires
        MIN_DAY <= from <= MAX_DAY - 6,
        h@.target.period == Period::Day,
    ensures
        row@ == week_row(db@, h@, from as int),
{
    let mut scheduled: u32 = 0;
    let mut done_count: u32 = 0;
    let mut cur: i64 = from;
    while cur <= from + 6
        invariant
            MIN_DAY <= from <= cur <= from + 7,
            from <= MAX_DAY - 6,
            scheduled == scheduled_days(h@, from as int, cur - 1),
            done_count == done_days(db@, h@, from as int, cur - 1),
            scheduled <= cur - from,
            done_count <= cur - from,
        decreases from + 7 - cur,
    {
        let text = fmt_day(cur);
        if is_scheduled_on_day(h, cur, text.as_str()) {
            scheduled += 1;
            if is_done_for_date(db, h, text.as_str()) {
                done_count += 1;
            }
        }
        cur += 1;
    }
    WeekHabitRow::Day(
        WeekHabitDayRow {
            id: h.id.clone(),
            name: h.name.clone(),
            period: Period::Day,
            scheduled_days: scheduled,
            done_scheduled_days: done_count,
            needs_declaration: h.needs_declaration,
        },
    )
}

/// The status of a date, `week_of` naming another week to report than the
/// one that holds the date.
pub fn build_status(db: &Db, date: &str, week_of: Option<&str>, include_archived: bool) -> (r:
    Result<Status, CliError>)
    ensures
        r is Ok <==> is_date(week_date(date@, opt_text(week_of))) && is_date(date@),
        r is Ok ==> r->Ok_0@ == status_of(
            db@,
            date@,
            date_day(date@),
            date_day(week_date(date@, opt_text(week_of))),
            include_archived,
        ),
        r is Err ==> r->Err_0.is_usage(
            if !is_date(week_date(date@, opt_text(week_of))) {
                invalid_text("date"@, week_date(date@, opt_text(week_of)))
            } else {
                invalid_text("date"@, date@)
            },
        ),
{
    let week_ref = match week_of {
        Some(w) => w,
        None => date,
    };
    let week_day = match parse_day(week_ref, "date") {
        Ok(n) => n,
        Err(e) => {
            return Err(e);
        },
    };
    let day = match parse_day(date, "date") {
        Ok(n) => n,
        Err(e) => {
            return Err(e);
        },
    };
    let wd = weekday_from_days(week_day);
    let from: i64 = week_day - (wd as i64 - 1);
    let week_start = fmt_day(from);
    let week_end = fmt_day(from + 6);
    let week_id = week_label_of_day(week_day);
    proof {
        crate::date::lemma_week_bounds(week_day as int);
        crate::date::lemma_week_start_of_week_day(week_day as int, from as int);
    }
    let text = fmt_day(day);
    let habits = list_habits(db, include_archived);
    let ghost hs = views_of(habits@);
    let mut today_out: Vec<TodayHabitRow> = Vec::new();
    let mut i: usize = 0;
    assert(hs.take(0) =~= Seq::empty());
    assert(views_of(today_out@) =~= today_rows(db@, hs.take(0), day as int, week_day as int));
    while i < habits.len()
        invariant
            i <= habits@.len(),
            hs == views_of(habits@),
            text@ == day_text(day as int),
            FIRST_TEXT_DAY <= day <= LAST_TEXT_DAY,
            FIRST_TEXT_DAY <= week_day <= LAST_TEXT_DAY,
            views_of(today_out@) == today_rows(db@, hs.take(i as int), day as int, week_day as int),
        decreases habits@.len() - i,
    {
        proof {
            assert(hs.take(i + 1).drop_last() =~= hs.take(i as int));
        }
        let ghost before = views_of(today_out@);
        let h = &habits[i];
        if is_scheduled_on_day(h, day, text.as_str()) {
            let p = habit_progress(db, h, day, text.as_str(), week_day);
            let row = TodayHabitRow {
                id: h.id.clone(),
                name: h.name.clone(),
                period: h.target.period,
                target: h.target.quantity,
                quantity: p.quantity,
                raw_quantity: p.raw_quantity,
                done: p.done,
                needs_declaration: h.needs_declaration,
                declared: is_declared(db, h, text.as_str()),
            };
            today_out.push(row);
            assert(views_of(today_out@) =~= before.push(
                today_row(db@, hs[i as int], day as int, week_day as int),
            ));
        }
        i += 1;
    }
    assert(hs.take(hs.len() as int) =~= hs);
    let mut week_out: Vec<WeekHabitRow> = Vec::new();
    let mut k: usize = 0;
    while k < habits.len()
        invariant
            k <= habits@.len(),
            hs == views_of(habits@),
            MIN_DAY <= from <= MAX_DAY - 6,
            week_out@.len() == k,
            forall|j: int| 0 <= j < k ==> (#[trigger] week_out@[j])@ == week_row(
                db@,
                hs[j],
                from as int,
            ),
        decreases habits@.len() - k,
    {
        let h = &habits[k];
        let row = match h.target.period {
            Period::Day => week_day_row(db, h, from),
            Period::Week => {
                let (raw, counted) = totals_between(db, h, from, from + 6);
                WeekHabitRow::Week(
                    WeekHabitWeekRow {
                        id: h.id.clone(),
                        name: h.name.clone(),
                        period: Period::Week,
                        target: h.target.quantity,
                        quantity: counted,
                        raw_quantity: raw,
                        needs_declaration: h.needs_declaration,
                    },
                )
            },
        };
        week_out.push(row);
        k += 1;
    }
    assert(views_of(week_out@) =~= hs.map_values(|h: HabitView| week_row(db@, h, from as int)));
    Ok(
        Status {
            today: TodaySection { date: date.to_owned(), habits: today_out },
            week: WeekSection {
                id: week_id,
                start_date: week_start,
                end_date: week_end,
                habits: week_out,
            },
        },
    )
}

} // verus!
