//! What counts as done: the recorded quantity of a habit, as far as its
//! declaration lets it count, held against its target.

use crate::checkins::{get_quantity, quantity_at};
use crate::date::{
    date_day, day_text, fmt_day, invalid_text, is_date, parse_day, week_end_day, week_start_day,
    weekday_from_days, MAX_DAY, MIN_DAY,
};
use crate::declarations::{with_declaration};
use crate::error::CliError;
use crate::declarations::{declared, has_declaration};
use crate::model::{Db, DbView, Habit, HabitView, Period};
use crate::text::{capped, lex_lt, str_lt};
use vstd::prelude::*;

verus! {

/// Whether the habit owes no declaration for the date: it asks for none,
/// or has one for that date.
pub open spec fn declaration_met(db: DbView, h: HabitView, date: Seq<char>) -> bool {
    !h.needs_declaration || declared(db.declarations, h.id, date)
}

/// The quantity that counts: the recorded one, or 0 while a declaration is
/// owed.
pub open spec fn counted_at(db: DbView, h: HabitView, date: Seq<char>) -> u32 {
    if declaration_met(db, h, date) {
        quantity_at(db.checkins, h.id, date)
    } else {
        0
    }
}

/// Whether the habit is done on the date: no declaration is owed and the
/// counted quantity meets the target.
pub open spec fn done_on(db: DbView, h: HabitView, date: Seq<char>) -> bool {
    declaration_met(db, h, date) && counted_at(db, h, date) >= h.target.quantity
}

/// Whether the habit owes no declaration for the date.
pub fn is_declared(db: &Db, habit: &Habit, date: &str) -> (r: bool)
    ensures
        r == declaration_met(db@, habit@, date@),
{
    if !habit.needs_declaration {
        return true;
    }
    has_declaration(db, habit.id.as_str(), date)
}

/// Quantity that counts toward completion semantics.
pub fn counted_quantity(db: &Db, habit: &Habit, date: &str) -> (q: u32)
    ensures
        q == counted_at(db@, habit@, date@),
{
    let raw = get_quantity(db, habit.id.as_str(), date);
    if habit.needs_declaration && !has_declaration(db, habit.id.as_str(), date) {
        0
    } else {
        raw
    }
}

/// Whether the habit, counted by the day, is done on the date.
pub fn is_done_for_date(db: &Db, habit: &Habit, date: &str) -> (r: bool)
    ensures
        r == done_on(db@, habit@, date@),
{
    is_declared(db, habit, date) && counted_quantity(db, habit, date) >= habit.target.quantity
}

/// Whether the day counts for the habit's weeks: it does from the day the
/// habit was created.
pub open spec fn in_lifetime(h: HabitView, date: Seq<char>) -> bool {
    !lex_lt(date, h.created_date)
}

/// The recorded quantities of the days `from..=to` within the habit's
/// lifetime, added up.
pub open spec fn raw_total(db: DbView, h: HabitView, from: int, to: int) -> nat
    decreases to - from + 1,
{
    if to < from {
        0
    } else {
        raw_total(db, h, from, to - 1) + (if in_lifetime(h, day_text(to)) {
            quantity_at(db.checkins, h.id, day_text(to)) as nat
        } else {
            0
        })
    }
}

/// The counted quantities of the days `from..=to` within the habit's
/// lifetime, added up.
pub open spec fn counted_total(db: DbView, h: HabitView, from: int, to: int) -> nat
    decreases to - from + 1,
{
    if to < from {
        0
    } else {
        counted_total(db, h, from, to - 1) + (if in_lifetime(h, day_text(to)) {
            counted_at(db, h, day_text(to)) as nat
        } else {
            0
        })
    }
}

/// The recorded and the counted total of the days `from..=to`.
pub fn totals_between(db: &Db, habit: &Habit, from: i64, to: i64) -> (r: (u32, u32))
    requires
        MIN_DAY <= from,
        to <= MAX_DAY,
    ensures
        r.0 == capped(raw_total(db@, habit@, from as int, to as int)),
        r.1 == capped(counted_total(db@, habit@, from as int, to as int)),
{
    let mut raw_sum: u32 = 0;
    let mut counted_sum: u32 = 0;
    let mut cur: i64 = from;
    while cur <= to
        invariant
            MIN_DAY <= from <= cur,
            to <= MAX_DAY,
            cur <= to + 1 || cur == from,
            raw_sum == capped(raw_total(db@, habit@, from as int, cur - 1)),
            counted_sum == capped(counted_total(db@, habit@, from as int, cur - 1)),
        decreases to + 1 - cur,
    {
        let day = fmt_day(cur);
        if !str_lt(day.as_str(), habit.created_date.as_str()) {
            let raw = get_quantity(db, habit.id.as_str(), day.as_str());
            let counted = counted_quantity(db, habit, day.as_str());
            raw_sum = if raw_sum > u32::MAX - raw {
                u32::MAX
            } else {
                raw_sum + raw
            };
            counted_sum = if counted_sum > u32::MAX - counted {
                u32::MAX
            } else {
                counted_sum + counted
            };
        }
        cur += 1;
    }
    (raw_sum, counted_sum)
}

/// The recorded and the counted total of a habit from `week_start_date`
/// to the end of the ISO week that holds that date.
pub fn week_sum_for_habit(db: &Db, habit: &Habit, week_start_date: &str) -> (r: Result<
    (u32, u32),
    CliError,
>)
    ensures
        r is Ok <==> is_date(week_start_date@),
        r is Ok ==> {
            let from = date_day(week_start_date@);
            &&& r->Ok_0.0 == capped(raw_total(db@, habit@, from, week_end_day(from)))
            &&& r->Ok_0.1 == capped(counted_total(db@, habit@, from, week_end_day(from)))
        },
        r is Err ==> r->Err_0.is_usage(invalid_text("date"@, week_start_date@)),
{
    let from = match parse_day(week_start_date, "date") {
        Ok(n) => n,
        Err(e) => {
            return Err(e);
        },
    };
    let wd = weekday_from_days(from);
    let to: i64 = from - (wd as i64 - 1) + 6;
    Ok(totals_between(db, habit, from, to))
}

/// How far a habit has come: what counts, what is recorded, and whether
/// the target is met.
#[derive(Clone, Copy, Debug, PartialEq, Eq, Structural)]
pub struct Progress {
    pub quantity: u32,
    pub raw_quantity: u32,
    pub done: bool,
}

/// The progress of a habit: of one counted by the day, on the day `day`;
/// of one counted by the week, over the ISO week that holds the day
/// `week_day`.
pub open spec fn progress_of(db: DbView, h: HabitView, day: int, week_day: int) -> Progress {
    match h.target.period {
        Period::Day => Progress {
            quantity: counted_at(db, h, day_text(day)),
            raw_quantity: quantity_at(db.checkins, h.id, day_text(day)),
            done: done_on(db, h, day_text(day)),
        },
        Period::Week => {
            let from = week_start_day(week_day);
            let counted = capped(counted_total(db, h, from, from + 6));
            Progress {
                quantity: counted,
                raw_quantity: capped(raw_total(db, h, from, from + 6)),
                done: counted >= h.target.quantity,
            }
        },
    }
}

/// The progress of a habit on a day, or over the week of `week_day` for a
/// habit counted by the week; `text` is the text of the day.
pub fn habit_progress(db: &Db, habit: &Habit, day: i64, text: &str, week_day: i64) -> (p: Progress)
    requires
        MIN_DAY <= day <= MAX_DAY,
        MIN_DAY + 7 <= week_day <= MAX_DAY - 7,
        text@ == day_text(day as int),
    ensures
        p == progress_of(db@, habit@, day as int, week_day as int),
{
    match habit.target.period {
        Period::Day => {
            let raw = get_quantity(db, habit.id.as_str(), text);
            let counted = counted_quantity(db, habit, text);
            let done = is_done_for_date(db, habit, text);
            Progress { quantity: counted, raw_quantity: raw, done }
        },
        Period::Week => {
            let wd = weekday_from_days(week_day);
            let from: i64 = week_day - (wd as i64 - 1);
            let (raw, counted) = totals_between(db, habit, from, from + 6);
            Progress { quantity: counted, raw_quantity: raw, done: counted >= habit.target.quantity }
        },
    }
}

/// While a habit that asks for a declaration has none for a date, what is
/// recorded for that date does not count and the date is not done. Once
/// the declaration is made, the same records count in full: nothing needs
/// to be recorded again.
pub proof fn lemma_declaration_counts(
    db: DbView,
    h: HabitView,
    date: Seq<char>,
    ts: Seq<char>,
    text: Seq<char>,
)
    requires
        h.needs_declaration,
    ensures
        !crate::declarations::declared(db.declarations, h.id, date) ==> counted_at(db, h, date)
            == 0 && !done_on(db, h, date),
        ({
            let after = with_declaration(db, h.id, date, ts, text);
            &&& after.checkins == db.checkins
            &&& counted_at(after, h, date) == quantity_at(db.checkins, h.id, date)
            &&& done_on(after, h, date) == (quantity_at(db.checkins, h.id, date)
                >= h.target.quantity)
        }),
{
    let after = with_declaration(db, h.id, date, ts, text);
    let made = crate::declarations::new_declaration(db, h.id, date, ts, text);
    assert(after.declarations[db.declarations.len() as int] == made);
    assert(crate::declarations::declaration_at(h.id, date)(
        after.declarations[db.declarations.len() as int],
    ));
}

} // verus!
