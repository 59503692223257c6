//! What is due: the scheduled habits of a date that are not done yet.

use crate::completion::{habit_progress, progress_of};
use crate::date::{date_day, day_text, invalid_text, is_date, parse_day};
use crate::error::CliError;
use crate::habits::{is_scheduled_on_day, list_habits, listed_habits, scheduled_on_day};
use crate::model::{views_of, Db, DbView, HabitView, Period};
use crate::text::capped;
use vstd::prelude::*;

verus! {

/// A habit that is due, with what counts so far and what is left to do.
#[derive(Debug)]
pub struct DueHabitRow {
    pub id: String,
    pub name: String,
    pub period: Period,
    pub target: u32,
    pub quantity: u32,
    pub remaining: u32,
    pub scheduled: bool,
    pub done: bool,
}

pub struct DueHabitRowView {
    pub id: Seq<char>,
    pub name: Seq<char>,
    pub period: Period,
    pub target: u32,
    pub quantity: u32,
    pub remaining: u32,
    pub scheduled: bool,
    pub done: bool,
}

impl View for DueHabitRow {
    type V = DueHabitRowView;

    open spec fn view(&self) -> DueHabitRowView {
        DueHabitRowView {
            id: self.id@,
            name: self.name@,
            period: self.period,
            target: self.target,
            quantity: self.quantity,
            remaining: self.remaining,
            scheduled: self.scheduled,
            done: self.done,
        }
    }
}

impl Clone for DueHabitRow {
    fn clone(&self) -> (r: Self)
        ensures
            r@ == self@,
    {
        DueHabitRow {
            id: self.id.clone(),
            name: self.name.clone(),
            period: self.period,
            target: self.target,
            quantity: self.quantity,
            remaining: self.remaining,
            scheduled: self.scheduled,
            done: self.done,
        }
    }
}

/// The number of habits that are due.
#[derive(Clone, Copy, Debug, PartialEq, Eq, Structural)]
pub struct DueCounts {
    pub due: u32,
}

/// What is due on a date.
#[derive(Debug)]
pub struct DueOutput {
    pub date: String,
    pub due: Vec<DueHabitRow>,
    pub counts: DueCounts,
}

pub struct DueOutputView {
    pub date: Seq<char>,
    pub due: Seq<DueHabitRowView>,
    pub counts: DueCounts,
}

impl View for DueOutput {
    type V = DueOutputView;

    open spec fn view(&self) -> DueOutputView {
        DueOutputView { date: self.date@, due: views_of(self.due@), counts: self.counts }
    }
}

/// What is left to do of a target.
pub open spec fn left_of(target: u32, quantity: u32) -> u32 {
    if target > quantity {
        (target - quantity) as u32
    } else {
        0
    }
}

/// Whether the habit is due on day `n`: scheduled on it and not done, by
/// the day or, for a habit counted by the week, over the week of the day.
pub open spec fn is_due(db: DbView, h: HabitView, n: int) -> bool {
    scheduled_on_day(h, n) && !progress_of(db, h, n, n).done
}

/// The row of a habit that is due on day `n`.
pub open spec fn due_row(db: DbView, h: HabitView, n: int) -> DueHabitRowView {
    let p = progress_of(db, h, n, n);
    DueHabitRowView {
        id: h.id,
        name: h.name,
        period: h.target.period,
        target: h.target.quantity,
        quantity: p.quantity,
        remaining: left_of(h.target.quantity, p.quantity),
        scheduled: true,
        done: false,
    }
}

/// The rows of the habits of `hs` that are due on day `n`, in the order of
/// `hs`.
pub open spec fn due_rows(db: DbView, hs: Seq<HabitView>, n: int) -> Seq<DueHabitRowView>
    decreases hs.len(),
{
    if hs.len() == 0 {
        Seq::empty()
    } else if is_due(db, hs.last(), n) {
        due_rows(db, hs.drop_last(), n).push(due_row(db, hs.last(), n))
    } else {
        due_rows(db, hs.drop_last(), n)
    }
}

/// What is due on a date: a row for each shown habit that is due, in
/// listing order, and their number.
pub open spec fn due_on(db: DbView, date: Seq<char>, include_archived: bool) -> DueOutputView {
    let rows = due_rows(db, listed_habits(db.habits, include_archived), date_day(date));
    DueOutputView { date, due: rows, counts: DueCounts { due: capped(rows.len()) } }
}

/// What is due on a date: the shown habits that are scheduled on it and
/// not done, in listing order.
pub fn build_due(db: &Db, date: &str, include_archived: bool) -> (r: Result<DueOutput, CliError>)
    ensures
        r is Ok <==> is_date(date@),
        r is Ok ==> r->Ok_0@ == due_on(db@, date@, include_archived),
        r is Err ==> r->Err_0.is_usage(invalid_text("date"@, date@)),
{
    let day = match parse_day(date, "date") {
        Ok(n) => n,
        Err(e) => {
            return Err(e);
        },
    };
    let text = crate::date::fmt_day(day);
    let habits = list_habits(db, include_archived);
    let ghost hs = views_of(habits@);
    let mut due_rows_out: Vec<DueHabitRow> = Vec::new();
    let mut i: usize = 0;
    assert(hs.take(0) =~= Seq::empty());
    assert(views_of(due_rows_out@) =~= due_rows(db@, hs.take(0), day as int));
    while i < habits.len()
        invariant
            i <= habits@.len(),
            hs == views_of(habits@),
            text@ == day_text(day as int),
            crate::date::FIRST_TEXT_DAY <= day <= crate::date::LAST_TEXT_DAY,
            views_of(due_rows_out@) == due_rows(db@, hs.take(i as int), day as int),
        decreases habits@.len() - i,
    {
        proof {
            assert(hs.take(i + 1).drop_last() =~= hs.take(i as int));
        }
        let ghost before = views_of(due_rows_out@);
        let h = &habits[i];
        if is_scheduled_on_day(h, day, text.as_str()) {
            let p = habit_progress(db, h, day, text.as_str(), day);
            // Only include if not done
            if !p.done {
                let remaining: u32 = if h.target.quantity > p.quantity {
                    h.target.quantity - p.quantity
                } else {
                    0
                };
                let row = DueHabitRow {
                    id: h.id.clone(),
                    name: h.name.clone(),
                    period: h.target.period,
                    target: h.target.quantity,
                    quantity: p.quantity,
                    remaining,
                    scheduled: true,
                    done: false,
                };
                due_rows_out.push(row);
                assert(views_of(due_rows_out@) =~= before.push(due_row(db@, hs[i as int], day as int)));
            }
        }
        i += 1;
    }
    assert(hs.take(hs.len() as int) =~= hs);
    let due_count: u32 = if due_rows_out.len() > u32::MAX as usize {
        u32::MAX
    } else {
        due_rows_out.len() as u32
    };
    Ok(DueOutput { date: date.to_owned(), due: due_rows_out, counts: DueCounts { due: due_count } })
}

} // verus!
