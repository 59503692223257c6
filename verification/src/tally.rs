//! The periods of a habit within a window of days, each with its outcome,
//! and what is counted over them: successes and streaks.

use crate::completion::{counted_total, done_on, is_done_for_date, totals_between};
use crate::date::{day_text, fmt_day, week_start_day, weekday_from_days, MAX_DAY, MIN_DAY};
use crate::habits::{is_scheduled_on_day, scheduled_on_day};
use crate::model::{Db, DbView, Habit, HabitView, Period};
use crate::seqs::count_where;
use crate::text::{capped, lex_le, str_le};
use vstd::prelude::*;

verus! {

/// The outcomes of the days `from..=to` on which the habit is scheduled,
/// in order: whether the habit is done on the day.
pub open spec fn day_outcomes(db: DbView, h: HabitView, from: int, to: int) -> Seq<bool>
    decreases to - from + 1,
{
    if to < from {
        Seq::empty()
    } else if scheduled_on_day(h, to) {
        day_outcomes(db, h, from, to - 1).push(done_on(db, h, day_text(to)))
    } else {
        day_outcomes(db, h, from, to - 1)
    }
}

/// Whether the week that starts on day `monday` counts for the habit: the
/// habit was created by the end of it.
pub open spec fn week_counts(h: HabitView, monday: int) -> bool {
    lex_le(h.created_date, day_text(monday + 6))
}

/// Whether the habit meets its target over the week that starts on day
/// `monday`.
pub open spec fn week_done(db: DbView, h: HabitView, monday: int) -> bool {
    capped(counted_total(db, h, monday, monday + 6)) >= h.target.quantity
}

/// The outcomes of the first `count` weeks from the one that starts on day
/// `first`, as far as they count for the habit, in order.
pub open spec fn week_outcomes(db: DbView, h: HabitView, first: int, count: int) -> Seq<bool>
    decreases count,
{
    if count <= 0 {
        Seq::empty()
    } else {
        let monday = first + 7 * (count - 1);
        if week_counts(h, monday) {
            week_outcomes(db, h, first, count - 1).push(week_done(db, h, monday))
        } else {
            week_outcomes(db, h, first, count - 1)
        }
    }
}

/// The number of ISO weeks that the days `from..=to` touch.
pub open spec fn weeks_touched(from: int, to: int) -> int {
    if to < from {
        0
    } else {
        (week_start_day(to) - week_start_day(from)) / 7 + 1
    }
}

/// The outcomes of the periods of the habit within the days `from..=to`:
/// its scheduled days, or the weeks that the window touches.
pub open spec fn outcomes(db: DbView, h: HabitView, from: int, to: int) -> Seq<bool> {
    match h.target.period {
        Period::Day => day_outcomes(db, h, from, to),
        Period::Week => week_outcomes(db, h, week_start_day(from), weeks_touched(from, to)),
    }
}

/// The successes.
pub open spec fn is_success() -> spec_fn(bool) -> bool {
    |b: bool| b
}

/// The length of the run of successes at the end.
pub open spec fn trailing_run(s: Seq<bool>) -> nat
    decreases s.len(),
{
    if s.len() == 0 || !s.last() {
        0
    } else {
        1 + trailing_run(s.drop_last())
    }
}

/// The length of the longest run of successes.
pub open spec fn longest_run(s: Seq<bool>) -> nat
    decreases s.len(),
{
    if s.len() == 0 {
        0
    } else {
        let before = longest_run(s.drop_last());
        if trailing_run(s) > before {
            trailing_run(s)
        } else {
            before
        }
    }
}

/// No run is longer than the longest, and the longest no longer than
/// there are successes.
pub proof fn lemma_runs(s: Seq<bool>)
    ensures
        trailing_run(s) <= longest_run(s) <= count_where(s, is_success()) <= s.len(),
    decreases s.len(),
{
    if s.len() > 0 {
        lemma_runs(s.drop_last());
    }
}

/// What is counted over the periods of a habit.
#[derive(Clone, Copy, Debug, PartialEq, Eq, Structural)]
pub struct Tally {
    pub eligible: u32,
    pub successes: u32,
    pub current_streak: u32,
    pub longest_streak: u32,
}

/// The tally of a sequence of outcomes, each count held at the largest
/// number of 32 bits.
pub open spec fn tally_of(s: Seq<bool>) -> Tally {
    Tally {
        eligible: capped(s.len()),
        successes: capped(count_where(s, is_success())),
        current_streak: capped(trailing_run(s)),
        longest_streak: capped(longest_run(s)),
    }
}

/// Counts the periods, the successes, the run of successes at the end and
/// the longest run.
pub fn tally(outcomes: &Vec<bool>) -> (t: Tally)
    ensures
        t == tally_of(outcomes@),
{
    let ghost all = outcomes@;
    let mut eligible: u32 = 0;
    let mut successes: u32 = 0;
    let mut run: u32 = 0;
    let mut longest: u32 = 0;
    let mut i: usize = 0;
    assert(all.take(0) =~= Seq::empty());
    while i < outcomes.len()
        invariant
            i <= outcomes@.len(),
            all == outcomes@,
            eligible == capped(i as nat),
            successes == capped(count_where(all.take(i as int), is_success())),
            run == capped(trailing_run(all.take(i as int))),
            longest == capped(longest_run(all.take(i as int))),
        decreases outcomes@.len() - i,
    {
        proof {
            assert(all.take(i + 1).drop_last() =~= all.take(i as int));
            lemma_runs(all.take(i as int));
            lemma_runs(all.take(i + 1));
        }
        if eligible < u32::MAX {
            eligible += 1;
        }
        if outcomes[i] {
            if successes < u32::MAX {
                successes += 1;
            }
            if run < u32::MAX {
                run += 1;
            }
            if run > longest {
                longest = run;
            }
        } else {
            run = 0;
        }
        i += 1;
    }
    assert(all.take(all.len() as int) =~= all);
    Tally { eligible, successes, current_streak: run, longest_streak: longest }
}

/// The outcomes of the periods of the habit within the days `from..=to`.
pub fn habit_outcomes(db: &Db, habit: &Habit, from: i64, to: i64) -> (out: Vec<bool>)
    requires
        MIN_DAY + 7 <= from,
        to <= MAX_DAY - 7,
    ensures
        out@ == outcomes(db@, habit@, from as int, to as int),
{
    let mut out: Vec<bool> = Vec::new();
    match habit.target.period {
        Period::Day => {
            let mut cur: i64 = from;
            while cur <= to
                invariant
                    MIN_DAY <= from <= cur,
                    to <= MAX_DAY,
                    cur <= to + 1 || cur == from,
                    out@ == day_outcomes(db@, habit@, from as int, cur - 1),
                decreases to + 1 - cur,
            {
                let text = fmt_day(cur);
                if is_scheduled_on_day(habit, cur, text.as_str()) {
                    out.push(is_done_for_date(db, habit, text.as_str()));
                }
                cur += 1;
            }
        },
        Period::Week => {
            if from <= to {
                let first: i64 = from - (weekday_from_days(from) as i64 - 1);
                let last: i64 = to - (weekday_from_days(to) as i64 - 1);
                proof {
                    crate::date::lemma_week_bounds(from as int);
                    crate::date::lemma_week_bounds(to as int);
                    lemma_mondays_apart(first as int, last as int);
                }
                let count: i64 = (last - first) / 7 + 1;
                let mut k: i64 = 0;
                while k < count
                    invariant
                        0 <= k <= count,
                        MIN_DAY <= first,
                        first + 7 * (count - 1) == last,
                        last <= MAX_DAY - 7,
                        out@ == week_outcomes(db@, habit@, first as int, k as int),
                    decreases count - k,
                {
                    let monday: i64 = first + 7 * k;
                    let end = fmt_day(monday + 6);
                    if str_le(habit.created_date.as_str(), end.as_str()) {
                        let (_raw, counted) = totals_between(db, habit, monday, monday + 6);
                        out.push(counted >= habit.target.quantity);
                    }
                    k += 1;
                }
            }
        },
    }
    out
}

/// Two Mondays, the second not before the first, lie a whole number of
/// weeks apart.
proof fn lemma_mondays_apart(first: int, last: int)
    requires
        crate::date::weekday_of_day(first) == 1,
        crate::date::weekday_of_day(last) == 1,
    ensures
        (last - first) % 7 == 0,
        first + 7 * ((last - first) / 7) == last,
{
}

} // verus!
