//! Recap: the share of its periods in which each habit met its target, over
//! a range of dates that ends today.

use crate::date::{
    date_day, date_text, day_number, day_text, days_from_civil, fmt_date, fmt_day, invalid_text,
    is_date, parse_date, text_year, Date, FIRST_TEXT_DAY, LAST_TEXT_DAY,
};
use crate::error::CliError;
use crate::habits::ByName;
use crate::model::{views_of, Db, DbView, Habit, HabitView, Period};
use crate::sorting::{in_order, sort_vec, stable_sort, strict_weak, Order};
use crate::stats::clone_habits;
use crate::tally::{habit_outcomes, outcomes, tally, tally_of};
use crate::text::{decimal, lemma_lex_order, lex_lt, lowercase_of, push_decimal, push_repeated, repeated, str_lt};
use vstd::prelude::*;

verus! {

/// Supported recap time ranges.
#[derive(Clone, Copy, Debug, PartialEq, Eq, Structural)]
pub enum RecapRange {
    /// Year-to-date: Jan 1 of current year through today
    Ytd,
    /// Past 30 days (including today)
    Month,
    /// Past 7 days (including today)
    Week,
}

impl RecapRange {
    /// The name of the range.
    pub open spec fn text(self) -> Seq<char> {
        match self {
            RecapRange::Ytd => "ytd"@,
            RecapRange::Month => "month"@,
            RecapRange::Week => "week"@,
        }
    }

    pub fn as_str(&self) -> (s: &'static str)
        ensures
            s@ == self.text(),
    {
        match self {
            RecapRange::Ytd => "ytd",
            RecapRange::Month => "month",
            RecapRange::Week => "week",
        }
    }
}

/// The range of a recap: its name and its first and last date.
#[derive(Debug)]
pub struct RecapRangeInfo {
    pub kind: String,
    pub from: String,
    pub to: String,
}

/// A single recap row for one habit. The rate is the quotient of
/// successes and eligible periods, undefined where nothing is eligible.
#[derive(Debug)]
pub struct RecapRow {
    pub habit_id: String,
    pub name: String,
    pub period: Period,
    /// Human-readable target label, e.g. "8/day" or "3/week"
    pub target_label: String,
    /// Raw target quantity
    pub target: u32,
    /// Number of successes (days or weeks where target was met)
    pub successes: u32,
    /// Number of eligible periods (scheduled days or eligible weeks)
    pub eligible: u32,
    /// Completion percentage as 0-100 integer (None if eligible=0)
    pub percent: Option<u32>,
    /// The time range used
    pub range: RecapRangeInfo,
}

pub struct RecapRowView {
    pub habit_id: Seq<char>,
    pub name: Seq<char>,
    pub period: Period,
    pub target_label: Seq<char>,
    pub target: u32,
    pub successes: u32,
    pub eligible: u32,
    pub percent: Option<u32>,
    pub range_kind: Seq<char>,
    pub range_from: Seq<char>,
    pub range_to: Seq<char>,
}

impl View for RecapRow {
    type V = RecapRowView;

    open spec fn view(&self) -> RecapRowView {
        RecapRowView {
            habit_id: self.habit_id@,
            name: self.name@,
            period: self.period,
            target_label: self.target_label@,
            target: self.target,
            successes: self.successes,
            eligible: self.eligible,
            percent: self.percent,
            range_kind: self.range.kind@,
            range_from: self.range.from@,
            range_to: self.range.to@,
        }
    }
}

/// The day number on which a range that ends on `today` starts.
pub open spec fn range_start_day(range: RecapRange, today: Seq<char>) -> int {
    match range {
        RecapRange::Ytd => day_number(text_year(today), 1, 1),
        RecapRange::Month => date_day(today) - 29,
        RecapRange::Week => date_day(today) - 6,
    }
}

/// The text of the date on which a range that ends on `today` starts.
pub open spec fn range_start_text(range: RecapRange, today: Seq<char>) -> Seq<char> {
    match range {
        RecapRange::Ytd => date_text(text_year(today), 1, 1),
        RecapRange::Month => day_text(date_day(today) - 29),
        RecapRange::Week => day_text(date_day(today) - 6),
    }
}

/// The first day of a range that ends on `today`, as a day number and as a
/// text.
pub fn range_start(range: RecapRange, today: &str) -> (r: Result<(i64, String), CliError>)
    ensures
        r is Ok <==> is_date(today@),
        r is Ok ==> {
            &&& r->Ok_0.0 == range_start_day(range, today@)
            &&& r->Ok_0.1@ == range_start_text(range, today@)
            &&& FIRST_TEXT_DAY - 29 <= r->Ok_0.0 <= date_day(today@) <= LAST_TEXT_DAY
        },
        r is Err ==> r->Err_0.is_usage(invalid_text("date"@, today@)),
{
    let dt = match parse_date(today, "date") {
        Ok(d) => d,
        Err(e) => {
            return Err(e);
        },
    };
    proof {
        crate::date::lemma_date_day_bounds(today@);
    }
    let n = days_from_civil(dt.y, dt.m, dt.d);
    match range {
        RecapRange::Ytd => {
            proof {
                crate::date::lemma_days_before_month(dt.y as int, 12);
                if dt.m > 1 || dt.d > 1 {
                    crate::date::lemma_day_number_increases(
                        dt.y as int,
                        1,
                        1,
                        dt.y as int,
                        dt.m as int,
                        dt.d as int,
                    );
                }
                if dt.y > 0 {
                    crate::date::lemma_day_number_increases(0, 1, 1, dt.y as int, 1, 1);
                }
            }
            let first = days_from_civil(dt.y, 1, 1);
            Ok((first, fmt_date(Date { y: dt.y, m: 1, d: 1 })))
        },
        RecapRange::Month => Ok((n - 29, fmt_day(n - 29))),
        RecapRange::Week => Ok((n - 6, fmt_day(n - 6))),
    }
}

/// Compute the from/to dates for a given range relative to `today`.
pub fn compute_range_dates(range: RecapRange, today: &str) -> (r: Result<(String, String), CliError>)
    ensures
        r is Ok <==> is_date(today@),
        r is Ok ==> r->Ok_0.0@ == range_start_text(range, today@) && r->Ok_0.1@ == today@,
        r is Err ==> r->Err_0.is_usage(invalid_text("date"@, today@)),
{
    match range_start(range, today) {
        Ok((_, from)) => Ok((from, today.to_owned())),
        Err(e) => Err(e),
    }
}

/// The share of successes among the eligible periods in percent, rounded
/// to the nearest whole number, a half rounding up; undefined where nothing
/// is eligible.
pub open spec fn percent_of(successes: u32, eligible: u32) -> Option<u32> {
    if eligible == 0 {
        None
    } else {
        Some(((200 * successes + eligible) / (2 * eligible)) as u32)
    }
}

/// The share of successes among the eligible periods in percent.
pub fn percent(successes: u32, eligible: u32) -> (p: Option<u32>)
    requires
        successes <= eligible,
    ensures
        p == percent_of(successes, eligible),
        p is Some ==> p->0 <= 100,
{
    if eligible == 0 {
        return None;
    }
    let q: u64 = (200 * successes as u64 + eligible as u64) / (2 * eligible as u64);
    assert(q <= 100) by (nonlinear_arith)
        requires
            q == (200 * successes + eligible) / (2 * eligible),
            successes <= eligible,
            eligible > 0,
    ;
    Some(q as u32)
}

/// The target as it is shown: the quantity and the period.
pub open spec fn target_label_text(quantity: u32, period: Period) -> Seq<char> {
    decimal(quantity as nat) + "/"@ + period.text()
}

/// The target as it is shown.
pub fn target_label(quantity: u32, period: Period) -> (s: String)
    ensures
        s@ == target_label_text(quantity, period),
{
    let mut s = String::new();
    push_decimal(&mut s, quantity as u64, 0);
    s.append("/");
    s.append(period.as_str());
    s
}

/// The row of a habit over the days `from..=to`.
pub open spec fn recap_row(
    db: DbView,
    h: HabitView,
    range: RecapRange,
    today: Seq<char>,
) -> RecapRowView {
    let t = tally_of(outcomes(db, h, range_start_day(range, today), date_day(today)));
    RecapRowView {
        habit_id: h.id,
        name: h.name,
        period: h.target.period,
        target_label: target_label_text(h.target.quantity, h.target.period),
        target: h.target.quantity,
        successes: t.successes,
        eligible: t.eligible,
        percent: percent_of(t.successes, t.eligible),
        range_kind: range.text(),
        range_from: range_start_text(range, today),
        range_to: today,
    }
}

/// Whether row `a` comes before row `b`: the higher share first, or the
/// lower one where those who are behind come first; rows without a share
/// last, by name.
pub open spec fn recap_before(a: RecapRowView, b: RecapRowView, behind_first: bool) -> bool {
    match (a.percent, b.percent) {
        (Some(ap), Some(bp)) => if behind_first {
            ap < bp
        } else {
            bp < ap
        },
        (Some(_), None) => true,
        (None, Some(_)) => false,
        (None, None) => lex_lt(lowercase_of(a.name), lowercase_of(b.name)),
    }
}

/// Whether row `a` comes before row `b`.
pub fn is_recap_before(a: &RecapRow, b: &RecapRow, behind_first: bool) -> (r: bool)
    ensures
        r == recap_before(a@, b@, behind_first),
{
    match (a.percent, b.percent) {
        (Some(ap), Some(bp)) => if behind_first {
            ap < bp
        } else {
            bp < ap
        },
        (Some(_), None) => true,
        (None, Some(_)) => false,
        (None, None) => {
            let an = a.name.as_str().to_lowercase();
            let bn = b.name.as_str().to_lowercase();
            str_lt(an.as_str(), bn.as_str())
        },
    }
}

/// The highest share first.
pub struct AheadFirst;

impl Order<RecapRow> for AheadFirst {
    open spec fn before(a: RecapRowView, b: RecapRowView) -> bool {
        recap_before(a, b, false)
    }

    fn is_before(a: &RecapRow, b: &RecapRow) -> (r: bool) {
        is_recap_before(a, b, false)
    }
}

/// The lowest share first.
pub struct BehindFirst;

impl Order<RecapRow> for BehindFirst {
    open spec fn before(a: RecapRowView, b: RecapRowView) -> bool {
        recap_before(a, b, true)
    }

    fn is_before(a: &RecapRow, b: &RecapRow) -> (r: bool) {
        is_recap_before(a, b, true)
    }
}

/// Of two rows at most one comes before the other, and not coming behind
/// carries over.
proof fn lemma_recap_before(a: RecapRowView, b: RecapRowView, c: RecapRowView, behind_first: bool)
    ensures
        recap_before(a, b, behind_first) ==> !recap_before(b, a, behind_first),
        !recap_before(b, a, behind_first) && !recap_before(c, b, behind_first) ==> !recap_before(
            c,
            a,
            behind_first,
        ),
{
    let x = lowercase_of(a.name);
    let y = lowercase_of(b.name);
    let z = lowercase_of(c.name);
    lemma_lex_order(x, y, z);
    lemma_lex_order(x, z, y);
    lemma_lex_order(y, x, z);
    lemma_lex_order(y, z, x);
    lemma_lex_order(z, x, y);
    lemma_lex_order(z, y, x);
}

/// Both orders of the rows are strict weak orders.
pub proof fn lemma_recap_orders()
    ensures
        strict_weak::<RecapRow, AheadFirst>(),
        strict_weak::<RecapRow, BehindFirst>(),
{
    assert forall|a: RecapRowView, b: RecapRowView| #[trigger] AheadFirst::before(a, b) implies !AheadFirst::before(
        b,
        a,
    ) by {
        lemma_recap_before(a, b, a, false);
    }
    assert forall|a: RecapRowView, b: RecapRowView| #[trigger] BehindFirst::before(a, b) implies !BehindFirst::before(
        b,
        a,
    ) by {
        lemma_recap_before(a, b, a, true);
    }
    assert forall|a: RecapRowView, b: RecapRowView, c: RecapRowView|
        #![trigger AheadFirst::before(b, a), AheadFirst::before(c, b)]
        !AheadFirst::before(b, a) && !AheadFirst::before(c, b) implies !AheadFirst::before(
        c,
        a,
    ) by {
        lemma_recap_before(a, b, c, false);
    }
    assert forall|a: RecapRowView, b: RecapRowView, c: RecapRowView|
        #![trigger BehindFirst::before(b, a), BehindFirst::before(c, b)]
        !BehindFirst::before(b, a) && !BehindFirst::before(c, b) implies !BehindFirst::before(
        c,
        a,
    ) by {
        lemma_recap_before(a, b, c, true);
    }
}

/// The rows of the habits in listing order.
pub open spec fn recap_rows(db: DbView, hs: Seq<HabitView>, range: RecapRange, today: Seq<char>) -> Seq<
    RecapRowView,
> {
    stable_sort::<Habit, ByName>(hs).map_values(|h: HabitView| recap_row(db, h, range, today))
}

/// The recap of the habits: their rows by share, rows of one share in
/// listing order.
pub open spec fn recap_of(
    db: DbView,
    hs: Seq<HabitView>,
    range: RecapRange,
    today: Seq<char>,
    behind_first: bool,
) -> Seq<RecapRowView> {
    if behind_first {
        stable_sort::<RecapRow, BehindFirst>(recap_rows(db, hs, range, today))
    } else {
        stable_sort::<RecapRow, AheadFirst>(recap_rows(db, hs, range, today))
    }
}

/// Build recap rows for given habits over the specified range, those who
/// are behind first where that is asked for.
pub fn build_recap_ordered(
    db: &Db,
    habits: &[Habit],
    range: RecapRange,
    today: &str,
    behind_first: bool,
) -> (r: Result<Vec<RecapRow>, CliError>)
    ensures
        r is Ok <==> is_date(today@),
        r is Ok ==> views_of(r->Ok_0@) == recap_of(
            db@,
            views_of(habits@),
            range,
            today@,
            behind_first,
        ),
        r is Ok ==> if behind_first {
            in_order::<RecapRow, BehindFirst>(views_of(r->Ok_0@))
        } else {
            in_order::<RecapRow, AheadFirst>(views_of(r->Ok_0@))
        },
        r is Err ==> r->Err_0.is_usage(invalid_text("date"@, today@)),
{
    let (first, from) = match range_start(range, today) {
        Ok(p) => p,
        Err(e) => {
            return Err(e);
        },
    };
    let last = match crate::date::parse_day(today, "date") {
        Ok(n) => n,
        Err(e) => {
            return Err(e);
        },
    };
    let sorted = sort_vec::<Habit, ByName>(clone_habits(habits));
    let ghost hs = views_of(sorted@);
    let mut rows: Vec<RecapRow> = Vec::new();
    let mut i: usize = 0;
    while i < sorted.len()
        invariant
            i <= sorted@.len(),
            hs == views_of(sorted@),
            is_date(today@),
            first == range_start_day(range, today@),
            from@ == range_start_text(range, today@),
            last == date_day(today@),
            FIRST_TEXT_DAY - 29 <= first <= last <= LAST_TEXT_DAY,
            rows@.len() == i,
            forall|k: int| 0 <= k < i ==> (#[trigger] rows@[k])@ == recap_row(db@, hs[k], range, today@),
        decreases sorted@.len() - i,
    {
        let h = &sorted[i];
        let results = habit_outcomes(db, h, first, last);
        let t = tally(&results);
        proof {
            crate::tally::lemma_runs(results@);
        }
        rows.push(
            RecapRow {
                habit_id: h.id.clone(),
                name: h.name.clone(),
                period: h.target.period,
                target_label: target_label(h.target.quantity, h.target.period),
                target: h.target.quantity,
                successes: t.successes,
                eligible: t.eligible,
                percent: percent(t.successes, t.eligible),
                range: RecapRangeInfo {
                    kind: range.as_str().to_owned(),
                    from: from.clone(),
                    to: today.to_owned(),
                },
            },
        );
        i += 1;
    }
    assert(views_of(rows@) =~= hs.map_values(|h: HabitView| recap_row(db@, h, range, today@)));
    proof {
        lemma_recap_orders();
    }
    if behind_first {
        Ok(sort_vec::<RecapRow, BehindFirst>(rows))
    } else {
        Ok(sort_vec::<RecapRow, AheadFirst>(rows))
    }
}

/// Build recap rows for given habits over the specified range.
pub fn build_recap(db: &Db, habits: &[Habit], range: RecapRange, today: &str) -> (r: Result<
    Vec<RecapRow>,
    CliError,
>)
    ensures
        r is Ok <==> is_date(today@),
        r is Ok ==> views_of(r->Ok_0@) == recap_of(db@, views_of(habits@), range, today@, false),
        r is Err ==> r->Err_0.is_usage(invalid_text("date"@, today@)),
{
    build_recap_ordered(db, habits, range, today, false)
}

/// The number of filled cells of a bar of `width` cells at `percent`
/// percent: the share of the width, rounded to the nearest cell, a half
/// rounding up, and the whole width at most.
pub open spec fn filled_cells(percent: u32, width: usize) -> nat {
    let cells = (2 * percent * width + 100) / 200;
    if cells > width {
        width as nat
    } else {
        cells as nat
    }
}

/// The bar as it is drawn: hyphens where there is no share, else full
/// blocks for the filled cells and light shade for the rest.
pub open spec fn progress_bar(percent: Option<u32>, width: usize) -> Seq<char> {
    match percent {
        None => repeated('-', width as nat),
        Some(p) => repeated('\u{2588}', filled_cells(p, width)) + repeated(
            '\u{2591}',
            (width - filled_cells(p, width)) as nat,
        ),
    }
}

/// Render a progress bar for table output.
pub fn render_progress_bar(percent: Option<u32>, width: usize) -> (s: String)
    ensures
        s@ == progress_bar(percent, width),
{
    let mut s = String::new();
    match percent {
        None => {
            push_repeated(&mut s, '-', width);
            assert(s@ =~= repeated('-', width as nat));
        },
        Some(p) => {
            assert(2 * p * width + 100 <= 2 * 0xFFFF_FFFF * 0xFFFF_FFFF_FFFF_FFFF + 100)
                by (nonlinear_arith)
                requires
                    p <= 0xFFFF_FFFF,
                    width <= 0xFFFF_FFFF_FFFF_FFFF,
            ;
            let cells: u128 = (2 * (p as u128) * (width as u128) + 100) / 200;
            let filled: usize = if cells > width as u128 {
                width
            } else {
                cells as usize
            };
            push_repeated(&mut s, '\u{2588}', filled);
            push_repeated(&mut s, '\u{2591}', width - filled);
            assert(s@ =~= progress_bar(percent, width));
        },
    }
    s
}

} // verus!
