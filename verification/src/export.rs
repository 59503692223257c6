//! Export: the habits to hand out with their check-ins in a range of
//! dates, and the lines of the files in comma-separated form.

use crate::checkins::{checkin_within, list_checkins_in_range, ByDate};
use crate::date::{date_day, invalid_text, is_date, parse_day, range_order_text};
use crate::error::CliError;
use crate::habits::{list_habits, listed_habits};
use crate::model::{opt_view, views_of, Checkin, CheckinView, Db, DbView, Habit, HabitView};
use crate::schedule::{schedule_text, schedule_to_string};
use crate::seqs::{any_where, keep};
use crate::sorting::stable_sort;
use crate::text::{decimal, join, joined, opt_text, push_decimal, texts_of, to_chars};
use vstd::prelude::*;

verus! {

/// The characters that make a value need quotes.
pub open spec fn needs_quotes() -> spec_fn(char) -> bool {
    |c: char| c == '\n' || c == '\r' || c == '"' || c == ','
}

/// The characters of a value, each quote doubled.
pub open spec fn quotes_doubled(s: Seq<char>) -> Seq<char>
    decreases s.len(),
{
    if s.len() == 0 {
        s
    } else if s.last() == '"' {
        quotes_doubled(s.drop_last()).push('"').push('"')
    } else {
        quotes_doubled(s.drop_last()).push(s.last())
    }
}

/// A value as a field of a line: as it is, or between quotes with its own
/// quotes doubled where it holds a comma, a quote or a line break.
pub open spec fn escaped(value: Seq<char>) -> Seq<char> {
    if any_where(value, needs_quotes()) {
        seq!['"'] + quotes_doubled(value) + seq!['"']
    } else {
        value
    }
}

/// A value as a field of a line.
pub fn csv_escape(value: &str) -> (out: String)
    ensures
        out@ == escaped(value@),
{
    let cs = to_chars(value);
    let mut special = false;
    let mut doubled = String::new();
    let mut i: usize = 0;
    assert(cs@.take(0) =~= Seq::empty());
    while i < cs.len()
        invariant
            i <= cs@.len(),
            special == any_where(cs@.take(i as int), needs_quotes()),
            doubled@ == quotes_doubled(cs@.take(i as int)),
        decreases cs@.len() - i,
    {
        let c = cs[i];
        proof {
            let now = cs@.take(i + 1);
            let before = cs@.take(i as int);
            assert(now.drop_last() =~= before);
            if any_where(before, needs_quotes()) {
                let k = choose|k: int| 0 <= k < before.len() && needs_quotes()(#[trigger] before[k]);
                assert(needs_quotes()(now[k]));
            }
            if needs_quotes()(c) {
                assert(needs_quotes()(now[i as int]));
            }
            if any_where(now, needs_quotes()) {
                let k = choose|k: int| 0 <= k < now.len() && needs_quotes()(#[trigger] now[k]);
                if k < i {
                    assert(needs_quotes()(before[k]));
                }
            }
        }
        if c == '\n' || c == '\r' || c == '"' || c == ',' {
            special = true;
        }
        if c == '"' {
            doubled.push('"');
        }
        doubled.push(c);
        i += 1;
    }
    assert(cs@.take(cs@.len() as int) =~= cs@);
    if special {
        let mut out = String::new();
        out.push('"');
        out.append(doubled.as_str());
        out.push('"');
        assert(out@ =~= escaped(value@));
        out
    } else {
        value.to_owned()
    }
}

/// The values as one line: each as a field, commas between them.
pub open spec fn csv_line(values: Seq<Seq<char>>) -> Seq<char> {
    joined(values.map_values(|v: Seq<char>| escaped(v)), ","@)
}

/// The values as one line.
pub fn to_csv_line(values: &[String]) -> (out: String)
    ensures
        out@ == csv_line(texts_of(values@)),
{
    let mut fields: Vec<String> = Vec::new();
    let mut i: usize = 0;
    while i < values.len()
        invariant
            i <= values@.len(),
            fields@.len() == i,
            forall|k: int| 0 <= k < i ==> (#[trigger] fields@[k])@ == escaped(values@[k]@),
        decreases values@.len() - i,
    {
        fields.push(csv_escape(values[i].as_str()));
        i += 1;
    }
    assert(texts_of(fields@) =~= texts_of(values@).map_values(|v: Seq<char>| escaped(v)));
    join(&fields, ",")
}

/// The text of an optional value: empty where there is none.
pub open spec fn or_empty(o: Option<Seq<char>>) -> Seq<char> {
    match o {
        Some(s) => s,
        None => Seq::empty(),
    }
}

/// The text of a truth value.
pub open spec fn bool_text(b: bool) -> Seq<char> {
    if b {
        "true"@
    } else {
        "false"@
    }
}

/// The values of the line of a habit.
pub open spec fn habit_values(h: HabitView) -> Seq<Seq<char>> {
    seq![
        h.id,
        h.name,
        schedule_text(h.schedule.days),
        h.target.period.text(),
        decimal(h.target.quantity as nat),
        or_empty(h.notes),
        bool_text(h.archived),
        h.created_date,
        or_empty(h.archived_date),
    ]
}

/// The values of the line of a check-in.
pub open spec fn checkin_values(c: CheckinView) -> Seq<Seq<char>> {
    seq![c.habit_id, c.date, decimal(c.quantity as nat)]
}

/// The names of the columns of the habits.
pub open spec fn habit_columns() -> Seq<Seq<char>> {
    seq![
        "id"@,
        "name"@,
        "schedule"@,
        "period"@,
        "target"@,
        "notes"@,
        "archived"@,
        "created_date"@,
        "archived_date"@,
    ]
}

/// The names of the columns of the check-ins.
pub open spec fn checkin_columns() -> Seq<Seq<char>> {
    seq!["habit_id"@, "date"@, "quantity"@]
}

/// Lines as the text of a file: each line ended by a line break.
pub open spec fn file_text(lines: Seq<Seq<char>>) -> Seq<char> {
    joined(lines, "\n"@) + "\n"@
}

/// The file of the habits: the names of the columns, then a line for each
/// habit.
pub open spec fn habits_file(hs: Seq<HabitView>) -> Seq<char> {
    file_text(
        seq![csv_line(habit_columns())] + hs.map_values(|h: HabitView| csv_line(habit_values(h))),
    )
}

/// The file of the check-ins: the names of the columns, then a line for
/// each check-in.
pub open spec fn checkins_file(cs: Seq<CheckinView>) -> Seq<char> {
    file_text(
        seq![csv_line(checkin_columns())] + cs.map_values(
            |c: CheckinView| csv_line(checkin_values(c)),
        ),
    )
}

/// The decimal numeral of a number.
fn number_text(n: u32) -> (s: String)
    ensures
        s@ == decimal(n as nat),
{
    let mut s = String::new();
    push_decimal(&mut s, n as u64, 0);
    s
}

/// The text of an optional value.
fn text_or_empty(o: &Option<String>) -> (s: String)
    ensures
        s@ == or_empty(opt_view(*o)),
{
    match o {
        Some(t) => t.clone(),
        None => String::new(),
    }
}

/// Lines as the text of a file.
fn file_of(lines: &Vec<String>) -> (s: String)
    ensures
        s@ == file_text(texts_of(lines@)),
{
    let mut s = join(lines, "\n");
    s.append("\n");
    s
}

/// The text of the file of the habits.
pub fn habits_csv(habits: &[Habit]) -> (out: String)
    ensures
        out@ == habits_file(views_of(habits@)),
{
    let mut header: Vec<String> = Vec::new();
    header.push("id".to_owned());
    header.push("name".to_owned());
    header.push("schedule".to_owned());
    header.push("period".to_owned());
    header.push("target".to_owned());
    header.push("notes".to_owned());
    header.push("archived".to_owned());
    header.push("created_date".to_owned());
    header.push("archived_date".to_owned());
    assert(texts_of(header@) =~= habit_columns());
    let mut lines: Vec<String> = Vec::new();
    lines.push(to_csv_line(header.as_slice()));
    let ghost hs = views_of(habits@);
    let mut i: usize = 0;
    while i < habits.len()
        invariant
            i <= habits@.len(),
            hs == views_of(habits@),
            lines@.len() == i + 1,
            lines@[0]@ == csv_line(habit_columns()),
            forall|j: int|
                1 <= j <= i ==> (#[trigger] lines@[j])@ == csv_line(habit_values(hs[j - 1])),
        decreases habits@.len() - i,
    {
        let h = &habits[i];
        let mut values: Vec<String> = Vec::new();
        values.push(h.id.clone());
        values.push(h.name.clone());
        values.push(schedule_to_string(&h.schedule));
        values.push(h.target.period.as_str().to_owned());
        values.push(number_text(h.target.quantity));
        values.push(text_or_empty(&h.notes));
        values.push(
            if h.archived {
                "true".to_owned()
            } else {
                "false".to_owned()
            },
        );
        values.push(h.created_date.clone());
        values.push(text_or_empty(&h.archived_date));
        assert(texts_of(values@) =~= habit_values(hs[i as int]));
        lines.push(to_csv_line(values.as_slice()));
        i += 1;
    }
    let ghost body = hs.map_values(|h: HabitView| csv_line(habit_values(h)));
    let ghost want = seq![csv_line(habit_columns())] + body;
    assert forall|j: int| 0 <= j < want.len() implies texts_of(lines@)[j] == want[j] by {
        if j >= 1 {
            assert(want[j] == body[j - 1]);
        }
    }
    assert(texts_of(lines@) =~= want);
    file_of(&lines)
}

/// The text of the file of the check-ins.
pub fn checkins_csv(checkins: &[Checkin]) -> (out: String)
    ensures
        out@ == checkins_file(views_of(checkins@)),
{
    let mut header: Vec<String> = Vec::new();
    header.push("habit_id".to_owned());
    header.push("date".to_owned());
    header.push("quantity".to_owned());
    assert(texts_of(header@) =~= checkin_columns());
    let mut lines: Vec<String> = Vec::new();
    lines.push(to_csv_line(header.as_slice()));
    let ghost cs = views_of(checkins@);
    let mut i: usize = 0;
    while i < checkins.len()
        invariant
            i <= checkins@.len(),
            cs == views_of(checkins@),
            lines@.len() == i + 1,
            lines@[0]@ == csv_line(checkin_columns()),
            forall|j: int|
                1 <= j <= i ==> (#[trigger] lines@[j])@ == csv_line(checkin_values(cs[j - 1])),
        decreases checkins@.len() - i,
    {
        let c = &checkins[i];
        let mut values: Vec<String> = Vec::new();
        values.push(c.habit_id.clone());
        values.push(c.date.clone());
        values.push(number_text(c.quantity));
        assert(texts_of(values@) =~= checkin_values(cs[i as int]));
        lines.push(to_csv_line(values.as_slice()));
        i += 1;
    }
    let ghost body = cs.map_values(|c: CheckinView| csv_line(checkin_values(c)));
    let ghost want = seq![csv_line(checkin_columns())] + body;
    assert forall|j: int| 0 <= j < want.len() implies texts_of(lines@)[j] == want[j] by {
        if j >= 1 {
            assert(want[j] == body[j - 1]);
        }
    }
    assert(texts_of(lines@) =~= want);
    file_of(&lines)
}

/// What is handed out: the habits and their check-ins.
#[derive(Debug)]
pub struct ExportPayload {
    pub version: u32,
    pub habits: Vec<Habit>,
    pub checkins: Vec<Checkin>,
}

/// The first fault of the bounds of an export, as its error message, or
/// `None`.
pub open spec fn bounds_fault(from: Option<Seq<char>>, to: Option<Seq<char>>) -> Option<Seq<char>> {
    if from is Some && !is_date(from->0) {
        Some(invalid_text("from"@, from->0))
    } else if to is Some && !is_date(to->0) {
        Some(invalid_text("to"@, to->0))
    } else if from is Some && to is Some && date_day(from->0) > date_day(to->0) {
        Some(range_order_text())
    } else {
        None
    }
}

/// The identifiers of habits.
pub open spec fn ids_of(hs: Seq<HabitView>) -> Seq<Seq<char>> {
    hs.map_values(|h: HabitView| h.id)
}

/// The check-ins that go out with the habits `hs`: those of these habits
/// within the bounds, by date.
pub open spec fn exported_checkins(
    db: DbView,
    hs: Seq<HabitView>,
    from: Option<Seq<char>>,
    to: Option<Seq<char>>,
) -> Seq<CheckinView> {
    stable_sort::<Checkin, ByDate>(
        keep(db.checkins, checkin_within(from, to, Some(ids_of(hs)))),
    )
}

/// The habits to hand out, in listing order, with their check-ins from
/// `from` to `to`, as far as the bounds are given.
pub fn export(db: &Db, from: Option<&str>, to: Option<&str>, include_archived: bool) -> (r: Result<
    ExportPayload,
    CliError,
>)
    ensures
        r is Ok <==> bounds_fault(opt_text(from), opt_text(to))
            is None,
        r is Ok ==> {
            let hs = listed_habits(db@.habits, include_archived);
            &&& r->Ok_0.version == 1
            &&& views_of(r->Ok_0.habits@) == hs
            &&& views_of(r->Ok_0.checkins@) == exported_checkins(
                db@,
                hs,
                opt_text(from),
                opt_text(to),
            )
        },
        r is Err ==> r->Err_0.is_usage(
            bounds_fault(opt_text(from), opt_text(to))->0,
        ),
{
    let first = match from {
        Some(f) => match parse_day(f, "from") {
            Ok(n) => Some(n),
            Err(e) => {
                return Err(e);
            },
        },
        None => None,
    };
    let last = match to {
        Some(t) => match parse_day(t, "to") {
            Ok(n) => Some(n),
            Err(e) => {
                return Err(e);
            },
        },
        None => None,
    };
    match (first, last) {
        (Some(a), Some(b)) => {
            if a > b {
                return Err(CliError::usage("Invalid range: from > to"));
            }
        },
        _ => {},
    }
    let habits = list_habits(db, include_archived);
    let mut ids: Vec<String> = Vec::new();
    let mut i: usize = 0;
    while i < habits.len()
        invariant
            i <= habits@.len(),
            ids@.len() == i,
            forall|k: int| 0 <= k < i ==> (#[trigger] ids@[k])@ == habits@[k]@.id,
        decreases habits@.len() - i,
    {
        ids.push(habits[i].id.clone());
        i += 1;
    }
    assert(texts_of(ids@) =~= ids_of(views_of(habits@)));
    let checkins = list_checkins_in_range(db, from, to, Some(&ids));
    Ok(ExportPayload { version: 1, habits, checkins })
}

} // verus!
