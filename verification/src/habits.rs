//! Habits: their names and identifiers, the order in which they are listed,
//! how a selector picks one, and when one is scheduled.

use crate::date::{
    date_day, day_text, lemma_date_reads_back, invalid_text, is_date, iso_weekday, weekday_from_days, weekday_of_day,
    MAX_DAY, MIN_DAY,
};
use crate::error::CliError;
use crate::model::{views_of, Db, DbView, Habit, HabitView, Meta, Period, Target};
use crate::schedule::{
    bad_pattern_text, lists_days, parse_schedule_pattern, pattern_days, schedule_kind,
};
use crate::seqs::{first_where, keep, lemma_first_where_is};
use crate::sorting::{in_order, sort_vec, stable_sort, strict_weak, Order};
use crate::text::{
    chars_start_with, is_digit, is_prefix, join, joined, lemma_lex_order, lex_lt, opt_text, lowercase_of, push_decimal, str_eq,
    str_lt, texts_of, to_chars, trim, trimmed, zero_padded,
};
use std::cmp::Ordering;
use vstd::prelude::*;

verus! {

/// A name without the white space around it.
pub fn normalize_name(name: &str) -> (n: String)
    ensures
        n@ == trimmed(name@),
{
    trim(name)
}

/// The name of a habit, trimmed; a blank name is refused.
pub fn validate_habit_name(name: &str) -> (r: Result<String, CliError>)
    ensures
        r is Ok <==> trimmed(name@).len() > 0,
        r is Ok ==> r->Ok_0@ == trimmed(name@),
        r is Err ==> r->Err_0.is_usage("Habit name is required"@),
{
    let n = normalize_name(name);
    if n.as_str().unicode_len() == 0 {
        return Err(CliError::usage("Habit name is required"));
    }
    Ok(n)
}

/// An identifier: a prefix and a number, padded with zeros to a width.
pub open spec fn id_text(prefix: Seq<char>, n: u32, width: nat) -> Seq<char> {
    prefix + zero_padded(n as nat, width)
}

/// The identifier made of `prefix` and `n`.
pub fn make_id(prefix: &str, n: u32, width: usize) -> (id: String)
    ensures
        id@ == id_text(prefix@, n, width as nat),
{
    let mut id = prefix.to_owned();
    push_decimal(&mut id, n as u64, width);
    id
}

/// Draws the next habit identifier, `h` and four digits or more.
pub fn next_habit_id(db: &mut Db) -> (id: String)
    requires
        old(db).meta.next_habit_number < u32::MAX,
    ensures
        id@ == id_text("h"@, old(db).meta.next_habit_number, 4),
        final(db)@ == (DbView {
            meta: Meta {
                next_habit_number: (old(db).meta.next_habit_number + 1) as u32,
                ..old(db).meta
            },
            ..old(db)@
        }),
{
    let n = db.meta.next_habit_number;
    let id = make_id("h", n, 4);
    db.meta.next_habit_number = n + 1;
    id
}

/// Whether `a` is listed before `b`: by name without regard to case, and
/// among equal names by identifier.
pub open spec fn habit_before(a: HabitView, b: HabitView) -> bool {
    let an = lowercase_of(a.name);
    let bn = lowercase_of(b.name);
    if an != bn {
        lex_lt(an, bn)
    } else {
        lex_lt(a.id, b.id)
    }
}

/// Whether `a` is listed before `b`.
pub fn is_habit_before(a: &Habit, b: &Habit) -> (r: bool)
    ensures
        r == habit_before(a@, b@),
{
    let an = a.name.as_str().to_lowercase();
    let bn = b.name.as_str().to_lowercase();
    if an != bn {
        str_lt(an.as_str(), bn.as_str())
    } else {
        str_lt(a.id.as_str(), b.id.as_str())
    }
}

/// Compares two habits in listing order.
pub fn stable_habit_sort(a: &Habit, b: &Habit) -> (o: Ordering)
    ensures
        o == Ordering::Less <==> habit_before(a@, b@),
        o == Ordering::Greater <==> !habit_before(a@, b@) && habit_before(b@, a@),
{
    if is_habit_before(a, b) {
        Ordering::Less
    } else if is_habit_before(b, a) {
        Ordering::Greater
    } else {
        Ordering::Equal
    }
}

/// The order in which habits are listed.
pub struct ByName;

impl Order<Habit> for ByName {
    open spec fn before(a: HabitView, b: HabitView) -> bool {
        habit_before(a, b)
    }

    fn is_before(a: &Habit, b: &Habit) -> (r: bool) {
        is_habit_before(a, b)
    }
}

/// The listing order is a strict weak order.
pub proof fn lemma_by_name_order()
    ensures
        strict_weak::<Habit, ByName>(),
{
    assert forall|a: HabitView, b: HabitView| #[trigger] ByName::before(a, b) implies !ByName::before(
        b,
        a,
    ) by {
        let c = a;
        lemma_lex_order(lowercase_of(a.name), lowercase_of(b.name), lowercase_of(c.name));
        lemma_lex_order(lowercase_of(a.name), lowercase_of(c.name), lowercase_of(b.name));
        lemma_lex_order(lowercase_of(b.name), lowercase_of(a.name), lowercase_of(c.name));
        lemma_lex_order(lowercase_of(b.name), lowercase_of(c.name), lowercase_of(a.name));
        lemma_lex_order(lowercase_of(c.name), lowercase_of(a.name), lowercase_of(b.name));
        lemma_lex_order(lowercase_of(c.name), lowercase_of(b.name), lowercase_of(a.name));
        lemma_lex_order(a.id, b.id, c.id);
        lemma_lex_order(a.id, c.id, b.id);
        lemma_lex_order(b.id, a.id, c.id);
        lemma_lex_order(b.id, c.id, a.id);
        lemma_lex_order(c.id, a.id, b.id);
        lemma_lex_order(c.id, b.id, a.id);
    }
    assert forall|a: HabitView, b: HabitView, c: HabitView|
        #![trigger ByName::before(b, a), ByName::before(c, b)]
        !ByName::before(b, a) && !ByName::before(c, b) implies !ByName::before(c, a) by {
        lemma_lex_order(lowercase_of(a.name), lowercase_of(b.name), lowercase_of(c.name));
        lemma_lex_order(lowercase_of(a.name), lowercase_of(c.name), lowercase_of(b.name));
        lemma_lex_order(lowercase_of(b.name), lowercase_of(a.name), lowercase_of(c.name));
        lemma_lex_order(lowercase_of(b.name), lowercase_of(c.name), lowercase_of(a.name));
        lemma_lex_order(lowercase_of(c.name), lowercase_of(a.name), lowercase_of(b.name));
        lemma_lex_order(lowercase_of(c.name), lowercase_of(b.name), lowercase_of(a.name));
        lemma_lex_order(a.id, b.id, c.id);
        lemma_lex_order(a.id, c.id, b.id);
        lemma_lex_order(b.id, a.id, c.id);
        lemma_lex_order(b.id, c.id, a.id);
        lemma_lex_order(c.id, a.id, b.id);
        lemma_lex_order(c.id, b.id, a.id);
    }
}

/// The habits that are shown: all of them, or those not archived.
pub open spec fn visible(include_archived: bool) -> spec_fn(HabitView) -> bool {
    |h: HabitView| include_archived || !h.archived
}

/// The habits to show, in listing order.
pub open spec fn listed_habits(habits: Seq<HabitView>, include_archived: bool) -> Seq<HabitView> {
    stable_sort::<Habit, ByName>(keep(habits, visible(include_archived)))
}

/// The habits to show, in listing order.
pub fn list_habits(db: &Db, include_archived: bool) -> (out: Vec<Habit>)
    ensures
        views_of(out@) == listed_habits(db@.habits, include_archived),
        in_order::<Habit, ByName>(views_of(out@)),
{
    let ghost p = visible(include_archived);
    let ghost all = db@.habits;
    let mut picked: Vec<Habit> = Vec::new();
    let mut i: usize = 0;
    assert(all.take(0) =~= Seq::empty());
    assert(views_of(picked@) =~= keep(all.take(0), p));
    while i < db.habits.len()
        invariant
            i <= db.habits@.len(),
            all == db@.habits,
            p == visible(include_archived),
            views_of(picked@) == keep(all.take(i as int), p),
        decreases db.habits@.len() - i,
    {
        proof {
            assert(all.take(i + 1).drop_last() =~= all.take(i as int));
        }
        let ghost before = views_of(picked@);
        if include_archived || !db.habits[i].archived {
            picked.push(db.habits[i].clone());
            assert(views_of(picked@) =~= before.push(all[i as int]));
        }
        i += 1;
    }
    assert(all.take(all.len() as int) =~= all);
    proof {
        lemma_by_name_order();
    }
    sort_vec::<Habit, ByName>(picked)
}

/// Whether a selector has the shape of an identifier: `h` and four digits.
pub open spec fn id_shaped(s: Seq<char>) -> bool {
    &&& s.len() == 5
    &&& s[0] == 'h'
    &&& is_digit(s[1])
    &&& is_digit(s[2])
    &&& is_digit(s[3])
    &&& is_digit(s[4])
}

/// The habits with the given identifier.
pub open spec fn has_id(id: Seq<char>) -> spec_fn(HabitView) -> bool {
    |h: HabitView| h.id == id
}

/// The shown habits whose name, in lowercase, starts with `prefix`.
pub open spec fn name_starts(prefix: Seq<char>, include_archived: bool) -> spec_fn(HabitView) -> bool {
    |h: HabitView| (include_archived || !h.archived) && is_prefix(prefix, lowercase_of(h.name))
}

/// The message for a selector that picks no habit.
pub open spec fn not_found_text(selector: Seq<char>) -> Seq<char> {
    "Habit not found: "@ + selector
}

/// A habit as a candidate is named: identifier, space, name.
pub open spec fn candidate_text(h: HabitView) -> Seq<char> {
    h.id + " "@ + h.name
}

/// The message for a selector that picks several habits, which it names
/// in listing order.
pub open spec fn ambiguous_text(selector: Seq<char>, matches: Seq<HabitView>) -> Seq<char> {
    "Ambiguous selector '"@ + selector + "'. Candidates: "@ + joined(
        stable_sort::<Habit, ByName>(matches).map_values(|h: HabitView| candidate_text(h)),
        ", "@,
    )
}

/// What a selector picks among the habits.
pub open spec fn selects(
    habits: Seq<HabitView>,
    selector: Seq<char>,
    include_archived: bool,
    r: Result<usize, CliError>,
) -> bool {
    let s = trimmed(selector);
    if s.len() == 0 {
        r is Err && r->Err_0.is_usage("Habit selector is required"@)
    } else if id_shaped(s) {
        let i = first_where(habits, has_id(s));
        if i < habits.len() && (include_archived || !habits[i].archived) {
            r == Ok::<usize, CliError>(i as usize)
        } else {
            r is Err && r->Err_0.is_not_found(not_found_text(selector))
        }
    } else {
        let p = name_starts(lowercase_of(s), include_archived);
        let matches = keep(habits, p);
        if matches.len() == 0 {
            r is Err && r->Err_0.is_not_found(not_found_text(selector))
        } else if matches.len() == 1 {
            r == Ok::<usize, CliError>(first_where(habits, p) as usize)
        } else {
            &&& r is Err
            &&& r->Err_0.exit_code == crate::error::EXIT_AMBIGUOUS
            &&& r->Err_0.message@ == ambiguous_text(selector, matches)
        }
    }
}

/// Whether `c` is one of `0` to `9`.
fn is_digit_char(c: char) -> (r: bool)
    ensures
        r == is_digit(c),
{
    let n: u32 = c as u32;
    0x30 <= n && n <= 0x39
}

/// The error for a selector that picks no habit.
fn not_found(selector: &str) -> (e: CliError)
    ensures
        e.is_not_found(not_found_text(selector@)),
{
    let mut message = "Habit not found: ".to_owned();
    message.append(selector);
    CliError { message, exit_code: crate::error::EXIT_NOT_FOUND }
}

/// The first habit with the given identifier.
pub fn find_habit_by_id(db: &Db, id: &str) -> (r: Option<usize>)
    ensures
        match r {
            Some(i) => i == first_where(db@.habits, has_id(id@)) && i < db.habits@.len(),
            None => first_where(db@.habits, has_id(id@)) == db@.habits.len(),
        },
{
    let key = id.to_owned();
    let ghost p = has_id(id@);
    let mut i: usize = 0;
    while i < db.habits.len()
        invariant
            i <= db.habits@.len(),
            key@ == id@,
            p == has_id(id@),
            forall|k: int| 0 <= k < i ==> !p(#[trigger] db@.habits[k]),
        decreases db.habits@.len() - i,
    {
        if db.habits[i].id == key {
            proof {
                assert(p(db@.habits[i as int]));
                lemma_first_where_is(db@.habits, p, i as int);
            }
            return Some(i);
        }
        i += 1;
    }
    proof {
        lemma_first_where_is(db@.habits, p, i as int);
    }
    None
}

/// The names of the candidates, in order.
fn candidate_texts(sorted: &Vec<Habit>) -> (out: Vec<String>)
    ensures
        texts_of(out@) == views_of(sorted@).map_values(|h: HabitView| candidate_text(h)),
{
    let mut out: Vec<String> = Vec::new();
    let mut i: usize = 0;
    while i < sorted.len()
        invariant
            i <= sorted@.len(),
            out@.len() == i,
            forall|k: int| 0 <= k < i ==> (#[trigger] out@[k])@ == candidate_text(sorted@[k]@),
        decreases sorted@.len() - i,
    {
        let mut t = sorted[i].id.clone();
        t.append(" ");
        t.append(sorted[i].name.as_str());
        out.push(t);
        i += 1;
    }
    assert(texts_of(out@) =~= views_of(sorted@).map_values(|h: HabitView| candidate_text(h)));
    out
}

/// The index of the habit that a selector picks: the one with that
/// identifier, or the only one whose name starts with the selector.
pub fn select_habit_index(db: &Db, selector: &str, include_archived: bool) -> (r: Result<
    usize,
    CliError,
>)
    ensures
        selects(db@.habits, selector@, include_archived, r),
{
    let s = trim(selector);
    let cs = to_chars(s.as_str());
    if cs.len() == 0 {
        return Err(CliError::usage("Habit selector is required"));
    }
    if cs.len() == 5 && cs[0] == 'h' && is_digit_char(cs[1]) && is_digit_char(cs[2])
        && is_digit_char(cs[3]) && is_digit_char(cs[4]) {
        return match find_habit_by_id(db, s.as_str()) {
            Some(i) => {
                if !include_archived && db.habits[i].archived {
                    Err(not_found(selector))
                } else {
                    Ok(i)
                }
            },
            None => Err(not_found(selector)),
        };
    }
    let prefix = s.as_str().to_lowercase();
    let prefix_chars = to_chars(prefix.as_str());
    let ghost p = name_starts(prefix@, include_archived);
    let ghost all = db@.habits;
    let mut picked: Vec<Habit> = Vec::new();
    let mut first: usize = db.habits.len();
    let mut i: usize = 0;
    assert(all.take(0) =~= Seq::empty());
    assert(views_of(picked@) =~= keep(all.take(0), p));
    while i < db.habits.len()
        invariant
            i <= db.habits@.len(),
            all == db@.habits,
            prefix_chars@ == prefix@,
            p == name_starts(prefix@, include_archived),
            views_of(picked@) == keep(all.take(i as int), p),
            picked@.len() == 0 ==> first == db.habits@.len(),
            picked@.len() > 0 ==> first < i && p(all[first as int]),
            forall|k: int| 0 <= k < i && k < first ==> !p(#[trigger] all[k]),
        decreases db.habits@.len() - i,
    {
        proof {
            assert(all.take(i + 1).drop_last() =~= all.take(i as int));
        }
        let ghost before = views_of(picked@);
        let h = &db.habits[i];
        let mut hit = false;
        if include_archived || !h.archived {
            let lowered = h.name.as_str().to_lowercase();
            let name_chars = to_chars(lowered.as_str());
            hit = chars_start_with(&name_chars, &prefix_chars);
        }
        if hit {
            if picked.len() == 0 {
                first = i;
            }
            picked.push(h.clone());
            assert(views_of(picked@) =~= before.push(all[i as int]));
        }
        i += 1;
    }
    assert(all.take(all.len() as int) =~= all);
    if picked.len() == 0 {
        return Err(not_found(selector));
    }
    if picked.len() > 1 {
        let sorted = sort_vec::<Habit, ByName>(picked);
        let names = candidate_texts(&sorted);
        let mut message = "Ambiguous selector '".to_owned();
        message.append(selector);
        message.append("'. Candidates: ");
        let list = join(&names, ", ");
        message.append(list.as_str());
        return Err(CliError { message, exit_code: crate::error::EXIT_AMBIGUOUS });
    }
    proof {
        lemma_first_where_is(all, p, first as int);
    }
    Ok(first)
}

/// The period that a name stands for.
pub open spec fn period_of(s: Seq<char>) -> Option<Period> {
    if s == "day"@ {
        Some(Period::Day)
    } else if s == "week"@ {
        Some(Period::Week)
    } else {
        None
    }
}

/// The period that a name stands for.
pub fn parse_period(s: &str) -> (r: Option<Period>)
    ensures
        r == period_of(s@),
{
    if str_eq(s, "day") {
        Some(Period::Day)
    } else if str_eq(s, "week") {
        Some(Period::Week)
    } else {
        None
    }
}

/// The first fault of the input to a new habit, as its error message, or
/// `None` where the habit can be made.
pub open spec fn habit_fault(
    name: Seq<char>,
    schedule_pattern: Seq<char>,
    period: Seq<char>,
    target: u32,
) -> Option<Seq<char>> {
    let p = lowercase_of(trimmed(schedule_pattern));
    if trimmed(name).len() == 0 {
        Some("Habit name is required"@)
    } else if p.len() == 0 || pattern_days(p) is None {
        Some(bad_pattern_text(p, schedule_pattern))
    } else if period_of(period) is None {
        Some(invalid_text("period"@, period))
    } else if target < 1 {
        Some("Invalid target"@)
    } else {
        None
    }
}

/// Whether `h` is the new habit that the input describes.
pub open spec fn is_new_habit(
    h: HabitView,
    id: Seq<char>,
    name: Seq<char>,
    schedule_pattern: Seq<char>,
    period: Seq<char>,
    target: u32,
    notes: Option<Seq<char>>,
    today: Seq<char>,
    needs_declaration: bool,
    excuse_quota_per_week: u32,
) -> bool {
    &&& h.id == id
    &&& h.name == trimmed(name)
    &&& h.schedule.kind == schedule_kind()
    &&& lists_days(h.schedule.days, pattern_days(lowercase_of(trimmed(schedule_pattern)))->0)
    &&& period_of(period) == Some(h.target.period)
    &&& h.target.quantity == target
    &&& h.notes == notes
    &&& !h.archived
    &&& h.created_date == today
    &&& h.archived_date is None
    &&& h.needs_declaration == needs_declaration
    &&& h.excuse_quota_per_week == excuse_quota_per_week
}

/// Makes a habit from checked input: the name trimmed, the schedule read
/// from its pattern, a target of 1 or more.
pub fn make_habit(
    id: String,
    name: &str,
    schedule_pattern: &str,
    period: &str,
    target: u32,
    notes: Option<&str>,
    today: &str,
    needs_declaration: bool,
    excuse_quota_per_week: u32,
) -> (r: Result<Habit, CliError>)
    ensures
        r is Ok <==> habit_fault(name@, schedule_pattern@, period@, target) is None,
        r is Ok ==> is_new_habit(
            r->Ok_0@,
            id@,
            name@,
            schedule_pattern@,
            period@,
            target,
            opt_text(notes),
            today@,
            needs_declaration,
            excuse_quota_per_week,
        ),
        r is Err ==> r->Err_0.is_usage(
            habit_fault(name@, schedule_pattern@, period@, target)->0,
        ),
{
    let habit_name = match validate_habit_name(name) {
        Ok(n) => n,
        Err(e) => {
            return Err(e);
        },
    };
    let schedule = match parse_schedule_pattern(schedule_pattern) {
        Ok(s) => s,
        Err(e) => {
            return Err(e);
        },
    };
    let period_kind = match parse_period(period) {
        Some(p) => p,
        None => {
            return Err(crate::date::invalid_input("period", period));
        },
    };
    if target < 1 {
        return Err(CliError::usage("Invalid target"));
    }
    let notes = match notes {
        Some(s) => Some(s.to_owned()),
        None => None,
    };
    Ok(
        Habit {
            id,
            name: habit_name,
            schedule,
            target: Target { period: period_kind, quantity: target },
            notes,
            archived: false,
            created_date: today.to_owned(),
            archived_date: None,
            needs_declaration,
            excuse_quota_per_week,
        },
    )
}

/// Whether a habit is scheduled on a date: never before it was created,
/// then on the weekdays of its schedule.
pub open spec fn scheduled_on(h: HabitView, date: Seq<char>) -> bool {
    &&& !lex_lt(date, h.created_date)
    &&& is_date(date)
    &&& lists_weekday(h.schedule.days, weekday_of_day(date_day(date)))
}

/// Whether `days` lists the weekday `wd`.
pub open spec fn lists_weekday(days: Seq<u8>, wd: int) -> bool {
    exists|i: int| 0 <= i < days.len() && #[trigger] days[i] == wd
}

/// Whether `days` lists the weekday `wd`.
pub fn has_weekday(days: &Vec<u8>, wd: u8) -> (r: bool)
    ensures
        r == lists_weekday(days@, wd as int),
{
    let mut i: usize = 0;
    while i < days.len()
        invariant
            i <= days@.len(),
            forall|k: int| 0 <= k < i ==> days@[k] != wd,
        decreases days@.len() - i,
    {
        if days[i] == wd {
            return true;
        }
        i += 1;
    }
    false
}

/// Whether a habit is scheduled on a date.
pub fn is_scheduled_on(habit: &Habit, date: &str) -> (r: Result<bool, CliError>)
    ensures
        r is Ok <==> lex_lt(date@, habit@.created_date) || is_date(date@),
        r is Ok ==> r->Ok_0 == scheduled_on(habit@, date@),
        r is Err ==> r->Err_0.is_usage(invalid_text("date"@, date@)),
{
    if str_lt(date, habit.created_date.as_str()) {
        return Ok(false);
    }
    match iso_weekday(date) {
        Ok(wd) => Ok(has_weekday(&habit.schedule.days, wd)),
        Err(e) => Err(e),
    }
}

/// Whether a habit is scheduled on the day with number `n`.
pub open spec fn scheduled_on_day(h: HabitView, n: int) -> bool {
    !lex_lt(day_text(n), h.created_date) && lists_weekday(h.schedule.days, weekday_of_day(n))
}

/// For a date, being scheduled on the date and being scheduled on its day
/// are one thing.
pub proof fn lemma_scheduled_on_day(h: HabitView, date: Seq<char>)
    requires
        is_date(date),
    ensures
        scheduled_on(h, date) == scheduled_on_day(h, date_day(date)),
{
    lemma_date_reads_back(date);
}

/// Whether a habit is scheduled on the day with number `n`, `text` being
/// the text of that day.
pub fn is_scheduled_on_day(habit: &Habit, n: i64, text: &str) -> (r: bool)
    requires
        MIN_DAY <= n <= MAX_DAY,
        text@ == day_text(n as int),
    ensures
        r == scheduled_on_day(habit@, n as int),
{
    if str_lt(text, habit.created_date.as_str()) {
        return false;
    }
    has_weekday(&habit.schedule.days, weekday_from_days(n))
}

/// The habit at `index` as archived on `today`: the date of an earlier
/// archiving stays.
pub open spec fn archived_habit(h: HabitView, today: Seq<char>) -> HabitView {
    HabitView {
        archived: true,
        archived_date: if h.archived_date is None {
            Some(today)
        } else {
            h.archived_date
        },
        ..h
    }
}

/// The habit taken out of the archive.
pub open spec fn unarchived_habit(h: HabitView) -> HabitView {
    HabitView { archived: false, archived_date: None, ..h }
}

/// Archives the habit at `index`.
pub fn archive_habit(db: &mut Db, index: usize, today: &str) -> (out: Habit)
    requires
        index < old(db).habits@.len(),
    ensures
        out@ == archived_habit(old(db)@.habits[index as int], today@),
        final(db)@ == (DbView {
            habits: old(db)@.habits.update(index as int, out@),
            ..old(db)@
        }),
{
    let ghost before = db@;
    let mut habit = db.habits[index].clone();
    habit.archived = true;
    if habit.archived_date.is_none() {
        habit.archived_date = Some(today.to_owned());
    }
    let out = habit.clone();
    db.habits.set(index, habit);
    assert(db@.habits =~= before.habits.update(index as int, out@));
    out
}

/// Takes the habit at `index` out of the archive.
pub fn unarchive_habit(db: &mut Db, index: usize) -> (out: Habit)
    requires
        index < old(db).habits@.len(),
    ensures
        out@ == unarchived_habit(old(db)@.habits[index as int]),
        final(db)@ == (DbView {
            habits: old(db)@.habits.update(index as int, out@),
            ..old(db)@
        }),
{
    let ghost before = db@;
    let mut habit = db.habits[index].clone();
    habit.archived = false;
    habit.archived_date = None;
    let out = habit.clone();
    db.habits.set(index, habit);
    assert(db@.habits =~= before.habits.update(index as int, out@));
    out
}

/// The store after a habit is added: the habit behind the others, and the
/// next habit number drawn.
pub open spec fn with_habit(db: DbView, h: HabitView) -> DbView {
    DbView {
        meta: Meta { next_habit_number: (db.meta.next_habit_number + 1) as u32, ..db.meta },
        habits: db.habits.push(h),
        ..db
    }
}

/// Makes a habit under the next identifier and adds it to the store.
pub fn add_habit(
    db: &mut Db,
    name: &str,
    schedule_pattern: &str,
    period: &str,
    target: u32,
    notes: Option<&str>,
    today: &str,
    needs_declaration: bool,
    excuse_quota_per_week: u32,
) -> (r: Result<Habit, CliError>)
    requires
        old(db).meta.next_habit_number < u32::MAX,
    ensures
        r is Ok <==> habit_fault(name@, schedule_pattern@, period@, target) is None,
        r is Ok ==> {
            &&& is_new_habit(
                r->Ok_0@,
                id_text("h"@, old(db).meta.next_habit_number, 4),
                name@,
                schedule_pattern@,
                period@,
                target,
                opt_text(notes),
                today@,
                needs_declaration,
                excuse_quota_per_week,
            )
            &&& final(db)@ == with_habit(old(db)@, r->Ok_0@)
        },
        r is Err ==> {
            &&& final(db)@ == old(db)@
            &&& r->Err_0.is_usage(habit_fault(name@, schedule_pattern@, period@, target)->0)
        },
{
    let id = make_id("h", db.meta.next_habit_number, 4);
    let habit = match make_habit(
        id,
        name,
        schedule_pattern,
        period,
        target,
        notes,
        today,
        needs_declaration,
        excuse_quota_per_week,
    ) {
        Ok(h) => h,
        Err(e) => {
            return Err(e);
        },
    };
    let ghost before = db@;
    let out = habit.clone();
    db.meta.next_habit_number = db.meta.next_habit_number + 1;
    db.habits.push(habit);
    assert(db@.habits =~= before.habits.push(out@));
    Ok(out)
}

} // verus!
