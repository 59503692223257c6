//! Check-ins: the recorded quantity of a habit on a date, at most one
//! record for each habit and date.

use crate::date::{invalid_text, is_date, parse_date_string};
use crate::error::CliError;
use crate::model::{views_of, Checkin, CheckinView, Db, DbView};
use crate::seqs::{any_where, first_where, keep, lemma_first_where, lemma_first_where_is};
use crate::sorting::{in_order, sort_vec, stable_sort, strict_weak, Order};
use crate::text::{lemma_lex_order, lex_le, lex_lt, opt_text, str_le, str_lt};
use vstd::prelude::*;

verus! {

/// The check-ins of one habit on one date.
pub open spec fn checkin_at(habit_id: Seq<char>, date: Seq<char>) -> spec_fn(CheckinView) -> bool {
    |c: CheckinView| c.habit_id == habit_id && c.date == date
}

/// No two check-ins are of the same habit on the same date.
pub open spec fn unique_checkins(cs: Seq<CheckinView>) -> bool {
    forall|i: int, j: int|
        0 <= i < j < cs.len() ==> !(#[trigger] cs[i].habit_id == cs[j].habit_id && cs[i].date
            == #[trigger] cs[j].date)
}

/// The recorded quantity of a habit on a date; 0 where nothing is recorded.
pub open spec fn quantity_at(cs: Seq<CheckinView>, habit_id: Seq<char>, date: Seq<char>) -> u32 {
    let i = first_where(cs, checkin_at(habit_id, date));
    if i < cs.len() {
        cs[i].quantity
    } else {
        0
    }
}

/// The check-ins after the quantity of a habit on a date is set: a
/// quantity of 0 removes the record, another one replaces or adds it.
pub open spec fn with_quantity(
    cs: Seq<CheckinView>,
    habit_id: Seq<char>,
    date: Seq<char>,
    quantity: u32,
) -> Seq<CheckinView> {
    let i = first_where(cs, checkin_at(habit_id, date));
    if quantity == 0 {
        if i < cs.len() {
            cs.remove(i)
        } else {
            cs
        }
    } else if i < cs.len() {
        cs.update(i, CheckinView { habit_id, date, quantity })
    } else {
        cs.push(CheckinView { habit_id, date, quantity })
    }
}

/// The sum of two quantities, held at the largest quantity.
pub open spec fn capped_sum(a: u32, b: u32) -> u32 {
    if a + b > u32::MAX {
        u32::MAX
    } else {
        (a + b) as u32
    }
}

/// What is set is read back, and records stay unique; setting 0 leaves no
/// record of that habit and date, which is what deleting the record does.
#[verifier::spinoff_prover]
pub proof fn lemma_with_quantity(
    cs: Seq<CheckinView>,
    habit_id: Seq<char>,
    date: Seq<char>,
    quantity: u32,
)
    requires
        unique_checkins(cs),
    ensures
        unique_checkins(with_quantity(cs, habit_id, date, quantity)),
        quantity_at(with_quantity(cs, habit_id, date, quantity), habit_id, date) == quantity,
        quantity == 0 ==> !any_where(
            with_quantity(cs, habit_id, date, quantity),
            checkin_at(habit_id, date),
        ),
{
    let p = checkin_at(habit_id, date);
    let i = first_where(cs, p);
    let out = with_quantity(cs, habit_id, date, quantity);
    lemma_first_where(cs, p);
    if quantity == 0 {
        if i < cs.len() {
            assert(out == cs.remove(i));
            assert forall|k: int| 0 <= k < out.len() implies !p(#[trigger] out[k]) by {
                if k < i {
                    assert(out[k] == cs[k]);
                } else {
                    assert(out[k] == cs[k + 1]);
                    assert(!(cs[i].habit_id == cs[k + 1].habit_id && cs[i].date == cs[k + 1].date));
                }
            }
            assert forall|a: int, b: int| 0 <= a < b < out.len() implies !(
            #[trigger] out[a].habit_id == out[b].habit_id && out[a].date
                == #[trigger] out[b].date) by {
                let a2 = if a < i {
                    a
                } else {
                    a + 1
                };
                let b2 = if b < i {
                    b
                } else {
                    b + 1
                };
                assert(out[a] == cs[a2]);
                assert(out[b] == cs[b2]);
                assert(!(cs[a2].habit_id == cs[b2].habit_id && cs[a2].date == cs[b2].date));
            }
        } else {
            assert(out == cs);
        }
        lemma_first_where_is(out, p, out.len() as int);
        lemma_first_where(out, p);
    } else if i < cs.len() {
        let made = CheckinView { habit_id, date, quantity };
        assert(out == cs.update(i, made));
        assert(p(out[i]));
        assert forall|k: int| 0 <= k < i implies !p(#[trigger] out[k]) by {
            assert(out[k] == cs[k]);
        }
        lemma_first_where_is(out, p, i);
        assert forall|a: int, b: int| 0 <= a < b < out.len() implies !(
        #[trigger] out[a].habit_id == out[b].habit_id && out[a].date == #[trigger] out[b].date) by {
            assert(out[a].habit_id == cs[a].habit_id && out[a].date == cs[a].date);
            assert(out[b].habit_id == cs[b].habit_id && out[b].date == cs[b].date);
            assert(!(cs[a].habit_id == cs[b].habit_id && cs[a].date == cs[b].date));
        }
    } else {
        let made = CheckinView { habit_id, date, quantity };
        assert(out == cs.push(made));
        assert(p(out[i]));
        assert forall|k: int| 0 <= k < i implies !p(#[trigger] out[k]) by {
            assert(out[k] == cs[k]);
        }
        lemma_first_where_is(out, p, i);
        assert forall|a: int, b: int| 0 <= a < b < out.len() implies !(
        #[trigger] out[a].habit_id == out[b].habit_id && out[a].date == #[trigger] out[b].date) by {
            assert(out[a] == cs[a]);
            if b < cs.len() {
                assert(out[b] == cs[b]);
                assert(!(cs[a].habit_id == cs[b].habit_id && cs[a].date == cs[b].date));
            } else {
                assert(!p(cs[a]));
            }
        }
    }
}

/// Setting the quantity of a habit on a date leaves what is recorded for
/// any other habit or date as it was.
#[verifier::spinoff_prover]
pub proof fn lemma_with_quantity_elsewhere(
    cs: Seq<CheckinView>,
    habit_id: Seq<char>,
    date: Seq<char>,
    quantity: u32,
    other_habit: Seq<char>,
    other_date: Seq<char>,
)
    requires
        !(other_habit == habit_id && other_date == date),
    ensures
        quantity_at(with_quantity(cs, habit_id, date, quantity), other_habit, other_date)
            == quantity_at(cs, other_habit, other_date),
{
    let p = checkin_at(habit_id, date);
    let q = checkin_at(other_habit, other_date);
    let i = first_where(cs, p);
    let a = first_where(cs, q);
    let out = with_quantity(cs, habit_id, date, quantity);
    lemma_first_where(cs, p);
    lemma_first_where(cs, q);
    if quantity == 0 {
        if i < cs.len() {
            assert(out == cs.remove(i));
            assert(a != i);
            let b = if a < i {
                a
            } else if a < cs.len() {
                a - 1
            } else {
                out.len() as int
            };
            assert forall|k: int| 0 <= k < b implies !q(#[trigger] out[k]) by {
                if k < i {
                    assert(out[k] == cs[k]);
                } else {
                    assert(out[k] == cs[k + 1]);
                }
            }
            if a < cs.len() {
                assert(out[b] == cs[a]);
            }
            lemma_first_where_is(out, q, b);
        } else {
            assert(out == cs);
        }
    } else if i < cs.len() {
        let made = CheckinView { habit_id, date, quantity };
        assert(out == cs.update(i, made));
        assert(!q(made));
        assert(a != i);
        assert forall|k: int| 0 <= k < a implies !q(#[trigger] out[k]) by {
            if k != i {
                assert(out[k] == cs[k]);
            }
        }
        if a < cs.len() {
            assert(out[a] == cs[a]);
        }
        lemma_first_where_is(out, q, a);
    } else {
        let made = CheckinView { habit_id, date, quantity };
        assert(out == cs.push(made));
        assert(!q(made));
        let b = if a < cs.len() {
            a
        } else {
            out.len() as int
        };
        assert forall|k: int| 0 <= k < b implies !q(#[trigger] out[k]) by {
            if k < cs.len() {
                assert(out[k] == cs[k]);
            }
        }
        if a < cs.len() {
            assert(out[a] == cs[a]);
        }
        lemma_first_where_is(out, q, b);
    }
}

/// The first check-in of the habit on the date.
pub fn find_checkin_index(db: &Db, habit_id: &str, date: &str) -> (r: Option<usize>)
    ensures
        match r {
            Some(i) => i == first_where(db@.checkins, checkin_at(habit_id@, date@)) && i
                < db.checkins@.len(),
            None => first_where(db@.checkins, checkin_at(habit_id@, date@)) == db@.checkins.len(),
        },
{
    let habit_key = habit_id.to_owned();
    let date_key = date.to_owned();
    let ghost p = checkin_at(habit_id@, date@);
    let mut i: usize = 0;
    while i < db.checkins.len()
        invariant
            i <= db.checkins@.len(),
            habit_key@ == habit_id@,
            date_key@ == date@,
            p == checkin_at(habit_id@, date@),
            forall|k: int| 0 <= k < i ==> !p(#[trigger] db@.checkins[k]),
        decreases db.checkins@.len() - i,
    {
        if db.checkins[i].habit_id == habit_key && db.checkins[i].date == date_key {
            proof {
                assert(p(db@.checkins[i as int]));
                lemma_first_where_is(db@.checkins, p, i as int);
            }
            return Some(i);
        }
        i += 1;
    }
    proof {
        lemma_first_where_is(db@.checkins, p, i as int);
    }
    None
}

/// The recorded quantity of the habit on the date; 0 where nothing is
/// recorded.
pub fn get_quantity(db: &Db, habit_id: &str, date: &str) -> (q: u32)
    ensures
        q == quantity_at(db@.checkins, habit_id@, date@),
{
    match find_checkin_index(db, habit_id, date) {
        Some(i) => db.checkins[i].quantity,
        None => 0,
    }
}

/// Sets the recorded quantity of the habit on the date; 0 removes the
/// record.
pub fn set_quantity(db: &mut Db, habit_id: &str, date: &str, quantity: u32) -> (r: Result<
    (),
    CliError,
>)
    ensures
        r is Ok <==> is_date(date@),
        r is Ok ==> final(db)@ == (DbView {
            checkins: with_quantity(old(db)@.checkins, habit_id@, date@, quantity),
            ..old(db)@
        }),
        r is Err ==> final(db)@ == old(db)@ && r->Err_0.is_usage(invalid_text("date"@, date@)),
{
    match parse_date_string(date, "date") {
        Ok(_) => {},
        Err(e) => {
            return Err(e);
        },
    }
    let idx = find_checkin_index(db, habit_id, date);
    let ghost before = db@.checkins;
    if quantity == 0 {
        match idx {
            Some(i) => {
                db.checkins.remove(i);
                assert(db@.checkins =~= before.remove(i as int));
            },
            None => {},
        }
        return Ok(());
    }
    let record = Checkin { habit_id: habit_id.to_owned(), date: date.to_owned(), quantity };
    match idx {
        None => {
            db.checkins.push(record);
            assert(db@.checkins =~= before.push(record@));
        },
        Some(i) => {
            db.checkins.set(i, record);
            assert(db@.checkins =~= before.update(i as int, record@));
        },
    }
    Ok(())
}

/// The message for a quantity that adds nothing.
pub open spec fn bad_quantity_text() -> Seq<char> {
    "Invalid quantity"@
}

/// Adds to the recorded quantity of the habit on the date and returns the
/// new total.
pub fn add_quantity(db: &mut Db, habit_id: &str, date: &str, delta: u32) -> (r: Result<
    u32,
    CliError,
>)
    ensures
        r is Ok <==> is_date(date@) && delta >= 1,
        r is Ok ==> {
            let total = capped_sum(quantity_at(old(db)@.checkins, habit_id@, date@), delta);
            &&& r->Ok_0 == total
            &&& final(db)@ == (DbView {
                checkins: with_quantity(old(db)@.checkins, habit_id@, date@, total),
                ..old(db)@
            })
        },
        r is Err ==> final(db)@ == old(db)@ && r->Err_0.is_usage(
            if !is_date(date@) {
                invalid_text("date"@, date@)
            } else {
                bad_quantity_text()
            },
        ),
{
    match parse_date_string(date, "date") {
        Ok(_) => {},
        Err(e) => {
            return Err(e);
        },
    }
    if delta < 1 {
        return Err(CliError::usage("Invalid quantity"));
    }
    let cur = get_quantity(db, habit_id, date);
    let total: u32 = if cur > u32::MAX - delta {
        u32::MAX
    } else {
        cur + delta
    };
    match set_quantity(db, habit_id, date, total) {
        Ok(_) => Ok(total),
        Err(e) => Err(e),
    }
}

/// By date, and among check-ins of one date by habit.
pub struct ByDate;

impl Order<Checkin> for ByDate {
    open spec fn before(a: CheckinView, b: CheckinView) -> bool {
        if a.date != b.date {
            lex_lt(a.date, b.date)
        } else {
            lex_lt(a.habit_id, b.habit_id)
        }
    }

    fn is_before(a: &Checkin, b: &Checkin) -> (r: bool) {
        if a.date != b.date {
            str_lt(a.date.as_str(), b.date.as_str())
        } else {
            str_lt(a.habit_id.as_str(), b.habit_id.as_str())
        }
    }
}

/// By date and habit is a strict weak order.
pub proof fn lemma_by_date_order()
    ensures
        strict_weak::<Checkin, ByDate>(),
{
    assert forall|a: CheckinView, b: CheckinView| #[trigger] ByDate::before(a, b) implies !ByDate::before(
        b,
        a,
    ) by {
        let c = a;
        lemma_lex_order(a.date, b.date, c.date);
        lemma_lex_order(a.date, c.date, b.date);
        lemma_lex_order(b.date, a.date, c.date);
        lemma_lex_order(b.date, c.date, a.date);
        lemma_lex_order(c.date, a.date, b.date);
        lemma_lex_order(c.date, b.date, a.date);
        lemma_lex_order(a.habit_id, b.habit_id, c.habit_id);
        lemma_lex_order(a.habit_id, c.habit_id, b.habit_id);
        lemma_lex_order(b.habit_id, a.habit_id, c.habit_id);
        lemma_lex_order(b.habit_id, c.habit_id, a.habit_id);
        lemma_lex_order(c.habit_id, a.habit_id, b.habit_id);
        lemma_lex_order(c.habit_id, b.habit_id, a.habit_id);
    }
    assert forall|a: CheckinView, b: CheckinView, c: CheckinView|
        #![trigger ByDate::before(b, a), ByDate::before(c, b)]
        !ByDate::before(b, a) && !ByDate::before(c, b) implies !ByDate::before(c, a) by {
        lemma_lex_order(a.date, b.date, c.date);
        lemma_lex_order(a.date, c.date, b.date);
        lemma_lex_order(b.date, a.date, c.date);
        lemma_lex_order(b.date, c.date, a.date);
        lemma_lex_order(c.date, a.date, b.date);
        lemma_lex_order(c.date, b.date, a.date);
        lemma_lex_order(a.habit_id, b.habit_id, c.habit_id);
        lemma_lex_order(a.habit_id, c.habit_id, b.habit_id);
        lemma_lex_order(b.habit_id, a.habit_id, c.habit_id);
        lemma_lex_order(b.habit_id, c.habit_id, a.habit_id);
        lemma_lex_order(c.habit_id, a.habit_id, b.habit_id);
        lemma_lex_order(c.habit_id, b.habit_id, a.habit_id);
    }
}

/// The check-ins of one habit.
pub open spec fn checkin_of(habit_id: Seq<char>) -> spec_fn(CheckinView) -> bool {
    |c: CheckinView| c.habit_id == habit_id
}

/// The check-ins of one habit, by date.
pub fn list_checkins_for_habit(db: &Db, habit_id: &str) -> (out: Vec<Checkin>)
    ensures
        views_of(out@) == stable_sort::<Checkin, ByDate>(
            keep(db@.checkins, checkin_of(habit_id@)),
        ),
        in_order::<Checkin, ByDate>(views_of(out@)),
{
    let key = habit_id.to_owned();
    let ghost p = checkin_of(habit_id@);
    let ghost all = db@.checkins;
    let mut picked: Vec<Checkin> = Vec::new();
    let mut i: usize = 0;
    assert(all.take(0) =~= Seq::empty());
    assert(views_of(picked@) =~= keep(all.take(0), p));
    while i < db.checkins.len()
        invariant
            i <= db.checkins@.len(),
            all == db@.checkins,
            key@ == habit_id@,
            p == checkin_of(habit_id@),
            views_of(picked@) == keep(all.take(i as int), p),
        decreases db.checkins@.len() - i,
    {
        proof {
            assert(all.take(i + 1).drop_last() =~= all.take(i as int));
        }
        let ghost before = views_of(picked@);
        if db.checkins[i].habit_id == key {
            let c = db.checkins[i].clone();
            picked.push(c);
            assert(views_of(picked@) =~= before.push(all[i as int]));
        }
        i += 1;
    }
    assert(all.take(all.len() as int) =~= all);
    proof {
        lemma_by_date_order();
    }
    sort_vec::<Checkin, ByDate>(picked)
}

/// Whether `id` is one of `ids`.
pub open spec fn listed(ids: Seq<Seq<char>>, id: Seq<char>) -> bool {
    ids.contains(id)
}

/// The check-ins within the bounds that are given: from a date on, up to a
/// date, of the habits listed.
pub open spec fn checkin_within(
    from: Option<Seq<char>>,
    to: Option<Seq<char>>,
    habit_ids: Option<Seq<Seq<char>>>,
) -> spec_fn(CheckinView) -> bool {
    |c: CheckinView|
        {
            &&& habit_ids is Some ==> listed(habit_ids->0, c.habit_id)
            &&& from is Some ==> lex_le(from->0, c.date)
            &&& to is Some ==> lex_le(c.date, to->0)
        }
}

/// The views of an optional list of strings.
pub open spec fn opt_texts(o: Option<&Vec<String>>) -> Option<Seq<Seq<char>>> {
    match o {
        Some(v) => Some(crate::text::texts_of(v@)),
        None => None,
    }
}

/// Whether `id` is one of `ids`.
pub fn contains_text(ids: &Vec<String>, id: &String) -> (r: bool)
    ensures
        r == listed(crate::text::texts_of(ids@), id@),
{
    let ghost all = crate::text::texts_of(ids@);
    let mut i: usize = 0;
    while i < ids.len()
        invariant
            i <= ids@.len(),
            all == crate::text::texts_of(ids@),
            forall|k: int| 0 <= k < i ==> all[k] != id@,
        decreases ids@.len() - i,
    {
        if ids[i] == *id {
            assert(all[i as int] == id@);
            return true;
        }
        i += 1;
    }
    false
}

/// The check-ins within the bounds that are given, by date and habit.
pub fn list_checkins_in_range(
    db: &Db,
    from: Option<&str>,
    to: Option<&str>,
    habit_ids: Option<&Vec<String>>,
) -> (out: Vec<Checkin>)
    ensures
        views_of(out@) == stable_sort::<Checkin, ByDate>(
            keep(db@.checkins, checkin_within(opt_text(from), opt_text(to), opt_texts(habit_ids))),
        ),
        in_order::<Checkin, ByDate>(views_of(out@)),
{
    let ghost p = checkin_within(opt_text(from), opt_text(to), opt_texts(habit_ids));
    let ghost all = db@.checkins;
    let mut picked: Vec<Checkin> = Vec::new();
    let mut i: usize = 0;
    assert(all.take(0) =~= Seq::empty());
    assert(views_of(picked@) =~= keep(all.take(0), p));
    while i < db.checkins.len()
        invariant
            i <= db.checkins@.len(),
            all == db@.checkins,
            p == checkin_within(opt_text(from), opt_text(to), opt_texts(habit_ids)),
            views_of(picked@) == keep(all.take(i as int), p),
        decreases db.checkins@.len() - i,
    {
        proof {
            assert(all.take(i + 1).drop_last() =~= all.take(i as int));
        }
        let ghost before = views_of(picked@);
        let c = &db.checkins[i];
        let of_habit = match habit_ids {
            Some(ids) => contains_text(ids, &c.habit_id),
            None => true,
        };
        let after_from = match from {
            Some(f) => str_le(f, c.date.as_str()),
            None => true,
        };
        let before_to = match to {
            Some(t) => str_le(c.date.as_str(), t),
            None => true,
        };
        if of_habit && after_from && before_to {
            picked.push(c.clone());
            assert(views_of(picked@) =~= before.push(all[i as int]));
        }
        i += 1;
    }
    assert(all.take(all.len() as int) =~= all);
    proof {
        lemma_by_date_order();
    }
    sort_vec::<Checkin, ByDate>(picked)
}

/// What a check-in does to the quantity of a habit on a date.
#[derive(Clone, Copy, Debug, PartialEq, Eq, Structural)]
pub enum CheckinMode {
    /// Adds to what is recorded.
    Add(u32),
    /// Replaces what is recorded.
    Replace(u32),
    /// Removes the record.
    Delete,
}

impl CheckinMode {
    /// The name of the mode.
    pub open spec fn text(self) -> Seq<char> {
        match self {
            CheckinMode::Add(_) => "add"@,
            CheckinMode::Replace(_) => "set"@,
            CheckinMode::Delete => "delete"@,
        }
    }

    pub fn as_str(&self) -> (s: &'static str)
        ensures
            s@ == self.text(),
    {
        match self {
            CheckinMode::Add(_) => "add",
            CheckinMode::Replace(_) => "set",
            CheckinMode::Delete => "delete",
        }
    }
}

/// The mode that the options of a check-in ask for: `delete` goes with no
/// quantity, `qty` and `set` exclude each other, and where none is given
/// one is added.
pub open spec fn mode_of(qty: Option<u32>, set: Option<u32>, delete: bool) -> Result<
    CheckinMode,
    Seq<char>,
> {
    if delete && (qty is Some || set is Some) {
        Err("Invalid flags: --delete conflicts with --qty/--set"@)
    } else if qty is Some && set is Some {
        Err("Invalid flags: --qty conflicts with --set"@)
    } else if delete {
        Ok(CheckinMode::Delete)
    } else if set is Some {
        Ok(CheckinMode::Replace(set->0))
    } else if qty is Some {
        Ok(CheckinMode::Add(qty->0))
    } else {
        Ok(CheckinMode::Add(1))
    }
}

/// The mode that the options of a check-in ask for.
pub fn checkin_mode(qty: Option<u32>, set: Option<u32>, delete: bool) -> (r: Result<
    CheckinMode,
    CliError,
>)
    ensures
        r is Ok <==> mode_of(qty, set, delete) is Ok,
        r is Ok ==> r->Ok_0 == mode_of(qty, set, delete)->Ok_0,
        r is Err ==> r->Err_0.is_usage(mode_of(qty, set, delete)->Err_0),
{
    if delete && (qty.is_some() || set.is_some()) {
        return Err(CliError::usage("Invalid flags: --delete conflicts with --qty/--set"));
    }
    match (qty, set) {
        (Some(_), Some(_)) => Err(CliError::usage("Invalid flags: --qty conflicts with --set")),
        (_, Some(s)) => Ok(CheckinMode::Replace(s)),
        (Some(q), None) => if delete {
            Ok(CheckinMode::Delete)
        } else {
            Ok(CheckinMode::Add(q))
        },
        (None, None) => if delete {
            Ok(CheckinMode::Delete)
        } else {
            Ok(CheckinMode::Add(1))
        },
    }
}

/// What a check-in has done: what was added, if it added, and the quantity
/// that is recorded now.
#[derive(Clone, Copy, Debug, PartialEq, Eq, Structural)]
pub struct CheckinOutcome {
    pub mode: CheckinMode,
    pub delta: Option<u32>,
    pub quantity: u32,
}

/// The quantity that is recorded once a check-in is made.
pub open spec fn checked_in_quantity(
    cs: Seq<CheckinView>,
    habit_id: Seq<char>,
    date: Seq<char>,
    mode: CheckinMode,
) -> u32 {
    match mode {
        CheckinMode::Add(q) => capped_sum(quantity_at(cs, habit_id, date), q),
        CheckinMode::Replace(q) => q,
        CheckinMode::Delete => 0,
    }
}

/// The first fault of a check-in, as its error message, or `None`.
pub open spec fn checkin_fault(date: Seq<char>, mode: CheckinMode) -> Option<Seq<char>> {
    if !is_date(date) {
        Some(invalid_text("date"@, date))
    } else if mode == CheckinMode::Add(0) {
        Some(bad_quantity_text())
    } else {
        None
    }
}

/// Checks a habit in on a date: adds to its quantity, sets it, or deletes
/// the record.
pub fn checkin(db: &mut Db, habit_id: &str, date: &str, mode: CheckinMode) -> (r: Result<
    CheckinOutcome,
    CliError,
>)
    ensures
        r is Ok <==> checkin_fault(date@, mode) is None,
        r is Ok ==> {
            let quantity = checked_in_quantity(old(db)@.checkins, habit_id@, date@, mode);
            &&& r->Ok_0 == (CheckinOutcome {
                mode,
                delta: match mode {
                    CheckinMode::Add(q) => Some(q),
                    _ => None,
                },
                quantity,
            })
            &&& final(db)@ == (DbView {
                checkins: with_quantity(old(db)@.checkins, habit_id@, date@, quantity),
                ..old(db)@
            })
        },
        r is Err ==> final(db)@ == old(db)@ && r->Err_0.is_usage(checkin_fault(date@, mode)->0),
{
    match mode {
        CheckinMode::Delete => match set_quantity(db, habit_id, date, 0) {
            Ok(_) => Ok(CheckinOutcome { mode, delta: None, quantity: 0 }),
            Err(e) => Err(e),
        },
        CheckinMode::Replace(q) => match set_quantity(db, habit_id, date, q) {
            Ok(_) => Ok(CheckinOutcome { mode, delta: None, quantity: q }),
            Err(e) => Err(e),
        },
        CheckinMode::Add(q) => match add_quantity(db, habit_id, date, q) {
            Ok(total) => Ok(CheckinOutcome { mode, delta: Some(q), quantity: total }),
            Err(e) => Err(e),
        },
    }
}

} // verus!
