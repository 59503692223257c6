//! Declarations: the stated intent without which the check-ins of a habit
//! that asks for one do not count. Records are only ever added.

use crate::date::{invalid_text, is_date, parse_date_string};
use crate::error::CliError;
use crate::habits::{id_text, make_id};
use crate::model::{Db, DbView, Declaration, DeclarationView, Meta};
use crate::seqs::any_where;
use crate::text::{trim, trimmed};
use crate::ts::{is_rfc3339, timestamp_fault, timestamp_verdict, verdict_fault};
use vstd::prelude::*;

verus! {

/// The declarations of one habit for one date.
pub open spec fn declaration_at(habit_id: Seq<char>, date: Seq<char>) -> spec_fn(
    DeclarationView,
) -> bool {
    |d: DeclarationView| d.habit_id == habit_id && d.date == date
}

/// Whether the habit has a declaration for the date.
pub open spec fn declared(ds: Seq<DeclarationView>, habit_id: Seq<char>, date: Seq<char>) -> bool {
    any_where(ds, declaration_at(habit_id, date))
}

/// Draws the next declaration identifier, `d` and six digits or more.
pub fn next_declaration_id(db: &mut Db) -> (id: String)
    requires
        old(db).meta.next_declaration_number < u32::MAX,
    ensures
        id@ == id_text("d"@, old(db).meta.next_declaration_number, 6),
        final(db)@ == (DbView {
            meta: Meta {
                next_declaration_number: (old(db).meta.next_declaration_number + 1) as u32,
                ..old(db).meta
            },
            ..old(db)@
        }),
{
    let n = db.meta.next_declaration_number;
    let id = make_id("d", n, 6);
    db.meta.next_declaration_number = n + 1;
    id
}

/// The first fault of a declaration, as its error message, or `None` where
/// it can be recorded; `ts_fault` is the fault of the timestamp, if any.
pub open spec fn declaration_fault(
    date: Seq<char>,
    ts_fault: Option<Seq<char>>,
    text: Seq<char>,
) -> Option<Seq<char>> {
    if !is_date(date) {
        Some(invalid_text("date"@, date))
    } else if ts_fault is Some {
        ts_fault
    } else if trimmed(text).len() == 0 {
        Some("Declaration text is required"@)
    } else {
        None
    }
}

/// The record that a declaration adds to the store.
pub open spec fn new_declaration(
    db: DbView,
    habit_id: Seq<char>,
    date: Seq<char>,
    ts: Seq<char>,
    text: Seq<char>,
) -> DeclarationView {
    DeclarationView {
        id: id_text("d"@, db.meta.next_declaration_number, 6),
        habit_id,
        date,
        ts: trimmed(ts),
        text: trimmed(text),
    }
}

/// The store after a declaration is recorded.
pub open spec fn with_declaration(
    db: DbView,
    habit_id: Seq<char>,
    date: Seq<char>,
    ts: Seq<char>,
    text: Seq<char>,
) -> DbView {
    DbView {
        meta: Meta {
            next_declaration_number: (db.meta.next_declaration_number + 1) as u32,
            ..db.meta
        },
        declarations: db.declarations.push(new_declaration(db, habit_id, date, ts, text)),
        ..db
    }
}

/// Records a declaration, `ts_accepted` telling whether its
/// timestamp was read as a date and time.
pub fn declare_checked(
    db: &mut Db,
    habit_id: &str,
    date: &str,
    ts: &str,
    ts_accepted: bool,
    text: &str,
) -> (r: Result<Declaration, CliError>)
    requires
        old(db).meta.next_declaration_number < u32::MAX,
    ensures
        r is Ok <==> declaration_fault(date@, verdict_fault("ts"@, ts@, ts_accepted), text@) is None,
        r is Ok ==> {
            &&& r->Ok_0@ == new_declaration(old(db)@, habit_id@, date@, ts@, text@)
            &&& final(db)@ == with_declaration(old(db)@, habit_id@, date@, ts@, text@)
        },
        r is Err ==> {
            &&& final(db)@ == old(db)@
            &&& r->Err_0.is_usage(declaration_fault(date@, verdict_fault("ts"@, ts@, ts_accepted), text@)->0)
        },
{
    match parse_date_string(date, "date") {
        Ok(_) => {},
        Err(e) => {
            return Err(e);
        },
    }
    match timestamp_verdict(ts, "ts", ts_accepted) {
        Ok(_) => {},
        Err(e) => {
            return Err(e);
        },
    }
    let t = trim(text);
    if t.as_str().unicode_len() == 0 {
        return Err(CliError::usage("Declaration text is required"));
    }
    let ghost before = db@;
    let id = next_declaration_id(db);
    let decl = Declaration {
        id,
        habit_id: habit_id.to_owned(),
        date: date.to_owned(),
        ts: trim(ts),
        text: t,
    };
    let out = decl.clone();
    db.declarations.push(decl);
    assert(db@.declarations =~= before.declarations.push(out@));
    Ok(out)
}

/// Records the declaration of a habit for a date.
pub fn declare(db: &mut Db, habit_id: &str, date: &str, ts: &str, text: &str) -> (r: Result<
    Declaration,
    CliError,
>)
    requires
        old(db).meta.next_declaration_number < u32::MAX,
    ensures
        r is Ok <==> declaration_fault(date@, timestamp_fault(ts@), text@) is None,
        r is Ok ==> {
            &&& r->Ok_0@ == new_declaration(old(db)@, habit_id@, date@, ts@, text@)
            &&& final(db)@ == with_declaration(old(db)@, habit_id@, date@, ts@, text@)
        },
        r is Err ==> {
            &&& final(db)@ == old(db)@
            &&& r->Err_0.is_usage(declaration_fault(date@, timestamp_fault(ts@), text@)->0)
        },
{
    let ts_accepted = is_rfc3339(ts);
    declare_checked(db, habit_id, date, ts, ts_accepted, text)
}

/// Whether the habit has a declaration for the date.
pub fn has_declaration(db: &Db, habit_id: &str, date: &str) -> (r: bool)
    ensures
        r == declared(db@.declarations, habit_id@, date@),
{
    let habit_key = habit_id.to_owned();
    let date_key = date.to_owned();
    let ghost p = declaration_at(habit_id@, date@);
    let mut i: usize = 0;
    while i < db.declarations.len()
        invariant
            i <= db.declarations@.len(),
            habit_key@ == habit_id@,
            date_key@ == date@,
            p == declaration_at(habit_id@, date@),
            forall|k: int| 0 <= k < i ==> !p(#[trigger] db@.declarations[k]),
        decreases db.declarations@.len() - i,
    {
        if db.declarations[i].habit_id == habit_key && db.declarations[i].date == date_key {
            assert(p(db@.declarations[i as int]));
            return true;
        }
        i += 1;
    }
    false
}

} // verus!
