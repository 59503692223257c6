//! Excuses: records that exempt a habit from penalty on a date, allowed up
//! to a weekly quota and stored as denied beyond it. Records are only ever
//! added.

use crate::date::{
    date_day, day_text, fmt_day, invalid_text, is_date, parse_day, week_end_day, week_start_day,
    weekday_from_days,
};
use crate::error::CliError;
use crate::habits::{id_text, make_id};
use crate::model::{Db, DbView, Excuse, ExcuseKind, ExcuseView, Meta};
use crate::seqs::{any_where, count_where};
use crate::text::{capped, lex_le, str_le, trim, trimmed};
use crate::ts::{is_rfc3339, timestamp_fault, timestamp_verdict, verdict_fault};
use vstd::prelude::*;

verus! {

/// Draws the next excuse identifier, `e` and six digits or more.
pub fn next_excuse_id(db: &mut Db) -> (id: String)
    requires
        old(db).meta.next_excuse_number < u32::MAX,
    ensures
        id@ == id_text("e"@, old(db).meta.next_excuse_number, 6),
        final(db)@ == (DbView {
            meta: Meta {
                next_excuse_number: (old(db).meta.next_excuse_number + 1) as u32,
                ..old(db).meta
            },
            ..old(db)@
        }),
{
    let n = db.meta.next_excuse_number;
    let id = make_id("e", n, 6);
    db.meta.next_excuse_number = n + 1;
    id
}

/// The allowed excuses of one habit with a date from `from` to `to`.
pub open spec fn allowed_between(habit_id: Seq<char>, from: Seq<char>, to: Seq<char>) -> spec_fn(
    ExcuseView,
) -> bool {
    |e: ExcuseView|
        e.habit_id == habit_id && e.kind == ExcuseKind::Allowed && lex_le(from, e.date) && lex_le(
            e.date,
            to,
        )
}

/// How many allowed excuses the habit has used from `from` to `to`.
pub open spec fn used_between(
    es: Seq<ExcuseView>,
    habit_id: Seq<char>,
    from: Seq<char>,
    to: Seq<char>,
) -> u32 {
    capped(count_where(es, allowed_between(habit_id, from, to)))
}

/// How many allowed excuses the habit has used in the ISO week of day `n`.
pub open spec fn used_in_week(es: Seq<ExcuseView>, habit_id: Seq<char>, n: int) -> u32 {
    used_between(es, habit_id, day_text(week_start_day(n)), day_text(week_end_day(n)))
}

/// Counts the allowed excuses of the habit with a date from `from` to `to`.
pub fn count_allowed_between(db: &Db, habit_id: &str, from: &str, to: &str) -> (used: u32)
    ensures
        used == used_between(db@.excuses, habit_id@, from@, to@),
{
    let key = habit_id.to_owned();
    let ghost p = allowed_between(habit_id@, from@, to@);
    let ghost all = db@.excuses;
    let mut used: u32 = 0;
    let mut i: usize = 0;
    assert(all.take(0) =~= Seq::empty());
    while i < db.excuses.len()
        invariant
            i <= db.excuses@.len(),
            all == db@.excuses,
            key@ == habit_id@,
            p == allowed_between(habit_id@, from@, to@),
            used == capped(count_where(all.take(i as int), p)),
        decreases db.excuses@.len() - i,
    {
        proof {
            assert(all.take(i + 1).drop_last() =~= all.take(i as int));
        }
        let e = &db.excuses[i];
        let allowed = match e.kind {
            ExcuseKind::Allowed => true,
            ExcuseKind::Denied => false,
        };
        if e.habit_id == key && allowed && str_le(from, e.date.as_str()) && str_le(
            e.date.as_str(),
            to,
        ) {
            if used < u32::MAX {
                used += 1;
            }
        }
        i += 1;
    }
    assert(all.take(all.len() as int) =~= all);
    used
}

/// How many allowed excuses the habit has from `week_start` to the end of
/// the ISO week that holds that date.
pub fn allowed_excuses_used_in_week(db: &Db, habit_id: &str, week_start: &str) -> (r: Result<
    u32,
    CliError,
>)
    ensures
        r is Ok <==> is_date(week_start@),
        r is Ok ==> r->Ok_0 == used_between(
            db@.excuses,
            habit_id@,
            week_start@,
            day_text(week_end_day(date_day(week_start@))),
        ),
        r is Err ==> r->Err_0.is_usage(invalid_text("date"@, week_start@)),
{
    let week_end = match crate::date::iso_week_end(week_start) {
        Ok(s) => s,
        Err(e) => {
            return Err(e);
        },
    };
    Ok(count_allowed_between(db, habit_id, week_start, week_end.as_str()))
}

/// The first fault of an excuse, as its error message, or `None` where it
/// can be recorded; `ts_fault` is the fault of the timestamp, if any.
pub open spec fn excuse_fault(
    date: Seq<char>,
    ts_fault: Option<Seq<char>>,
    reason: Seq<char>,
) -> Option<Seq<char>> {
    if !is_date(date) {
        Some(invalid_text("date"@, date))
    } else if ts_fault is Some {
        ts_fault
    } else if trimmed(reason).len() == 0 {
        Some("Excuse reason is required"@)
    } else {
        None
    }
}

/// What is left of a quota.
pub open spec fn remaining_of(quota: u32, used: u32) -> u32 {
    if quota > used {
        (quota - used) as u32
    } else {
        0
    }
}

/// The kind under which an excuse is stored: as requested, but denied where
/// an allowed one is asked for and the quota of the week is used up.
pub open spec fn stored_kind(requested: ExcuseKind, quota: u32, used: u32) -> ExcuseKind {
    if requested == ExcuseKind::Allowed && remaining_of(quota, used) == 0 {
        ExcuseKind::Denied
    } else {
        requested
    }
}

/// The record that an excuse adds to the store.
pub open spec fn new_excuse(
    db: DbView,
    habit_id: Seq<char>,
    date: Seq<char>,
    ts: Seq<char>,
    requested: ExcuseKind,
    reason: Seq<char>,
    quota: u32,
) -> ExcuseView {
    ExcuseView {
        id: id_text("e"@, db.meta.next_excuse_number, 6),
        habit_id,
        date,
        ts: trimmed(ts),
        kind: stored_kind(requested, quota, used_in_week(db.excuses, habit_id, date_day(date))),
        reason: trimmed(reason),
    }
}

/// The store after an excuse is recorded.
pub open spec fn with_excuse(
    db: DbView,
    habit_id: Seq<char>,
    date: Seq<char>,
    ts: Seq<char>,
    requested: ExcuseKind,
    reason: Seq<char>,
    quota: u32,
) -> DbView {
    DbView {
        meta: Meta { next_excuse_number: (db.meta.next_excuse_number + 1) as u32, ..db.meta },
        excuses: db.excuses.push(new_excuse(db, habit_id, date, ts, requested, reason, quota)),
        ..db
    }
}

/// The number of allowed excuses used in the week once the excuse is
/// recorded.
pub open spec fn used_after(db: DbView, habit_id: Seq<char>, date: Seq<char>, requested: ExcuseKind, quota: u32) -> u32 {
    let used = used_in_week(db.excuses, habit_id, date_day(date));
    if stored_kind(requested, quota, used) == ExcuseKind::Allowed {
        (used + 1) as u32
    } else {
        used
    }
}

/// Records an excuse, `ts_accepted` telling whether its
/// timestamp was read as a date and time.
/// Returns the record with the number of allowed excuses used in its week
/// and what is left of the quota, both counted with it.
pub fn excuse_checked(
    db: &mut Db,
    habit_id: &str,
    date: &str,
    ts: &str,
    ts_accepted: bool,
    kind_requested: ExcuseKind,
    reason: &str,
    quota_per_week: u32,
) -> (r: Result<(Excuse, u32, u32), CliError>)
    requires
        old(db).meta.next_excuse_number < u32::MAX,
    ensures
        r is Ok <==> excuse_fault(date@, verdict_fault("ts"@, ts@, ts_accepted), reason@) is None,
        r is Ok ==> {
            let used = used_after(old(db)@, habit_id@, date@, kind_requested, quota_per_week);
            &&& r->Ok_0.0@ == new_excuse(
                old(db)@,
                habit_id@,
                date@,
                ts@,
                kind_requested,
                reason@,
                quota_per_week,
            )
            &&& r->Ok_0.1 == used
            &&& r->Ok_0.2 == remaining_of(quota_per_week, used)
            &&& final(db)@ == with_excuse(
                old(db)@,
                habit_id@,
                date@,
                ts@,
                kind_requested,
                reason@,
                quota_per_week,
            )
        },
        r is Err ==> {
            &&& final(db)@ == old(db)@
            &&& r->Err_0.is_usage(excuse_fault(date@, verdict_fault("ts"@, ts@, ts_accepted), reason@)->0)
        },
{
    let day = match parse_day(date, "date") {
        Ok(n) => n,
        Err(e) => {
            return Err(e);
        },
    };
    match timestamp_verdict(ts, "ts", ts_accepted) {
        Ok(_) => {},
        Err(e) => {
            return Err(e);
        },
    }
    let r = trim(reason);
    if r.as_str().unicode_len() == 0 {
        return Err(CliError::usage("Excuse reason is required"));
    }
    let wd = weekday_from_days(day);
    let first: i64 = day - (wd as i64 - 1);
    let week_start = fmt_day(first);
    let week_end = fmt_day(first + 6);
    let used = count_allowed_between(db, habit_id, week_start.as_str(), week_end.as_str());
    let remaining: u32 = if quota_per_week > used {
        quota_per_week - used
    } else {
        0
    };
    // Deterministic policy: if quota exceeded, record as denied regardless of request.
    let kind = match kind_requested {
        ExcuseKind::Allowed => if remaining == 0 {
            ExcuseKind::Denied
        } else {
            ExcuseKind::Allowed
        },
        ExcuseKind::Denied => ExcuseKind::Denied,
    };
    let ghost before = db@;
    let id = next_excuse_id(db);
    let ex = Excuse {
        id,
        habit_id: habit_id.to_owned(),
        date: date.to_owned(),
        ts: trim(ts),
        kind,
        reason: r,
    };
    let out = ex.clone();
    db.excuses.push(ex);
    assert(db@.excuses =~= before.excuses.push(out@));
    let used2: u32 = match kind {
        ExcuseKind::Allowed => used + 1,
        ExcuseKind::Denied => used,
    };
    let remaining2: u32 = if quota_per_week > used2 {
        quota_per_week - used2
    } else {
        0
    };
    Ok((out, used2, remaining2))
}

/// Records an excuse of a habit for a date.
pub fn excuse(
    db: &mut Db,
    habit_id: &str,
    date: &str,
    ts: &str,
    kind_requested: ExcuseKind,
    reason: &str,
    quota_per_week: u32,
) -> (r: Result<(Excuse, u32, u32), CliError>)
    requires
        old(db).meta.next_excuse_number < u32::MAX,
    ensures
        r is Ok <==> excuse_fault(date@, timestamp_fault(ts@), reason@) is None,
        r is Ok ==> {
            let used = used_after(old(db)@, habit_id@, date@, kind_requested, quota_per_week);
            &&& r->Ok_0.0@ == new_excuse(
                old(db)@,
                habit_id@,
                date@,
                ts@,
                kind_requested,
                reason@,
                quota_per_week,
            )
            &&& r->Ok_0.1 == used
            &&& r->Ok_0.2 == remaining_of(quota_per_week, used)
            &&& final(db)@ == with_excuse(
                old(db)@,
                habit_id@,
                date@,
                ts@,
                kind_requested,
                reason@,
                quota_per_week,
            )
        },
        r is Err ==> {
            &&& final(db)@ == old(db)@
            &&& r->Err_0.is_usage(excuse_fault(date@, timestamp_fault(ts@), reason@)->0)
        },
{
    let ts_accepted = is_rfc3339(ts);
    excuse_checked(db, habit_id, date, ts, ts_accepted, kind_requested, reason, quota_per_week)
}

/// The allowed excuses of one habit for one date.
pub open spec fn allowed_at(habit_id: Seq<char>, date: Seq<char>) -> spec_fn(ExcuseView) -> bool {
    |e: ExcuseView| e.habit_id == habit_id && e.date == date && e.kind == ExcuseKind::Allowed
}

/// Whether the habit is excused on the date.
pub open spec fn excused(es: Seq<ExcuseView>, habit_id: Seq<char>, date: Seq<char>) -> bool {
    any_where(es, allowed_at(habit_id, date))
}

/// Whether the habit has an allowed excuse for the date.
pub fn has_allowed_excuse(db: &Db, habit_id: &str, date: &str) -> (r: bool)
    ensures
        r == excused(db@.excuses, habit_id@, date@),
{
    let habit_key = habit_id.to_owned();
    let date_key = date.to_owned();
    let ghost p = allowed_at(habit_id@, date@);
    let mut i: usize = 0;
    while i < db.excuses.len()
        invariant
            i <= db.excuses@.len(),
            habit_key@ == habit_id@,
            date_key@ == date@,
            p == allowed_at(habit_id@, date@),
            forall|k: int| 0 <= k < i ==> !p(#[trigger] db@.excuses[k]),
        decreases db.excuses@.len() - i,
    {
        let e = &db.excuses[i];
        let allowed = match e.kind {
            ExcuseKind::Allowed => true,
            ExcuseKind::Denied => false,
        };
        if e.habit_id == habit_key && e.date == date_key && allowed {
            assert(p(db@.excuses[i as int]));
            return true;
        }
        i += 1;
    }
    false
}

/// An allowed excuse asked for when the quota of the week is used up is
/// stored as denied; any other excuse is stored as it was asked for.
pub proof fn lemma_quota_downgrade(requested: ExcuseKind, quota: u32, used: u32)
    ensures
        requested == ExcuseKind::Allowed && used >= quota ==> stored_kind(requested, quota, used)
            == ExcuseKind::Denied,
        requested == ExcuseKind::Allowed && used < quota ==> stored_kind(requested, quota, used)
            == ExcuseKind::Allowed,
        requested == ExcuseKind::Denied ==> stored_kind(requested, quota, used)
            == ExcuseKind::Denied,
{
}

} // verus!
