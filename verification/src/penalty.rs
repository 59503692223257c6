//! Penalty debts: a rule armed for a habit, debts that arise when a day of
//! the habit is missed, and the actions that close them. Identifiers of
//! debts and actions are made from what they stand for, so that doing a
//! thing twice records it once.

use crate::completion::{counted_quantity, done_on, is_declared};
use crate::date::{
    date_day, day_text, fmt_day, invalid_text, is_date, lemma_next_day_text_differs,
    parse_date_string, parse_day, weekday_from_days, weekday_of_day,
};
use crate::error::CliError;
use crate::excuses::{excused, has_allowed_excuse};
use crate::habits::{has_weekday, id_text, make_id, scheduled_on};
use crate::model::{
    views_of, Db, DbView, HabitView, Meta, PenaltyAction, PenaltyActionKind, PenaltyActionView,
    PenaltyDebt, PenaltyDebtView, PenaltyRule, PenaltyRuleView, Period,
};
use crate::seqs::{
    any_where, first_where, keep, last_where, lemma_first_where, lemma_first_where_is,
    lemma_last_where_is,
};
use crate::sorting::{
    in_order, lemma_stable_sort_contains, sort_vec, stable_sort, strict_weak, Order,
};
use crate::text::{lemma_lex_order, lex_le, lex_lt, str_le, str_lt, to_chars, trim, trimmed};
use crate::ts::{is_rfc3339, timestamp_fault, timestamp_verdict, verdict_fault};
use vstd::prelude::*;

verus! {

/// The characters that are not hyphens.
pub open spec fn not_hyphen() -> spec_fn(char) -> bool {
    |c: char| c != '-'
}

/// A date without its hyphens.
pub open spec fn compact(date: Seq<char>) -> Seq<char> {
    keep(date, not_hyphen())
}

/// A date without its hyphens.
pub fn compact_date(date: &str) -> (s: String)
    ensures
        s@ == compact(date@),
{
    let cs = to_chars(date);
    let mut s = String::new();
    let mut i: usize = 0;
    assert(cs@.take(0) =~= Seq::empty());
    while i < cs.len()
        invariant
            i <= cs@.len(),
            s@ == keep(cs@.take(i as int), not_hyphen()),
        decreases cs@.len() - i,
    {
        proof {
            assert(cs@.take(i + 1).drop_last() =~= cs@.take(i as int));
        }
        if cs[i] != '-' {
            s.push(cs[i]);
        }
        i += 1;
    }
    assert(cs@.take(cs@.len() as int) =~= cs@);
    s
}

/// Draws the next rule identifier, `pr` and six digits or more.
pub fn next_penalty_rule_id(db: &mut Db) -> (id: String)
    requires
        old(db).meta.next_penalty_rule_number < u32::MAX,
    ensures
        id@ == id_text("pr"@, old(db).meta.next_penalty_rule_number, 6),
        final(db)@ == (DbView {
            meta: Meta {
                next_penalty_rule_number: (old(db).meta.next_penalty_rule_number + 1) as u32,
                ..old(db).meta
            },
            ..old(db)@
        }),
{
    let n = db.meta.next_penalty_rule_number;
    let id = make_id("pr", n, 6);
    db.meta.next_penalty_rule_number = n + 1;
    id
}

/// The rules of one habit.
pub open spec fn rule_of(habit_id: Seq<char>) -> spec_fn(PenaltyRuleView) -> bool {
    |r: PenaltyRuleView| r.habit_id == habit_id
}

/// The first fault of a rule, as its error message, or `None` where it can
/// be armed; `ts_fault` is the fault of the timestamp, if any.
pub open spec fn rule_fault(
    armed_date: Seq<char>,
    ts_fault: Option<Seq<char>>,
    multiplier: u32,
    cap: u32,
) -> Option<Seq<char>> {
    if !is_date(armed_date) {
        Some(invalid_text("date"@, armed_date))
    } else if ts_fault is Some {
        ts_fault
    } else if multiplier < 1 {
        Some("Invalid multiplier"@)
    } else if cap < 1 {
        Some("Invalid cap"@)
    } else {
        None
    }
}

/// The rule of the habit once it is armed: the first rule that the habit
/// has keeps its identifier, a habit without one gets a new identifier.
pub open spec fn armed_rule(
    db: DbView,
    habit_id: Seq<char>,
    armed_date: Seq<char>,
    armed_ts: Seq<char>,
    multiplier: u32,
    cap: u32,
    deadline_days: u32,
) -> PenaltyRuleView {
    let i = first_where(db.penalty_rules, rule_of(habit_id));
    PenaltyRuleView {
        id: if i < db.penalty_rules.len() {
            db.penalty_rules[i].id
        } else {
            id_text("pr"@, db.meta.next_penalty_rule_number, 6)
        },
        habit_id,
        multiplier,
        cap,
        deadline_days,
        armed_date,
        armed_ts: trimmed(armed_ts),
    }
}

/// The store after the rule of a habit is armed.
pub open spec fn with_rule(
    db: DbView,
    habit_id: Seq<char>,
    armed_date: Seq<char>,
    armed_ts: Seq<char>,
    multiplier: u32,
    cap: u32,
    deadline_days: u32,
) -> DbView {
    let i = first_where(db.penalty_rules, rule_of(habit_id));
    let rule = armed_rule(db, habit_id, armed_date, armed_ts, multiplier, cap, deadline_days);
    if i < db.penalty_rules.len() {
        DbView { penalty_rules: db.penalty_rules.update(i, rule), ..db }
    } else {
        DbView {
            meta: Meta {
                next_penalty_rule_number: (db.meta.next_penalty_rule_number + 1) as u32,
                ..db.meta
            },
            penalty_rules: db.penalty_rules.push(rule),
            ..db
        }
    }
}

/// The first rule of the habit.
fn find_first_rule(db: &Db, habit_id: &str) -> (r: Option<usize>)
    ensures
        match r {
            Some(i) => i == first_where(db@.penalty_rules, rule_of(habit_id@)) && i
                < db.penalty_rules@.len(),
            None => first_where(db@.penalty_rules, rule_of(habit_id@))
                == db@.penalty_rules.len(),
        },
{
    let key = habit_id.to_owned();
    let ghost p = rule_of(habit_id@);
    let mut i: usize = 0;
    while i < db.penalty_rules.len()
        invariant
            i <= db.penalty_rules@.len(),
            key@ == habit_id@,
            p == rule_of(habit_id@),
            forall|k: int| 0 <= k < i ==> !p(#[trigger] db@.penalty_rules[k]),
        decreases db.penalty_rules@.len() - i,
    {
        if db.penalty_rules[i].habit_id == key {
            proof {
                assert(p(db@.penalty_rules[i as int]));
                lemma_first_where_is(db@.penalty_rules, p, i as int);
            }
            return Some(i);
        }
        i += 1;
    }
    proof {
        lemma_first_where_is(db@.penalty_rules, p, i as int);
    }
    None
}

/// Arms the rule of a habit, `ts_accepted` telling whether the
/// timestamp was read as a date and time.
pub fn upsert_rule_checked(
    db: &mut Db,
    habit_id: &str,
    armed_date: &str,
    armed_ts: &str,
    ts_accepted: bool,
    multiplier: u32,
    cap: u32,
    deadline_days: u32,
) -> (r: Result<PenaltyRule, CliError>)
    requires
        old(db).meta.next_penalty_rule_number < u32::MAX,
    ensures
        r is Ok <==> rule_fault(armed_date@, verdict_fault("ts"@, armed_ts@, ts_accepted), multiplier, cap) is None,
        r is Ok ==> {
            &&& r->Ok_0@ == armed_rule(
                old(db)@,
                habit_id@,
                armed_date@,
                armed_ts@,
                multiplier,
                cap,
                deadline_days,
            )
            &&& final(db)@ == with_rule(
                old(db)@,
                habit_id@,
                armed_date@,
                armed_ts@,
                multiplier,
                cap,
                deadline_days,
            )
        },
        r is Err ==> {
            &&& final(db)@ == old(db)@
            &&& r->Err_0.is_usage(
                rule_fault(armed_date@, verdict_fault("ts"@, armed_ts@, ts_accepted), multiplier, cap)->0,
            )
        },
{
    match parse_date_string(armed_date, "date") {
        Ok(_) => {},
        Err(e) => {
            return Err(e);
        },
    }
    match timestamp_verdict(armed_ts, "ts", ts_accepted) {
        Ok(_) => {},
        Err(e) => {
            return Err(e);
        },
    }
    if multiplier < 1 {
        return Err(CliError::usage("Invalid multiplier"));
    }
    if cap < 1 {
        return Err(CliError::usage("Invalid cap"));
    }
    let ghost before = db@;
    match find_first_rule(db, habit_id) {
        Some(i) => {
            let rule = PenaltyRule {
                id: db.penalty_rules[i].id.clone(),
                habit_id: db.penalty_rules[i].habit_id.clone(),
                multiplier,
                cap,
                deadline_days,
                armed_date: armed_date.to_owned(),
                armed_ts: trim(armed_ts),
            };
            let out = rule.clone();
            proof {
                lemma_first_where(before.penalty_rules, rule_of(habit_id@));
            }
            db.penalty_rules.set(i, rule);
            assert(db@.penalty_rules =~= before.penalty_rules.update(i as int, out@));
            Ok(out)
        },
        None => {
            let id = next_penalty_rule_id(db);
            let rule = PenaltyRule {
                id,
                habit_id: habit_id.to_owned(),
                multiplier,
                cap,
                deadline_days,
                armed_date: armed_date.to_owned(),
                armed_ts: trim(armed_ts),
            };
            let out = rule.clone();
            db.penalty_rules.push(rule);
            assert(db@.penalty_rules =~= before.penalty_rules.push(out@));
            Ok(out)
        },
    }
}

/// Arms the rule of a habit, or arms it anew.
pub fn upsert_rule(
    db: &mut Db,
    habit_id: &str,
    armed_date: &str,
    armed_ts: &str,
    multiplier: u32,
    cap: u32,
    deadline_days: u32,
) -> (r: Result<PenaltyRule, CliError>)
    requires
        old(db).meta.next_penalty_rule_number < u32::MAX,
    ensures
        r is Ok <==> rule_fault(armed_date@, timestamp_fault(armed_ts@), multiplier, cap) is None,
        r is Ok ==> {
            &&& r->Ok_0@ == armed_rule(
                old(db)@,
                habit_id@,
                armed_date@,
                armed_ts@,
                multiplier,
                cap,
                deadline_days,
            )
            &&& final(db)@ == with_rule(
                old(db)@,
                habit_id@,
                armed_date@,
                armed_ts@,
                multiplier,
                cap,
                deadline_days,
            )
        },
        r is Err ==> {
            &&& final(db)@ == old(db)@
            &&& r->Err_0.is_usage(
                rule_fault(armed_date@, timestamp_fault(armed_ts@), multiplier, cap)->0,
            )
        },
{
    let ts_accepted = is_rfc3339(armed_ts);
    upsert_rule_checked(db, habit_id, armed_date, armed_ts, ts_accepted, multiplier, cap, deadline_days)
}

/// The identifier of the debt of a habit for a date.
pub open spec fn debt_id_text(habit_id: Seq<char>, trigger_date: Seq<char>) -> Seq<char> {
    "pd_"@ + habit_id + "_"@ + compact(trigger_date)
}

/// The identifier of the debt of a habit for a date.
pub fn debt_id_for(habit_id: &str, trigger_date: &str) -> (id: String)
    ensures
        id@ == debt_id_text(habit_id@, trigger_date@),
{
    let mut id = "pd_".to_owned();
    id.append(habit_id);
    id.append("_");
    let tail = compact_date(trigger_date);
    id.append(tail.as_str());
    id
}

/// The name of a closing action in identifiers.
pub open spec fn action_kind_text(kind: PenaltyActionKind) -> Seq<char> {
    match kind {
        PenaltyActionKind::Resolve => "resolve"@,
        PenaltyActionKind::Void => "void"@,
    }
}

/// The identifier of the action of a kind on a debt.
pub open spec fn action_id_text(debt_id: Seq<char>, kind: PenaltyActionKind) -> Seq<char> {
    "pa_"@ + debt_id + "_"@ + action_kind_text(kind)
}

/// The identifier of the action of a kind on a debt.
pub fn action_id_for(debt_id: &str, kind: PenaltyActionKind) -> (id: String)
    ensures
        id@ == action_id_text(debt_id@, kind),
{
    let k = match kind {
        PenaltyActionKind::Resolve => "resolve",
        PenaltyActionKind::Void => "void",
    };
    let mut id = "pa_".to_owned();
    id.append(debt_id);
    id.append("_");
    id.append(k);
    id
}

/// The actions on one debt.
pub open spec fn action_on(debt_id: Seq<char>) -> spec_fn(PenaltyActionView) -> bool {
    |a: PenaltyActionView| a.debt_id == debt_id
}

/// The action with one identifier.
pub open spec fn action_with_id(id: Seq<char>) -> spec_fn(PenaltyActionView) -> bool {
    |a: PenaltyActionView| a.id == id
}

/// Whether an action has closed the debt.
pub open spec fn closed(actions: Seq<PenaltyActionView>, debt_id: Seq<char>) -> bool {
    any_where(actions, action_on(debt_id))
}

/// Whether an action has closed the debt.
pub fn is_closed(db: &Db, debt_id: &String) -> (r: bool)
    ensures
        r == closed(db@.penalty_actions, debt_id@),
{
    let ghost p = action_on(debt_id@);
    let mut i: usize = 0;
    while i < db.penalty_actions.len()
        invariant
            i <= db.penalty_actions@.len(),
            p == action_on(debt_id@),
            forall|k: int| 0 <= k < i ==> !p(#[trigger] db@.penalty_actions[k]),
        decreases db.penalty_actions@.len() - i,
    {
        if db.penalty_actions[i].debt_id == *debt_id {
            assert(p(db@.penalty_actions[i as int]));
            return true;
        }
        i += 1;
    }
    false
}

/// The identifiers of the debts of the actions, each once, in the order
/// in which the debts were first closed.
pub open spec fn closed_ids(actions: Seq<PenaltyActionView>) -> Seq<Seq<char>>
    decreases actions.len(),
{
    if actions.len() == 0 {
        Seq::empty()
    } else {
        let ids = closed_ids(actions.drop_last());
        if ids.contains(actions.last().debt_id) {
            ids
        } else {
            ids.push(actions.last().debt_id)
        }
    }
}

/// The identifiers of the debts that an action has closed, each once, in
/// the order in which they were first closed.
pub fn debt_closed_map(db: &Db) -> (ids: Vec<String>)
    ensures
        crate::text::texts_of(ids@) == closed_ids(db@.penalty_actions),
        forall|i: int, j: int| 0 <= i < j < ids@.len() ==> ids@[i]@ != ids@[j]@,
        forall|id: Seq<char>|
            crate::text::texts_of(ids@).contains(id) <==> closed(db@.penalty_actions, id),
{
    let ghost all = db@.penalty_actions;
    let mut ids: Vec<String> = Vec::new();
    let mut i: usize = 0;
    assert(all.take(0) =~= Seq::empty());
    assert(crate::text::texts_of(ids@) =~= closed_ids(all.take(0)));
    while i < db.penalty_actions.len()
        invariant
            i <= db.penalty_actions@.len(),
            all == db@.penalty_actions,
            crate::text::texts_of(ids@) == closed_ids(all.take(i as int)),
            forall|a: int, b: int| 0 <= a < b < ids@.len() ==> ids@[a]@ != ids@[b]@,
            forall|id: Seq<char>|
                crate::text::texts_of(ids@).contains(id) <==> closed(all.take(i as int), id),
        decreases db.penalty_actions@.len() - i,
    {
        let ghost before = crate::text::texts_of(ids@);
        let seen = crate::checkins::contains_text(&ids, &db.penalty_actions[i].debt_id);
        if !seen {
            ids.push(db.penalty_actions[i].debt_id.clone());
        }
        proof {
            let now = crate::text::texts_of(ids@);
            let next = all.take(i + 1);
            let x = all[i as int].debt_id;
            assert(next.drop_last() =~= all.take(i as int));
            if !seen {
                assert(now =~= before.push(x));
            } else {
                assert(now =~= before);
            }
            assert forall|id: Seq<char>| now.contains(id) <==> closed(next, id) by {
                if now.contains(id) {
                    let k = choose|k: int| 0 <= k < now.len() && now[k] == id;
                    if k < before.len() {
                        assert(before[k] == id);
                        assert(before.contains(id));
                        let m = choose|m: int|
                            0 <= m < all.take(i as int).len() && action_on(id)(
                                #[trigger] all.take(i as int)[m],
                            );
                        assert(action_on(id)(next[m]));
                    } else {
                        assert(id == x);
                        assert(action_on(id)(next[i as int]));
                    }
                }
                if closed(next, id) {
                    let m = choose|m: int| 0 <= m < next.len() && action_on(id)(#[trigger] next[m]);
                    if m < i {
                        assert(action_on(id)(all.take(i as int)[m]));
                        assert(before.contains(id));
                        let k = choose|k: int| 0 <= k < before.len() && before[k] == id;
                        assert(now[k] == id);
                    } else {
                        assert(id == x);
                        if seen {
                            let k = choose|k: int| 0 <= k < before.len() && before[k] == id;
                            assert(now[k] == id);
                        } else {
                            assert(now[now.len() - 1] == id);
                        }
                    }
                }
            }
            assert forall|a: int, b: int| 0 <= a < b < ids@.len() implies ids@[a]@ != ids@[b]@ by {
                if b >= before.len() {
                    assert(before[a] == ids@[a]@);
                }
            }
        }
        i += 1;
    }
    assert(all.take(all.len() as int) =~= all);
    ids
}

/// The debts that no action has closed and that are due on `date` or
/// before.
pub open spec fn outstanding_on(actions: Seq<PenaltyActionView>, date: Seq<char>) -> spec_fn(
    PenaltyDebtView,
) -> bool {
    |d: PenaltyDebtView| !closed(actions, d.id) && lex_le(d.due_date, date)
}

/// By due date, then by habit, then by identifier.
pub struct ByDue;

impl Order<PenaltyDebt> for ByDue {
    open spec fn before(a: PenaltyDebtView, b: PenaltyDebtView) -> bool {
        if a.due_date != b.due_date {
            lex_lt(a.due_date, b.due_date)
        } else if a.habit_id != b.habit_id {
            lex_lt(a.habit_id, b.habit_id)
        } else {
            lex_lt(a.id, b.id)
        }
    }

    fn is_before(a: &PenaltyDebt, b: &PenaltyDebt) -> (r: bool) {
        if a.due_date != b.due_date {
            str_lt(a.due_date.as_str(), b.due_date.as_str())
        } else if a.habit_id != b.habit_id {
            str_lt(a.habit_id.as_str(), b.habit_id.as_str())
        } else {
            str_lt(a.id.as_str(), b.id.as_str())
        }
    }
}

/// By identifier.
pub struct ById;

impl Order<PenaltyDebt> for ById {
    open spec fn before(a: PenaltyDebtView, b: PenaltyDebtView) -> bool {
        lex_lt(a.id, b.id)
    }

    fn is_before(a: &PenaltyDebt, b: &PenaltyDebt) -> (r: bool) {
        str_lt(a.id.as_str(), b.id.as_str())
    }
}

/// By due date, habit and identifier is a strict weak order.
pub proof fn lemma_by_due_order()
    ensures
        strict_weak::<PenaltyDebt, ByDue>(),
{
    assert forall|a: PenaltyDebtView, b: PenaltyDebtView| #[trigger] ByDue::before(a, b) implies !ByDue::before(
        b,
        a,
    ) by {
        let c = a;
        lemma_lex_order(a.due_date, b.due_date, c.due_date);
        lemma_lex_order(a.due_date, c.due_date, b.due_date);
        lemma_lex_order(b.due_date, a.due_date, c.due_date);
        lemma_lex_order(b.due_date, c.due_date, a.due_date);
        lemma_lex_order(c.due_date, a.due_date, b.due_date);
        lemma_lex_order(c.due_date, b.due_date, a.due_date);
        lemma_lex_order(a.habit_id, b.habit_id, c.habit_id);
        lemma_lex_order(a.habit_id, c.habit_id, b.habit_id);
        lemma_lex_order(b.habit_id, a.habit_id, c.habit_id);
        lemma_lex_order(b.habit_id, c.habit_id, a.habit_id);
        lemma_lex_order(c.habit_id, a.habit_id, b.habit_id);
        lemma_lex_order(c.habit_id, b.habit_id, a.habit_id);
        lemma_lex_order(a.id, b.id, c.id);
        lemma_lex_order(a.id, c.id, b.id);
        lemma_lex_order(b.id, a.id, c.id);
        lemma_lex_order(b.id, c.id, a.id);
        lemma_lex_order(c.id, a.id, b.id);
        lemma_lex_order(c.id, b.id, a.id);
    }
    assert forall|a: PenaltyDebtView, b: PenaltyDebtView, c: PenaltyDebtView|
        #![trigger ByDue::before(b, a), ByDue::before(c, b)]
        !ByDue::before(b, a) && !ByDue::before(c, b) implies !ByDue::before(c, a) by {
        lemma_lex_order(a.due_date, b.due_date, c.due_date);
        lemma_lex_order(a.due_date, c.due_date, b.due_date);
        lemma_lex_order(b.due_date, a.due_date, c.due_date);
        lemma_lex_order(b.due_date, c.due_date, a.due_date);
        lemma_lex_order(c.due_date, a.due_date, b.due_date);
        lemma_lex_order(c.due_date, b.due_date, a.due_date);
        lemma_lex_order(a.habit_id, b.habit_id, c.habit_id);
        lemma_lex_order(a.habit_id, c.habit_id, b.habit_id);
        lemma_lex_order(b.habit_id, a.habit_id, c.habit_id);
        lemma_lex_order(b.habit_id, c.habit_id, a.habit_id);
        lemma_lex_order(c.habit_id, a.habit_id, b.habit_id);
        lemma_lex_order(c.habit_id, b.habit_id, a.habit_id);
        lemma_lex_order(a.id, b.id, c.id);
        lemma_lex_order(a.id, c.id, b.id);
        lemma_lex_order(b.id, a.id, c.id);
        lemma_lex_order(b.id, c.id, a.id);
        lemma_lex_order(c.id, a.id, b.id);
        lemma_lex_order(c.id, b.id, a.id);
    }
}

/// By identifier is a strict weak order.
pub proof fn lemma_by_id_order()
    ensures
        strict_weak::<PenaltyDebt, ById>(),
{
    assert forall|a: PenaltyDebtView, b: PenaltyDebtView| #[trigger] ById::before(a, b) implies !ById::before(
        b,
        a,
    ) by {
        let c = a;
        lemma_lex_order(a.id, b.id, c.id);
        lemma_lex_order(a.id, c.id, b.id);
        lemma_lex_order(b.id, a.id, c.id);
        lemma_lex_order(b.id, c.id, a.id);
        lemma_lex_order(c.id, a.id, b.id);
        lemma_lex_order(c.id, b.id, a.id);
    }
    assert forall|a: PenaltyDebtView, b: PenaltyDebtView, c: PenaltyDebtView|
        #![trigger ById::before(b, a), ById::before(c, b)]
        !ById::before(b, a) && !ById::before(c, b) implies !ById::before(c, a) by {
        lemma_lex_order(a.id, b.id, c.id);
        lemma_lex_order(a.id, c.id, b.id);
        lemma_lex_order(b.id, a.id, c.id);
        lemma_lex_order(b.id, c.id, a.id);
        lemma_lex_order(c.id, a.id, b.id);
        lemma_lex_order(c.id, b.id, a.id);
    }
}

/// The debts outstanding as of a date, in the order in which they are
/// listed.
pub open spec fn outstanding_as_of(db: DbView, date: Seq<char>) -> Seq<PenaltyDebtView> {
    stable_sort::<PenaltyDebt, ByDue>(
        keep(db.penalty_debts, outstanding_on(db.penalty_actions, date)),
    )
}

/// The debts that no action has closed and that are due on `date` or
/// before, by due date, habit and identifier.
pub fn outstanding_debts_as_of(db: &Db, date: &str) -> (r: Result<Vec<PenaltyDebt>, CliError>)
    ensures
        r is Ok <==> is_date(date@),
        r is Ok ==> views_of(r->Ok_0@) == outstanding_as_of(db@, date@) && in_order::<
            PenaltyDebt,
            ByDue,
        >(views_of(r->Ok_0@)),
        r is Err ==> r->Err_0.is_usage(invalid_text("date"@, date@)),
{
    match parse_date_string(date, "date") {
        Ok(_) => {},
        Err(e) => {
            return Err(e);
        },
    }
    let ghost p = outstanding_on(db@.penalty_actions, date@);
    let ghost all = db@.penalty_debts;
    let mut picked: Vec<PenaltyDebt> = Vec::new();
    let mut i: usize = 0;
    assert(all.take(0) =~= Seq::empty());
    assert(views_of(picked@) =~= keep(all.take(0), p));
    while i < db.penalty_debts.len()
        invariant
            i <= db.penalty_debts@.len(),
            all == db@.penalty_debts,
            p == outstanding_on(db@.penalty_actions, date@),
            views_of(picked@) == keep(all.take(i as int), p),
        decreases db.penalty_debts@.len() - i,
    {
        proof {
            assert(all.take(i + 1).drop_last() =~= all.take(i as int));
        }
        let ghost before = views_of(picked@);
        let d = &db.penalty_debts[i];
        if !is_closed(db, &d.id) && str_le(d.due_date.as_str(), date) {
            picked.push(d.clone());
            assert(views_of(picked@) =~= before.push(all[i as int]));
        }
        i += 1;
    }
    assert(all.take(all.len() as int) =~= all);
    proof {
        lemma_by_due_order();
    }
    Ok(sort_vec::<PenaltyDebt, ByDue>(picked))
}

/// The largest quantity among the outstanding debts of the habit that are
/// due exactly on `date`, if there is such a debt.
pub open spec fn carry_in(
    debts: Seq<PenaltyDebtView>,
    actions: Seq<PenaltyActionView>,
    habit_id: Seq<char>,
    date: Seq<char>,
) -> Option<u32>
    decreases debts.len(),
{
    if debts.len() == 0 {
        None
    } else {
        let rest = carry_in(debts.drop_last(), actions, habit_id, date);
        let d = debts.last();
        if d.habit_id == habit_id && d.due_date == date && !closed(actions, d.id) {
            match rest {
                Some(q) => Some(if q >= d.quantity {
                    q
                } else {
                    d.quantity
                }),
                None => Some(d.quantity),
            }
        } else {
            rest
        }
    }
}

/// Whether a tick of `date` looks at the habit: it is shown, counted by
/// the day, has a rule, is scheduled on the date and not excused.
pub open spec fn tick_considers(db: DbView, h: HabitView, date: Seq<char>, include_archived: bool) -> bool {
    &&& include_archived || !h.archived
    &&& h.target.period == Period::Day
    &&& last_where(db.penalty_rules, rule_of(h.id)) >= 0
    &&& scheduled_on(h, date)
    &&& !excused(db.excuses, h.id, date)
}

/// Whether the habit owes a debt for `date`: the tick looks at it, and the
/// day was missed or a debt that fell due on it is still open.
pub open spec fn owes_debt(db: DbView, h: HabitView, date: Seq<char>, include_archived: bool) -> bool {
    &&& tick_considers(db, h, date, include_archived)
    &&& !(done_on(db, h, date) && carry_in(db.penalty_debts, db.penalty_actions, h.id, date)
        is None)
}

/// The debts with one identifier.
pub open spec fn debt_with_id(id: Seq<char>) -> spec_fn(PenaltyDebtView) -> bool {
    |d: PenaltyDebtView| d.id == id
}

/// The quantity of a new debt: the base times the multiplier, held at the
/// cap.
pub open spec fn escalated(base: u32, multiplier: u32, cap: u32) -> u32 {
    if base * multiplier >= cap {
        cap
    } else {
        (base * multiplier) as u32
    }
}

/// The base of a new debt: the target, or the debt carried in where that is
/// larger.
pub open spec fn debt_base(carried: Option<u32>, target: u32) -> u32 {
    match carried {
        Some(q) => if q >= target {
            q
        } else {
            target
        },
        None => target,
    }
}

/// The debt that the habit owes for `date`, due the day after.
pub open spec fn new_debt(db: DbView, h: HabitView, date: Seq<char>, ts: Seq<char>) -> PenaltyDebtView {
    let rule = db.penalty_rules[last_where(db.penalty_rules, rule_of(h.id))];
    let carried = carry_in(db.penalty_debts, db.penalty_actions, h.id, date);
    PenaltyDebtView {
        id: debt_id_text(h.id, date),
        habit_id: h.id,
        trigger_date: date,
        due_date: day_text(date_day(date) + 1),
        quantity: escalated(debt_base(carried, h.target.quantity), rule.multiplier, rule.cap),
        rule_id: rule.id,
        created_date: date,
        created_ts: trimmed(ts),
    }
}

/// The debt that a tick records for one habit: the debt it owes, unless a
/// debt with that identifier is there already.
pub open spec fn tick_step(
    db: DbView,
    h: HabitView,
    date: Seq<char>,
    ts: Seq<char>,
    include_archived: bool,
) -> Option<PenaltyDebtView> {
    if owes_debt(db, h, date, include_archived) && !any_where(
        db.penalty_debts,
        debt_with_id(debt_id_text(h.id, date)),
    ) {
        Some(new_debt(db, h, date, ts))
    } else {
        None
    }
}

/// The store after a tick has gone through the first `n` habits.
pub open spec fn tick_state(
    db: DbView,
    n: int,
    date: Seq<char>,
    ts: Seq<char>,
    include_archived: bool,
) -> DbView
    decreases n,
{
    if n <= 0 {
        db
    } else {
        let cur = tick_state(db, n - 1, date, ts, include_archived);
        match tick_step(cur, db.habits[n - 1], date, ts, include_archived) {
            Some(d) => DbView { penalty_debts: cur.penalty_debts.push(d), ..cur },
            None => cur,
        }
    }
}

/// The store after a tick of `date`.
pub open spec fn after_tick(db: DbView, date: Seq<char>, ts: Seq<char>, include_archived: bool) -> DbView {
    tick_state(db, db.habits.len() as int, date, ts, include_archived)
}

/// The debts that a tick of `date` creates, by identifier.
pub open spec fn created_by_tick(
    db: DbView,
    date: Seq<char>,
    ts: Seq<char>,
    include_archived: bool,
) -> Seq<PenaltyDebtView> {
    stable_sort::<PenaltyDebt, ById>(
        after_tick(db, date, ts, include_archived).penalty_debts.skip(
            db.penalty_debts.len() as int,
        ),
    )
}

/// The first fault of a tick, as its error message, or `None`.
pub open spec fn tick_fault(date: Seq<char>, ts_fault: Option<Seq<char>>) -> Option<Seq<char>> {
    if !is_date(date) {
        Some(invalid_text("date"@, date))
    } else {
        ts_fault
    }
}

/// The last rule of the habit.
fn find_last_rule(db: &Db, habit_id: &String) -> (r: Option<usize>)
    ensures
        match r {
            Some(i) => i == last_where(db@.penalty_rules, rule_of(habit_id@)) && i
                < db.penalty_rules@.len(),
            None => last_where(db@.penalty_rules, rule_of(habit_id@)) == -1,
        },
{
    let ghost p = rule_of(habit_id@);
    let mut i: usize = db.penalty_rules.len();
    while i > 0
        invariant
            i <= db.penalty_rules@.len(),
            p == rule_of(habit_id@),
            forall|k: int| i <= k < db.penalty_rules@.len() ==> !p(#[trigger] db@.penalty_rules[k]),
        decreases i,
    {
        i -= 1;
        if db.penalty_rules[i].habit_id == *habit_id {
            proof {
                assert(p(db@.penalty_rules[i as int]));
                lemma_last_where_is(db@.penalty_rules, p, i as int);
            }
            return Some(i);
        }
    }
    proof {
        lemma_last_where_is(db@.penalty_rules, p, -1);
    }
    None
}

/// The largest quantity among the outstanding debts of the habit that are
/// due exactly on `date`.
fn find_carry_in(db: &Db, habit_id: &String, date: &str) -> (r: Option<u32>)
    ensures
        r == carry_in(db@.penalty_debts, db@.penalty_actions, habit_id@, date@),
{
    let date_key = date.to_owned();
    let ghost all = db@.penalty_debts;
    let mut carried: Option<u32> = None;
    let mut i: usize = 0;
    assert(all.take(0) =~= Seq::empty());
    while i < db.penalty_debts.len()
        invariant
            i <= db.penalty_debts@.len(),
            all == db@.penalty_debts,
            date_key@ == date@,
            carried == carry_in(all.take(i as int), db@.penalty_actions, habit_id@, date@),
        decreases db.penalty_debts@.len() - i,
    {
        proof {
            assert(all.take(i + 1).drop_last() =~= all.take(i as int));
        }
        let d = &db.penalty_debts[i];
        if d.habit_id == *habit_id && d.due_date == date_key && !is_closed(db, &d.id) {
            carried = match carried {
                Some(q) => Some(if q >= d.quantity {
                    q
                } else {
                    d.quantity
                }),
                None => Some(d.quantity),
            };
        }
        i += 1;
    }
    assert(all.take(all.len() as int) =~= all);
    carried
}

/// Whether a debt has the identifier.
fn has_debt(db: &Db, id: &String) -> (r: bool)
    ensures
        r == any_where(db@.penalty_debts, debt_with_id(id@)),
{
    let ghost p = debt_with_id(id@);
    let mut i: usize = 0;
    while i < db.penalty_debts.len()
        invariant
            i <= db.penalty_debts@.len(),
            p == debt_with_id(id@),
            forall|k: int| 0 <= k < i ==> !p(#[trigger] db@.penalty_debts[k]),
        decreases db.penalty_debts@.len() - i,
    {
        if db.penalty_debts[i].id == *id {
            assert(p(db@.penalty_debts[i as int]));
            return true;
        }
        i += 1;
    }
    false
}

/// The debt that a tick records for the habit at `index`.
fn tick_habit(
    db: &Db,
    index: usize,
    date: &str,
    weekday: u8,
    due_date: &String,
    ts: &String,
    include_archived: bool,
    Ghost(raw_ts): Ghost<Seq<char>>,
) -> (r: Option<PenaltyDebt>)
    requires
        index < db.habits@.len(),
        is_date(date@),
        weekday == weekday_of_day(date_day(date@)),
        due_date@ == day_text(date_day(date@) + 1),
        ts@ == trimmed(raw_ts),
    ensures
        match r {
            Some(d) => tick_step(db@, db@.habits[index as int], date@, raw_ts, include_archived)
                == Some(d@),
            None => tick_step(db@, db@.habits[index as int], date@, raw_ts, include_archived)
                is None,
        },
{
    let h = &db.habits[index];
    if !include_archived && h.archived {
        return None;
    }
    match h.target.period {
        Period::Day => {},
        Period::Week => {
            return None;
        },
    }
    let rule_index = match find_last_rule(db, &h.id) {
        Some(i) => i,
        None => {
            return None;
        },
    };
    if str_lt(date, h.created_date.as_str()) || !has_weekday(&h.schedule.days, weekday) {
        return None;
    }
    if has_allowed_excuse(db, h.id.as_str(), date) {
        return None;
    }
    assert(tick_considers(db@, h@, date@, include_archived));
    let done_qty = counted_quantity(db, h, date);
    let declared = is_declared(db, h, date);
    let habit_done = declared && done_qty >= h.target.quantity;
    // An open debt that fell due on this date counts as a miss.
    let carried = find_carry_in(db, &h.id, date);
    if habit_done && carried.is_none() {
        return None;
    }
    let debt_id = debt_id_for(h.id.as_str(), date);
    if has_debt(db, &debt_id) {
        return None;
    }
    let base: u32 = match carried {
        Some(q) => if q >= h.target.quantity {
            q
        } else {
            h.target.quantity
        },
        None => h.target.quantity,
    };
    let rule = &db.penalty_rules[rule_index];
    assert(base * rule.multiplier <= 0xFFFF_FFFF * 0xFFFF_FFFF) by (nonlinear_arith)
        requires
            base <= 0xFFFF_FFFF,
            rule.multiplier <= 0xFFFF_FFFF,
    ;
    let product: u64 = base as u64 * rule.multiplier as u64;
    let quantity: u32 = if product >= rule.cap as u64 {
        rule.cap
    } else {
        product as u32
    };
    Some(
        PenaltyDebt {
            id: debt_id,
            habit_id: h.id.clone(),
            trigger_date: date.to_owned(),
            due_date: due_date.clone(),
            quantity,
            rule_id: rule.id.clone(),
            created_date: date.to_owned(),
            created_ts: ts.clone(),
        },
    )
}

/// Runs a tick of `date`, `ts_accepted` telling whether the
/// timestamp was read as a date and time.
pub fn tick_checked(
    db: &mut Db,
    date: &str,
    ts: &str,
    ts_accepted: bool,
    include_archived: bool,
) -> (r: Result<Vec<PenaltyDebt>, CliError>)
    ensures
        r is Ok <==> tick_fault(date@, verdict_fault("ts"@, ts@, ts_accepted)) is None,
        r is Ok ==> {
            &&& final(db)@ == after_tick(old(db)@, date@, ts@, include_archived)
            &&& views_of(r->Ok_0@) == created_by_tick(old(db)@, date@, ts@, include_archived)
            &&& in_order::<PenaltyDebt, ById>(views_of(r->Ok_0@))
        },
        r is Err ==> {
            &&& final(db)@ == old(db)@
            &&& r->Err_0.is_usage(tick_fault(date@, verdict_fault("ts"@, ts@, ts_accepted))->0)
        },
{
    let day = match parse_day(date, "date") {
        Ok(n) => n,
        Err(e) => {
            return Err(e);
        },
    };
    match timestamp_verdict(ts, "ts", ts_accepted) {
        Ok(_) => {},
        Err(e) => {
            return Err(e);
        },
    }
    let weekday = weekday_from_days(day);
    let due_date = fmt_day(day + 1);
    let stamp = trim(ts);
    let ghost start = db@;
    let mut created: Vec<PenaltyDebt> = Vec::new();
    let mut i: usize = 0;
    assert(db@.penalty_debts =~= start.penalty_debts + views_of(created@));
    while i < db.habits.len()
        invariant
            i <= db.habits@.len(),
            is_date(date@),
            weekday == weekday_of_day(date_day(date@)),
            due_date@ == day_text(date_day(date@) + 1),
            stamp@ == trimmed(ts@),
            db@.habits == start.habits,
            db@ == tick_state(start, i as int, date@, ts@, include_archived),
            db@.penalty_debts == start.penalty_debts + views_of(created@),
        decreases db.habits@.len() - i,
    {
        let ghost cur = db@;
        let ghost made = views_of(created@);
        match tick_habit(db, i, date, weekday, &due_date, &stamp, include_archived, Ghost(ts@)) {
            Some(debt) => {
                let copy = debt.clone();
                db.penalty_debts.push(debt);
                created.push(copy);
                assert(db@.penalty_debts =~= cur.penalty_debts.push(copy@));
                assert(views_of(created@) =~= made.push(copy@));
                assert(db@.penalty_debts =~= start.penalty_debts + views_of(created@));
            },
            None => {},
        }
        i += 1;
    }
    assert(views_of(created@) =~= db@.penalty_debts.skip(start.penalty_debts.len() as int));
    proof {
        lemma_by_id_order();
    }
    Ok(sort_vec::<PenaltyDebt, ById>(created))
}

/// Goes through the habits for `date` and records the debt of each one
/// that owes one. Returns the debts it has created, by identifier.
pub fn tick(db: &mut Db, date: &str, ts: &str, include_archived: bool) -> (r: Result<
    Vec<PenaltyDebt>,
    CliError,
>)
    ensures
        r is Ok <==> tick_fault(date@, timestamp_fault(ts@)) is None,
        r is Ok ==> {
            &&& final(db)@ == after_tick(old(db)@, date@, ts@, include_archived)
            &&& views_of(r->Ok_0@) == created_by_tick(old(db)@, date@, ts@, include_archived)
            &&& in_order::<PenaltyDebt, ById>(views_of(r->Ok_0@))
        },
        r is Err ==> {
            &&& final(db)@ == old(db)@
            &&& r->Err_0.is_usage(tick_fault(date@, timestamp_fault(ts@))->0)
        },
{
    let ts_accepted = is_rfc3339(ts);
    tick_checked(db, date, ts, ts_accepted, include_archived)
}

/// The first fault of the input to a closing action, as its error message,
/// or `None`; `ts_fault` is the fault of the timestamp, if any.
pub open spec fn close_fault(
    date: Seq<char>,
    ts_fault: Option<Seq<char>>,
    reason: Seq<char>,
) -> Option<Seq<char>> {
    if !is_date(date) {
        Some(invalid_text("date"@, date))
    } else if ts_fault is Some {
        ts_fault
    } else if trimmed(reason).len() == 0 {
        Some("Reason is required"@)
    } else {
        None
    }
}

/// The message for a debt that is not in the store.
pub open spec fn unknown_debt_text(debt_id: Seq<char>) -> Seq<char> {
    "Penalty debt not found: "@ + debt_id
}

/// The action that a request to close a debt would record.
pub open spec fn requested_action(
    debt_id: Seq<char>,
    kind: PenaltyActionKind,
    date: Seq<char>,
    ts: Seq<char>,
    reason: Seq<char>,
) -> PenaltyActionView {
    PenaltyActionView {
        id: action_id_text(debt_id, kind),
        debt_id,
        kind,
        date,
        ts: trimmed(ts),
        reason: trimmed(reason),
    }
}

/// The action that stands for a request to close a debt: the action that
/// has the identifier of the request, else the first action on the debt,
/// else the requested action itself.
pub open spec fn closing_action(
    actions: Seq<PenaltyActionView>,
    debt_id: Seq<char>,
    kind: PenaltyActionKind,
    date: Seq<char>,
    ts: Seq<char>,
    reason: Seq<char>,
) -> PenaltyActionView {
    let by_id = first_where(actions, action_with_id(action_id_text(debt_id, kind)));
    let by_debt = first_where(actions, action_on(debt_id));
    if by_id < actions.len() {
        actions[by_id]
    } else if by_debt < actions.len() {
        actions[by_debt]
    } else {
        requested_action(debt_id, kind, date, ts, reason)
    }
}

/// The actions after a request to close a debt: one more where the
/// request is the first for the debt, else the same.
pub open spec fn with_closing(
    actions: Seq<PenaltyActionView>,
    debt_id: Seq<char>,
    kind: PenaltyActionKind,
    date: Seq<char>,
    ts: Seq<char>,
    reason: Seq<char>,
) -> Seq<PenaltyActionView> {
    let by_id = first_where(actions, action_with_id(action_id_text(debt_id, kind)));
    let by_debt = first_where(actions, action_on(debt_id));
    if by_id < actions.len() || by_debt < actions.len() {
        actions
    } else {
        actions.push(requested_action(debt_id, kind, date, ts, reason))
    }
}

/// The error for a debt that is not in the store.
fn unknown_debt(debt_id: &str) -> (e: CliError)
    ensures
        e.is_not_found(unknown_debt_text(debt_id@)),
{
    let mut message = "Penalty debt not found: ".to_owned();
    message.append(debt_id);
    CliError { message, exit_code: crate::error::EXIT_NOT_FOUND }
}

/// The first action that `p` holds of, `p` being one of the two searches
/// of a closing request.
fn find_action(db: &Db, key: &String, by_id: bool) -> (r: Option<usize>)
    ensures
        ({
            let p = if by_id {
                action_with_id(key@)
            } else {
                action_on(key@)
            };
            match r {
                Some(i) => i == first_where(db@.penalty_actions, p) && i
                    < db.penalty_actions@.len(),
                None => first_where(db@.penalty_actions, p) == db@.penalty_actions.len(),
            }
        }),
{
    let ghost p = if by_id {
        action_with_id(key@)
    } else {
        action_on(key@)
    };
    let mut i: usize = 0;
    while i < db.penalty_actions.len()
        invariant
            i <= db.penalty_actions@.len(),
            p == (if by_id {
                action_with_id(key@)
            } else {
                action_on(key@)
            }),
            forall|k: int| 0 <= k < i ==> !p(#[trigger] db@.penalty_actions[k]),
        decreases db.penalty_actions@.len() - i,
    {
        let a = &db.penalty_actions[i];
        let hit = if by_id {
            a.id == *key
        } else {
            a.debt_id == *key
        };
        if hit {
            proof {
                assert(p(db@.penalty_actions[i as int]));
                lemma_first_where_is(db@.penalty_actions, p, i as int);
            }
            return Some(i);
        }
        i += 1;
    }
    proof {
        lemma_first_where_is(db@.penalty_actions, p, i as int);
    }
    None
}

/// Closes a debt, `ts_accepted` telling whether the
/// timestamp was read as a date and time.
pub fn resolve_or_void_checked(
    db: &mut Db,
    debt_id: &str,
    kind: PenaltyActionKind,
    date: &str,
    ts: &str,
    ts_accepted: bool,
    reason: &str,
) -> (r: Result<PenaltyAction, CliError>)
    ensures
        r is Ok <==> close_fault(date@, verdict_fault("ts"@, ts@, ts_accepted), reason@) is None && any_where(
            old(db)@.penalty_debts,
            debt_with_id(debt_id@),
        ),
        r is Ok ==> {
            &&& r->Ok_0@ == closing_action(
                old(db)@.penalty_actions,
                debt_id@,
                kind,
                date@,
                ts@,
                reason@,
            )
            &&& final(db)@ == (DbView {
                penalty_actions: with_closing(
                    old(db)@.penalty_actions,
                    debt_id@,
                    kind,
                    date@,
                    ts@,
                    reason@,
                ),
                ..old(db)@
            })
        },
        r is Err ==> {
            &&& final(db)@ == old(db)@
            &&& if close_fault(date@, verdict_fault("ts"@, ts@, ts_accepted), reason@) is Some {
                r->Err_0.is_usage(close_fault(date@, verdict_fault("ts"@, ts@, ts_accepted), reason@)->0)
            } else {
                r->Err_0.is_not_found(unknown_debt_text(debt_id@))
            }
        },
{
    match parse_date_string(date, "date") {
        Ok(_) => {},
        Err(e) => {
            return Err(e);
        },
    }
    match timestamp_verdict(ts, "ts", ts_accepted) {
        Ok(_) => {},
        Err(e) => {
            return Err(e);
        },
    }
    let r = trim(reason);
    if r.as_str().unicode_len() == 0 {
        return Err(CliError::usage("Reason is required"));
    }
    let debt_key = debt_id.to_owned();
    if !has_debt(db, &debt_key) {
        return Err(unknown_debt(debt_id));
    }
    let action_id = action_id_for(debt_id, kind);
    match find_action(db, &action_id, true) {
        Some(i) => {
            return Ok(db.penalty_actions[i].clone());
        },
        None => {},
    }
    // The first action on a debt stands, whatever its kind.
    match find_action(db, &debt_key, false) {
        Some(i) => {
            return Ok(db.penalty_actions[i].clone());
        },
        None => {},
    }
    let ghost before = db@;
    let action = PenaltyAction {
        id: action_id,
        debt_id: debt_key,
        kind,
        date: date.to_owned(),
        ts: trim(ts),
        reason: r,
    };
    let out = action.clone();
    db.penalty_actions.push(action);
    assert(db@.penalty_actions =~= before.penalty_actions.push(out@));
    Ok(out)
}

/// Closes a debt by resolving or voiding it. The first action on a debt
/// stands: a later request returns it and records nothing.
pub fn resolve_or_void(
    db: &mut Db,
    debt_id: &str,
    kind: PenaltyActionKind,
    date: &str,
    ts: &str,
    reason: &str,
) -> (r: Result<PenaltyAction, CliError>)
    ensures
        r is Ok <==> close_fault(date@, timestamp_fault(ts@), reason@) is None && any_where(
            old(db)@.penalty_debts,
            debt_with_id(debt_id@),
        ),
        r is Ok ==> {
            &&& r->Ok_0@ == closing_action(
                old(db)@.penalty_actions,
                debt_id@,
                kind,
                date@,
                ts@,
                reason@,
            )
            &&& final(db)@ == (DbView {
                penalty_actions: with_closing(
                    old(db)@.penalty_actions,
                    debt_id@,
                    kind,
                    date@,
                    ts@,
                    reason@,
                ),
                ..old(db)@
            })
        },
        r is Err ==> {
            &&& final(db)@ == old(db)@
            &&& if close_fault(date@, timestamp_fault(ts@), reason@) is Some {
                r->Err_0.is_usage(close_fault(date@, timestamp_fault(ts@), reason@)->0)
            } else {
                r->Err_0.is_not_found(unknown_debt_text(debt_id@))
            }
        },
{
    let ts_accepted = is_rfc3339(ts);
    resolve_or_void_checked(db, debt_id, kind, date, ts, ts_accepted, reason)
}

/// What a tick of `date` may do to a store: `later` is `db` with debts
/// added behind those of `db`, each of them made for `date` and due the day
/// after, under the identifier of its habit and date, for a habit that is
/// not excused on `date`.
pub open spec fn grown_by_tick(db: DbView, later: DbView, date: Seq<char>) -> bool {
    &&& later == (DbView { penalty_debts: later.penalty_debts, ..db })
    &&& db.penalty_debts.len() <= later.penalty_debts.len()
    &&& forall|j: int|
        0 <= j < db.penalty_debts.len() ==> #[trigger] later.penalty_debts[j]
            == db.penalty_debts[j]
    &&& forall|j: int|
        db.penalty_debts.len() <= j < later.penalty_debts.len() ==> {
            let d = #[trigger] later.penalty_debts[j];
            &&& d.due_date == day_text(date_day(date) + 1)
            &&& d.trigger_date == date
            &&& d.id == debt_id_text(d.habit_id, date)
            &&& !excused(db.excuses, d.habit_id, date)
        }
}

/// Between any two stages of a tick the store only grows as a tick lets it.
pub proof fn lemma_tick_grows(
    db: DbView,
    k: int,
    n: int,
    date: Seq<char>,
    ts: Seq<char>,
    include_archived: bool,
)
    requires
        0 <= k <= n,
    ensures
        grown_by_tick(
            tick_state(db, k, date, ts, include_archived),
            tick_state(db, n, date, ts, include_archived),
            date,
        ),
    decreases n - k,
{
    let from = tick_state(db, k, date, ts, include_archived);
    if n > k {
        lemma_tick_grows(db, k, n - 1, date, ts, include_archived);
        let cur = tick_state(db, n - 1, date, ts, include_archived);
        let to = tick_state(db, n, date, ts, include_archived);
        match tick_step(cur, db.habits[n - 1], date, ts, include_archived) {
            Some(d) => {
                assert(to.penalty_debts == cur.penalty_debts.push(d));
                assert forall|j: int|
                    from.penalty_debts.len() <= j < to.penalty_debts.len() implies {
                    let d = #[trigger] to.penalty_debts[j];
                    &&& d.due_date == day_text(date_day(date) + 1)
                    &&& d.trigger_date == date
                    &&& d.id == debt_id_text(d.habit_id, date)
                    &&& !excused(from.excuses, d.habit_id, date)
                } by {
                    if j < cur.penalty_debts.len() {
                        assert(to.penalty_debts[j] == cur.penalty_debts[j]);
                    }
                }
                assert forall|j: int| 0 <= j < from.penalty_debts.len() implies #[trigger] to.penalty_debts[j]
                    == from.penalty_debts[j] by {
                    assert(to.penalty_debts[j] == cur.penalty_debts[j]);
                }
            },
            None => {},
        }
    }
}

/// Debts that are not due on `date` carry nothing into it.
pub proof fn lemma_carry_in_skips(
    debts: Seq<PenaltyDebtView>,
    more: Seq<PenaltyDebtView>,
    actions: Seq<PenaltyActionView>,
    habit_id: Seq<char>,
    date: Seq<char>,
)
    requires
        debts.len() <= more.len(),
        forall|j: int| 0 <= j < debts.len() ==> #[trigger] more[j] == debts[j],
        forall|j: int| debts.len() <= j < more.len() ==> (#[trigger] more[j]).due_date != date,
    ensures
        carry_in(more, actions, habit_id, date) == carry_in(debts, actions, habit_id, date),
    decreases more.len(),
{
    if more.len() == debts.len() {
        assert(more =~= debts);
    } else {
        let less = more.drop_last();
        assert forall|j: int| 0 <= j < debts.len() implies #[trigger] less[j] == debts[j] by {
            assert(less[j] == more[j]);
        }
        assert forall|j: int| debts.len() <= j < less.len() implies (#[trigger] less[j]).due_date
            != date by {
            assert(less[j] == more[j]);
        }
        lemma_carry_in_skips(debts, less, actions, habit_id, date);
        assert(more.last() == more[more.len() - 1]);
    }
}

/// Once a tick of `date` is through, another tick of `date` finds nothing
/// to record for any habit.
pub proof fn lemma_step_idle(
    db: DbView,
    k: int,
    date: Seq<char>,
    ts: Seq<char>,
    again_ts: Seq<char>,
    include_archived: bool,
)
    requires
        is_date(date),
        0 <= k < db.habits.len(),
    ensures
        tick_step(
            after_tick(db, date, ts, include_archived),
            db.habits[k],
            date,
            again_ts,
            include_archived,
        ) is None,
{
    let n = db.habits.len() as int;
    let done = tick_state(db, n, date, ts, include_archived);
    let cur = tick_state(db, k, date, ts, include_archived);
    let nxt = tick_state(db, k + 1, date, ts, include_archived);
    let h = db.habits[k];
    let id = debt_id_text(h.id, date);
    lemma_tick_grows(db, 0, k, date, ts, include_archived);
    lemma_tick_grows(db, k, k + 1, date, ts, include_archived);
    lemma_tick_grows(db, k + 1, n, date, ts, include_archived);
    lemma_tick_grows(db, k, n, date, ts, include_archived);
    lemma_next_day_text_differs(date);
    if tick_considers(done, h, date, include_archived) && !any_where(
        done.penalty_debts,
        debt_with_id(id),
    ) {
        assert(tick_considers(cur, h, date, include_archived));
        if any_where(nxt.penalty_debts, debt_with_id(id)) {
            let i = choose|i: int|
                0 <= i < nxt.penalty_debts.len() && debt_with_id(id)(#[trigger] nxt.penalty_debts[i]);
            assert(done.penalty_debts[i] == nxt.penalty_debts[i]);
            assert(debt_with_id(id)(done.penalty_debts[i]));
        }
        if any_where(cur.penalty_debts, debt_with_id(id)) {
            let i = choose|i: int|
                0 <= i < cur.penalty_debts.len() && debt_with_id(id)(#[trigger] cur.penalty_debts[i]);
            assert(done.penalty_debts[i] == cur.penalty_debts[i]);
            assert(debt_with_id(id)(done.penalty_debts[i]));
        }
        if tick_step(cur, h, date, ts, include_archived) is Some {
            let d = tick_step(cur, h, date, ts, include_archived)->0;
            assert(nxt.penalty_debts == cur.penalty_debts.push(d));
            assert(debt_with_id(id)(nxt.penalty_debts[cur.penalty_debts.len() as int]));
        }
        assert(!owes_debt(cur, h, date, include_archived));
        lemma_carry_in_skips(
            cur.penalty_debts,
            done.penalty_debts,
            done.penalty_actions,
            h.id,
            date,
        );
        assert(done_on(done, h, date) == done_on(cur, h, date));
        assert(!owes_debt(done, h, date, include_archived));
    }
}

/// A tick of a date that has been ticked leaves any number of habits as
/// they are.
proof fn lemma_tick_again_upto(
    db: DbView,
    n: int,
    date: Seq<char>,
    ts: Seq<char>,
    again_ts: Seq<char>,
    include_archived: bool,
)
    requires
        is_date(date),
        0 <= n <= db.habits.len(),
    ensures
        tick_state(
            after_tick(db, date, ts, include_archived),
            n,
            date,
            again_ts,
            include_archived,
        ) == after_tick(db, date, ts, include_archived),
    decreases n,
{
    if n > 0 {
        lemma_tick_again_upto(db, n - 1, date, ts, again_ts, include_archived);
        lemma_step_idle(db, n - 1, date, ts, again_ts, include_archived);
        lemma_tick_grows(db, 0, db.habits.len() as int, date, ts, include_archived);
    }
}

/// Ticking a date twice is ticking it once: the second tick creates no debt
/// and leaves the store, and so the outstanding debts, as the first left
/// them.
pub proof fn lemma_tick_again(
    db: DbView,
    date: Seq<char>,
    ts: Seq<char>,
    again_ts: Seq<char>,
    include_archived: bool,
)
    requires
        is_date(date),
    ensures
        after_tick(after_tick(db, date, ts, include_archived), date, again_ts, include_archived)
            == after_tick(db, date, ts, include_archived),
        created_by_tick(
            after_tick(db, date, ts, include_archived),
            date,
            again_ts,
            include_archived,
        ) == Seq::<PenaltyDebtView>::empty(),
        forall|as_of: Seq<char>|
            #[trigger] outstanding_as_of(
                after_tick(
                    after_tick(db, date, ts, include_archived),
                    date,
                    again_ts,
                    include_archived,
                ),
                as_of,
            ) == outstanding_as_of(after_tick(db, date, ts, include_archived), as_of),
{
    let first = after_tick(db, date, ts, include_archived);
    lemma_tick_grows(db, 0, db.habits.len() as int, date, ts, include_archived);
    lemma_tick_again_upto(db, db.habits.len() as int, date, ts, again_ts, include_archived);
    assert(first.penalty_debts.skip(first.penalty_debts.len() as int) =~= Seq::empty());
}

/// No two debts have one identifier.
pub open spec fn unique_debt_ids(debts: Seq<PenaltyDebtView>) -> bool {
    forall|i: int, j: int|
        0 <= i < j < debts.len() ==> (#[trigger] debts[i]).id != (#[trigger] debts[j]).id
}

/// A tick never records a second debt under an identifier: where the
/// identifiers of the debts are unique before a tick, they are unique at
/// every stage of it and after it.
pub proof fn lemma_tick_keeps_ids_unique(
    db: DbView,
    n: int,
    date: Seq<char>,
    ts: Seq<char>,
    include_archived: bool,
)
    requires
        unique_debt_ids(db.penalty_debts),
    ensures
        unique_debt_ids(tick_state(db, n, date, ts, include_archived).penalty_debts),
    decreases n,
{
    if n > 0 {
        lemma_tick_keeps_ids_unique(db, n - 1, date, ts, include_archived);
        let cur = tick_state(db, n - 1, date, ts, include_archived);
        let to = tick_state(db, n, date, ts, include_archived);
        match tick_step(cur, db.habits[n - 1], date, ts, include_archived) {
            Some(d) => {
                assert(to.penalty_debts == cur.penalty_debts.push(d));
                assert forall|i: int, j: int| 0 <= i < j < to.penalty_debts.len() implies (
                #[trigger] to.penalty_debts[i]).id != (#[trigger] to.penalty_debts[j]).id by {
                    assert(to.penalty_debts[i] == cur.penalty_debts[i]);
                    if j < cur.penalty_debts.len() {
                        assert(to.penalty_debts[j] == cur.penalty_debts[j]);
                    } else {
                        assert(!debt_with_id(d.id)(cur.penalty_debts[i]));
                    }
                }
            },
            None => {},
        }
    }
}

/// A habit that is excused on a date gets no debt from a tick of that
/// date.
pub proof fn lemma_excuse_suppresses(
    db: DbView,
    habit_id: Seq<char>,
    date: Seq<char>,
    ts: Seq<char>,
    include_archived: bool,
)
    requires
        excused(db.excuses, habit_id, date),
    ensures
        forall|d: PenaltyDebtView|
            #[trigger] created_by_tick(db, date, ts, include_archived).contains(d) ==> d.habit_id
                != habit_id,
{
    let after = after_tick(db, date, ts, include_archived);
    let made = after.penalty_debts.skip(db.penalty_debts.len() as int);
    lemma_tick_grows(db, 0, db.habits.len() as int, date, ts, include_archived);
    lemma_stable_sort_contains::<PenaltyDebt, ById>(made);
    assert forall|d: PenaltyDebtView| #[trigger] created_by_tick(
        db,
        date,
        ts,
        include_archived,
    ).contains(d) implies d.habit_id != habit_id by {
        assert(made.contains(d));
        let i = choose|i: int| 0 <= i < made.len() && made[i] == d;
        assert(after.penalty_debts[db.penalty_debts.len() + i] == d);
    }
}

/// A habit that the tick looks at and that is not done on the date has a
/// debt for that date once the tick is through; where it had none before,
/// the tick has created it.
pub proof fn lemma_miss_makes_debt(
    db: DbView,
    k: int,
    date: Seq<char>,
    ts: Seq<char>,
    include_archived: bool,
)
    requires
        0 <= k < db.habits.len(),
        tick_considers(db, db.habits[k], date, include_archived),
        !done_on(db, db.habits[k], date),
    ensures
        any_where(
            after_tick(db, date, ts, include_archived).penalty_debts,
            debt_with_id(debt_id_text(db.habits[k].id, date)),
        ),
        !any_where(db.penalty_debts, debt_with_id(debt_id_text(db.habits[k].id, date)))
            ==> exists|d: PenaltyDebtView|
            #[trigger] created_by_tick(db, date, ts, include_archived).contains(d) && d.id
                == debt_id_text(db.habits[k].id, date),
{
    let n = db.habits.len() as int;
    let after = tick_state(db, n, date, ts, include_archived);
    let cur = tick_state(db, k, date, ts, include_archived);
    let nxt = tick_state(db, k + 1, date, ts, include_archived);
    let h = db.habits[k];
    let id = debt_id_text(h.id, date);
    let p = debt_with_id(id);
    lemma_tick_grows(db, 0, k, date, ts, include_archived);
    lemma_tick_grows(db, k, k + 1, date, ts, include_archived);
    lemma_tick_grows(db, k + 1, n, date, ts, include_archived);
    lemma_tick_grows(db, 0, n, date, ts, include_archived);
    assert(tick_considers(cur, h, date, include_archived));
    assert(!done_on(cur, h, date));
    assert(owes_debt(cur, h, date, include_archived));
    let i = if any_where(cur.penalty_debts, p) {
        choose|i: int| 0 <= i < cur.penalty_debts.len() && p(#[trigger] cur.penalty_debts[i])
    } else {
        cur.penalty_debts.len() as int
    };
    if any_where(cur.penalty_debts, p) {
        assert(nxt.penalty_debts[i] == cur.penalty_debts[i]);
    } else {
        let d = tick_step(cur, h, date, ts, include_archived)->0;
        assert(nxt.penalty_debts == cur.penalty_debts.push(d));
        assert(nxt.penalty_debts[i] == d);
    }
    assert(p(nxt.penalty_debts[i]));
    assert(after.penalty_debts[i] == nxt.penalty_debts[i]);
    assert(p(after.penalty_debts[i]));
    if !any_where(db.penalty_debts, p) {
        if i < db.penalty_debts.len() {
            assert(after.penalty_debts[i] == db.penalty_debts[i]);
            assert(p(db.penalty_debts[i]));
        }
        let made = after.penalty_debts.skip(db.penalty_debts.len() as int);
        let d = after.penalty_debts[i];
        assert(made[i - db.penalty_debts.len()] == d);
        assert(made.contains(d));
        lemma_stable_sort_contains::<PenaltyDebt, ById>(made);
        assert(created_by_tick(db, date, ts, include_archived).contains(d));
    }
}

/// Every action has the identifier of its debt and kind.
pub open spec fn actions_keyed(actions: Seq<PenaltyActionView>) -> bool {
    forall|i: int|
        0 <= i < actions.len() ==> (#[trigger] actions[i]).id == action_id_text(
            actions[i].debt_id,
            actions[i].kind,
        )
}

/// No debt has two actions.
pub open spec fn one_action_per_debt(actions: Seq<PenaltyActionView>) -> bool {
    forall|i: int, j: int|
        0 <= i < j < actions.len() ==> (#[trigger] actions[i]).debt_id != (
        #[trigger] actions[j]).debt_id
}

/// The identifier of an action tells its debt and its kind.
pub proof fn lemma_action_id_tells(
    debt_a: Seq<char>,
    kind_a: PenaltyActionKind,
    debt_b: Seq<char>,
    kind_b: PenaltyActionKind,
)
    requires
        action_id_text(debt_a, kind_a) == action_id_text(debt_b, kind_b),
    ensures
        debt_a == debt_b,
        kind_a == kind_b,
{
    reveal_strlit("pa_");
    reveal_strlit("_");
    reveal_strlit("resolve");
    reveal_strlit("void");
    let a = action_id_text(debt_a, kind_a);
    let b = action_id_text(debt_b, kind_b);
    let ka = action_kind_text(kind_a);
    let kb = action_kind_text(kind_b);
    assert(a.len() == 3 + debt_a.len() + 1 + ka.len());
    assert(b.len() == 3 + debt_b.len() + 1 + kb.len());
    assert(a[a.len() - 1] == ka[ka.len() - 1]);
    assert(b[b.len() - 1] == kb[kb.len() - 1]);
    assert("resolve"@[6] == 'e');
    assert("void"@[3] == 'd');
    assert(kind_a == kind_b);
    assert(debt_a.len() == debt_b.len());
    assert forall|i: int| 0 <= i < debt_a.len() implies debt_a[i] == debt_b[i] by {
        assert(a[3 + i] == debt_a[i]);
        assert(b[3 + i] == debt_b[i]);
    }
    assert(debt_a =~= debt_b);
}

/// The first action on a debt stands: after a request to close a debt, a
/// second request on that debt, of either kind, is answered with the action
/// that answered the first, and records nothing. The store stays one in
/// which a debt has one action at most.
pub proof fn lemma_first_action_stands(
    actions: Seq<PenaltyActionView>,
    debt_id: Seq<char>,
    kind: PenaltyActionKind,
    date: Seq<char>,
    ts: Seq<char>,
    reason: Seq<char>,
    again_kind: PenaltyActionKind,
    again_date: Seq<char>,
    again_ts: Seq<char>,
    again_reason: Seq<char>,
)
    requires
        actions_keyed(actions),
        one_action_per_debt(actions),
    ensures
        ({
            let first = closing_action(actions, debt_id, kind, date, ts, reason);
            let after = with_closing(actions, debt_id, kind, date, ts, reason);
            &&& closing_action(after, debt_id, again_kind, again_date, again_ts, again_reason)
                == first
            &&& with_closing(after, debt_id, again_kind, again_date, again_ts, again_reason)
                == after
            &&& actions_keyed(after)
            &&& one_action_per_debt(after)
            &&& first.debt_id == debt_id
        }),
{
    let first = closing_action(actions, debt_id, kind, date, ts, reason);
    let after = with_closing(actions, debt_id, kind, date, ts, reason);
    let by_id = first_where(actions, action_with_id(action_id_text(debt_id, kind)));
    let by_debt = first_where(actions, action_on(debt_id));
    lemma_first_where(actions, action_with_id(action_id_text(debt_id, kind)));
    lemma_first_where(actions, action_on(debt_id));
    let again_by_id = first_where(after, action_with_id(action_id_text(debt_id, again_kind)));
    let again_by_debt = first_where(after, action_on(debt_id));
    lemma_first_where(after, action_with_id(action_id_text(debt_id, again_kind)));
    lemma_first_where(after, action_on(debt_id));
    // Where the first request stands in the store afterwards.
    let at: int = if by_id < actions.len() {
        by_id
    } else {
        by_debt
    };
    if by_id < actions.len() {
        lemma_action_id_tells(actions[by_id].debt_id, actions[by_id].kind, debt_id, kind);
    }
    assert(0 <= at < after.len());
    assert(after[at] == first);
    assert(first.debt_id == debt_id);
    assert(actions_keyed(after));
    assert(one_action_per_debt(after)) by {
        assert forall|i: int, j: int| 0 <= i < j < after.len() implies (#[trigger] after[i]).debt_id
            != (#[trigger] after[j]).debt_id by {
            if j < actions.len() {
                assert(after[i] == actions[i]);
                assert(after[j] == actions[j]);
            } else {
                assert(after[i] == actions[i]);
                assert(!action_on(debt_id)(actions[i]));
            }
        }
    }
    assert(action_on(debt_id)(after[at]));
    assert(again_by_debt < after.len());
    if again_by_debt != at {
        if again_by_debt < at {
            assert(after[again_by_debt].debt_id != after[at].debt_id);
        } else {
            assert(after[at].debt_id != after[again_by_debt].debt_id);
        }
    }
    if again_by_id < after.len() {
        lemma_action_id_tells(
            after[again_by_id].debt_id,
            after[again_by_id].kind,
            debt_id,
            again_kind,
        );
        if again_by_id != at {
            if again_by_id < at {
                assert(after[again_by_id].debt_id != after[at].debt_id);
            } else {
                assert(after[at].debt_id != after[again_by_id].debt_id);
            }
        }
    }
}

/// The archived habits with one identifier.
pub open spec fn archived_with_id(id: Seq<char>) -> spec_fn(HabitView) -> bool {
    |h: HabitView| h.archived && h.id == id
}

/// The debts to report: all of them, or those of habits that are not
/// archived.
pub open spec fn reported(habits: Seq<HabitView>, include_archived: bool) -> spec_fn(
    PenaltyDebtView,
) -> bool {
    |d: PenaltyDebtView| include_archived || !any_where(habits, archived_with_id(d.habit_id))
}

/// Whether an archived habit has the identifier.
fn is_archived_id(db: &Db, id: &String) -> (r: bool)
    ensures
        r == any_where(db@.habits, archived_with_id(id@)),
{
    let ghost p = archived_with_id(id@);
    let mut i: usize = 0;
    while i < db.habits.len()
        invariant
            i <= db.habits@.len(),
            p == archived_with_id(id@),
            forall|k: int| 0 <= k < i ==> !p(#[trigger] db@.habits[k]),
        decreases db.habits@.len() - i,
    {
        if db.habits[i].archived && db.habits[i].id == *id {
            assert(p(db@.habits[i as int]));
            return true;
        }
        i += 1;
    }
    false
}

/// The debts outstanding as of a date, without those of archived habits
/// unless they are asked for.
pub fn penalty_status(db: &Db, date: &str, include_archived: bool) -> (r: Result<
    Vec<PenaltyDebt>,
    CliError,
>)
    ensures
        r is Ok <==> is_date(date@),
        r is Ok ==> views_of(r->Ok_0@) == keep(
            outstanding_as_of(db@, date@),
            reported(db@.habits, include_archived),
        ),
        r is Err ==> r->Err_0.is_usage(invalid_text("date"@, date@)),
{
    let debts = match outstanding_debts_as_of(db, date) {
        Ok(d) => d,
        Err(e) => {
            return Err(e);
        },
    };
    let ghost p = reported(db@.habits, include_archived);
    let ghost all = views_of(debts@);
    let mut out: Vec<PenaltyDebt> = Vec::new();
    let mut i: usize = 0;
    assert(all.take(0) =~= Seq::empty());
    assert(views_of(out@) =~= keep(all.take(0), p));
    while i < debts.len()
        invariant
            i <= debts@.len(),
            all == views_of(debts@),
            p == reported(db@.habits, include_archived),
            views_of(out@) == keep(all.take(i as int), p),
        decreases debts@.len() - i,
    {
        proof {
            assert(all.take(i + 1).drop_last() =~= all.take(i as int));
        }
        let ghost before = views_of(out@);
        if include_archived || !is_archived_id(db, &debts[i].habit_id) {
            out.push(debts[i].clone());
            assert(views_of(out@) =~= before.push(all[i as int]));
        }
        i += 1;
    }
    assert(all.take(all.len() as int) =~= all);
    Ok(out)
}

} // verus!
