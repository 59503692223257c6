//! The store and its records, each with the mathematical view that the
//! contracts of the other modules speak of.

use crate::schedule::{Schedule, ScheduleView};
use vstd::prelude::*;

verus! {

/// The views of the elements of a sequence, in order.
pub open spec fn views_of<T: View>(s: Seq<T>) -> Seq<T::V> {
    s.map_values(|x: T| x@)
}

/// The view of an optional string.
pub open spec fn opt_view(o: Option<String>) -> Option<Seq<char>> {
    match o {
        Some(s) => Some(s@),
        None => None,
    }
}

/// A copy of an optional string.
pub fn clone_opt_string(o: &Option<String>) -> (r: Option<String>)
    ensures
        opt_view(r) == opt_view(*o),
{
    match o {
        Some(s) => Some(s.clone()),
        None => None,
    }
}

/// The period over which a habit's target is counted.
#[derive(Clone, Copy, Debug, PartialEq, Eq, Structural)]
pub enum Period {
    Day,
    Week,
}

impl Period {
    /// The name of the period as it is written in input and output.
    pub open spec fn text(self) -> Seq<char> {
        match self {
            Period::Day => "day"@,
            Period::Week => "week"@,
        }
    }

    pub fn as_str(&self) -> (s: &'static str)
        ensures
            s@ == self.text(),
    {
        match self {
            Period::Day => "day",
            Period::Week => "week",
        }
    }
}

/// The counters from which new identifiers are drawn.
#[derive(Clone, Copy, Debug, PartialEq, Eq, Structural)]
pub struct Meta {
    pub next_habit_number: u32,
    pub next_declaration_number: u32,
    pub next_excuse_number: u32,
    pub next_penalty_rule_number: u32,
}

/// What a habit asks for: a quantity within a period.
#[derive(Clone, Copy, Debug, PartialEq, Eq, Structural)]
pub struct Target {
    pub period: Period,
    pub quantity: u32,
}

/// A habit: what is to be done, on which days, and how much of it.
#[derive(Debug)]
pub struct Habit {
    pub id: String,
    pub name: String,
    pub schedule: Schedule,
    pub target: Target,
    pub notes: Option<String>,
    pub archived: bool,
    pub created_date: String,
    pub archived_date: Option<String>,
    /// If true, completion for a given date is only recognized if a declaration exists for that date.
    pub needs_declaration: bool,
    /// Maximum number of allowed excused days per ISO week.
    pub excuse_quota_per_week: u32,
}

pub struct HabitView {
    pub id: Seq<char>,
    pub name: Seq<char>,
    pub schedule: ScheduleView,
    pub target: Target,
    pub notes: Option<Seq<char>>,
    pub archived: bool,
    pub created_date: Seq<char>,
    pub archived_date: Option<Seq<char>>,
    pub needs_declaration: bool,
    pub excuse_quota_per_week: u32,
}

impl View for Habit {
    type V = HabitView;

    open spec fn view(&self) -> HabitView {
        HabitView {
            id: self.id@,
            name: self.name@,
            schedule: self.schedule@,
            target: self.target,
            notes: opt_view(self.notes),
            archived: self.archived,
            created_date: self.created_date@,
            archived_date: opt_view(self.archived_date),
            needs_declaration: self.needs_declaration,
            excuse_quota_per_week: self.excuse_quota_per_week,
        }
    }
}

impl Clone for Habit {
    fn clone(&self) -> (r: Self)
        ensures
            r@ == self@,
    {
        Habit {
            id: self.id.clone(),
            name: self.name.clone(),
            schedule: self.schedule.clone(),
            target: self.target,
            notes: clone_opt_string(&self.notes),
            archived: self.archived,
            created_date: self.created_date.clone(),
            archived_date: clone_opt_string(&self.archived_date),
            needs_declaration: self.needs_declaration,
            excuse_quota_per_week: self.excuse_quota_per_week,
        }
    }
}

/// The recorded quantity of a habit on a date.
#[derive(Debug)]
pub struct Checkin {
    pub habit_id: String,
    pub date: String,
    pub quantity: u32,
}

pub struct CheckinView {
    pub habit_id: Seq<char>,
    pub date: Seq<char>,
    pub quantity: u32,
}

impl View for Checkin {
    type V = CheckinView;

    open spec fn view(&self) -> CheckinView {
        CheckinView { habit_id: self.habit_id@, date: self.date@, quantity: self.quantity }
    }
}

impl Clone for Checkin {
    fn clone(&self) -> (r: Self)
        ensures
            r@ == self@,
    {
        Checkin {
            habit_id: self.habit_id.clone(),
            date: self.date.clone(),
            quantity: self.quantity,
        }
    }
}

/// A stated intent to do a habit on a date.
#[derive(Debug)]
pub struct Declaration {
    pub id: String,
    pub habit_id: String,
    pub date: String,
    pub ts: String,
    pub text: String,
}

pub struct DeclarationView {
    pub id: Seq<char>,
    pub habit_id: Seq<char>,
    pub date: Seq<char>,
    pub ts: Seq<char>,
    pub text: Seq<char>,
}

impl View for Declaration {
    type V = DeclarationView;

    open spec fn view(&self) -> DeclarationView {
        DeclarationView {
            id: self.id@,
            habit_id: self.habit_id@,
            date: self.date@,
            ts: self.ts@,
            text: self.text@,
        }
    }
}

impl Clone for Declaration {
    fn clone(&self) -> (r: Self)
        ensures
            r@ == self@,
    {
        Declaration {
            id: self.id.clone(),
            habit_id: self.habit_id.clone(),
            date: self.date.clone(),
            ts: self.ts.clone(),
            text: self.text.clone(),
        }
    }
}

/// Whether an excuse exempts from penalty.
#[derive(Clone, Copy, Debug, PartialEq, Eq, Structural)]
pub enum ExcuseKind {
    Allowed,
    Denied,
}

/// An excuse of a habit for a date.
#[derive(Debug)]
pub struct Excuse {
    pub id: String,
    pub habit_id: String,
    pub date: String,
    pub ts: String,
    pub kind: ExcuseKind,
    pub reason: String,
}

pub struct ExcuseView {
    pub id: Seq<char>,
    pub habit_id: Seq<char>,
    pub date: Seq<char>,
    pub ts: Seq<char>,
    pub kind: ExcuseKind,
    pub reason: Seq<char>,
}

impl View for Excuse {
    type V = ExcuseView;

    open spec fn view(&self) -> ExcuseView {
        ExcuseView {
            id: self.id@,
            habit_id: self.habit_id@,
            date: self.date@,
            ts: self.ts@,
            kind: self.kind,
            reason: self.reason@,
        }
    }
}

impl Clone for Excuse {
    fn clone(&self) -> (r: Self)
        ensures
            r@ == self@,
    {
        Excuse {
            id: self.id.clone(),
            habit_id: self.habit_id.clone(),
            date: self.date.clone(),
            ts: self.ts.clone(),
            kind: self.kind,
            reason: self.reason.clone(),
        }
    }
}

/// The rule by which the debts of a habit grow.
#[derive(Debug)]
pub struct PenaltyRule {
    pub id: String,
    pub habit_id: String,
    /// Multiplier used for escalation.
    pub multiplier: u32,
    /// Maximum debt quantity.
    pub cap: u32,
    /// Deadline window (days) for the debt; informational.
    pub deadline_days: u32,
    pub armed_date: String,
    pub armed_ts: String,
}

pub struct PenaltyRuleView {
    pub id: Seq<char>,
    pub habit_id: Seq<char>,
    pub multiplier: u32,
    pub cap: u32,
    pub deadline_days: u32,
    pub armed_date: Seq<char>,
    pub armed_ts: Seq<char>,
}

impl View for PenaltyRule {
    type V = PenaltyRuleView;

    open spec fn view(&self) -> PenaltyRuleView {
        PenaltyRuleView {
            id: self.id@,
            habit_id: self.habit_id@,
            multiplier: self.multiplier,
            cap: self.cap,
            deadline_days: self.deadline_days,
            armed_date: self.armed_date@,
            armed_ts: self.armed_ts@,
        }
    }
}

impl Clone for PenaltyRule {
    fn clone(&self) -> (r: Self)
        ensures
            r@ == self@,
    {
        PenaltyRule {
            id: self.id.clone(),
            habit_id: self.habit_id.clone(),
            multiplier: self.multiplier,
            cap: self.cap,
            deadline_days: self.deadline_days,
            armed_date: self.armed_date.clone(),
            armed_ts: self.armed_ts.clone(),
        }
    }
}

/// What a habit owes for a day that was missed.
#[derive(Debug)]
pub struct PenaltyDebt {
    pub id: String,
    pub habit_id: String,
    /// The date whose evaluation produced this debt.
    pub trigger_date: String,
    /// The next day on which the debt is due.
    pub due_date: String,
    pub quantity: u32,
    pub rule_id: String,
    pub created_date: String,
    pub created_ts: String,
}

pub struct PenaltyDebtView {
    pub id: Seq<char>,
    pub habit_id: Seq<char>,
    pub trigger_date: Seq<char>,
    pub due_date: Seq<char>,
    pub quantity: u32,
    pub rule_id: Seq<char>,
    pub created_date: Seq<char>,
    pub created_ts: Seq<char>,
}

impl View for PenaltyDebt {
    type V = PenaltyDebtView;

    open spec fn view(&self) -> PenaltyDebtView {
        PenaltyDebtView {
            id: self.id@,
            habit_id: self.habit_id@,
            trigger_date: self.trigger_date@,
            due_date: self.due_date@,
            quantity: self.quantity,
            rule_id: self.rule_id@,
            created_date: self.created_date@,
            created_ts: self.created_ts@,
        }
    }
}

impl Clone for PenaltyDebt {
    fn clone(&self) -> (r: Self)
        ensures
            r@ == self@,
    {
        PenaltyDebt {
            id: self.id.clone(),
            habit_id: self.habit_id.clone(),
            trigger_date: self.trigger_date.clone(),
            due_date: self.due_date.clone(),
            quantity: self.quantity,
            rule_id: self.rule_id.clone(),
            created_date: self.created_date.clone(),
            created_ts: self.created_ts.clone(),
        }
    }
}

/// How a debt is closed.
#[derive(Clone, Copy, Debug, PartialEq, Eq, Structural)]
pub enum PenaltyActionKind {
    Resolve,
    Void,
}

/// The closing of a debt.
#[derive(Debug)]
pub struct PenaltyAction {
    pub id: String,
    pub debt_id: String,
    pub kind: PenaltyActionKind,
    pub date: String,
    pub ts: String,
    pub reason: String,
}

pub struct PenaltyActionView {
    pub id: Seq<char>,
    pub debt_id: Seq<char>,
    pub kind: PenaltyActionKind,
    pub date: Seq<char>,
    pub ts: Seq<char>,
    pub reason: Seq<char>,
}

impl View for PenaltyAction {
    type V = PenaltyActionView;

    open spec fn view(&self) -> PenaltyActionView {
        PenaltyActionView {
            id: self.id@,
            debt_id: self.debt_id@,
            kind: self.kind,
            date: self.date@,
            ts: self.ts@,
            reason: self.reason@,
        }
    }
}

impl Clone for PenaltyAction {
    fn clone(&self) -> (r: Self)
        ensures
            r@ == self@,
    {
        PenaltyAction {
            id: self.id.clone(),
            debt_id: self.debt_id.clone(),
            kind: self.kind,
            date: self.date.clone(),
            ts: self.ts.clone(),
            reason: self.reason.clone(),
        }
    }
}

/// The whole store: every record of every kind, with the counters from
/// which new identifiers are drawn.
#[derive(Debug)]
pub struct Db {
    pub version: u32,
    pub meta: Meta,
    pub habits: Vec<Habit>,
    pub checkins: Vec<Checkin>,
    /// Append-only declarations.
    pub declarations: Vec<Declaration>,
    /// Append-only excuse records.
    pub excuses: Vec<Excuse>,
    /// Penalty rules (state).
    pub penalty_rules: Vec<PenaltyRule>,
    /// Penalty debts (append-only).
    pub penalty_debts: Vec<PenaltyDebt>,
    /// Penalty actions (append-only): resolve/void.
    pub penalty_actions: Vec<PenaltyAction>,
}

pub struct DbView {
    pub version: u32,
    pub meta: Meta,
    pub habits: Seq<HabitView>,
    pub checkins: Seq<CheckinView>,
    pub declarations: Seq<DeclarationView>,
    pub excuses: Seq<ExcuseView>,
    pub penalty_rules: Seq<PenaltyRuleView>,
    pub penalty_debts: Seq<PenaltyDebtView>,
    pub penalty_actions: Seq<PenaltyActionView>,
}

impl View for Db {
    type V = DbView;

    open spec fn view(&self) -> DbView {
        DbView {
            version: self.version,
            meta: self.meta,
            habits: views_of(self.habits@),
            checkins: views_of(self.checkins@),
            declarations: views_of(self.declarations@),
            excuses: views_of(self.excuses@),
            penalty_rules: views_of(self.penalty_rules@),
            penalty_debts: views_of(self.penalty_debts@),
            penalty_actions: views_of(self.penalty_actions@),
        }
    }
}

/// The empty store.
pub open spec fn empty_db() -> DbView {
    DbView {
        version: 1,
        meta: Meta {
            next_habit_number: 1,
            next_declaration_number: 1,
            next_excuse_number: 1,
            next_penalty_rule_number: 1,
        },
        habits: Seq::empty(),
        checkins: Seq::empty(),
        declarations: Seq::empty(),
        excuses: Seq::empty(),
        penalty_rules: Seq::empty(),
        penalty_debts: Seq::empty(),
        penalty_actions: Seq::empty(),
    }
}

/// The empty store.
pub fn default_db() -> (db: Db)
    ensures
        db@ == empty_db(),
{
    let db = Db {
        version: 1,
        meta: Meta {
            next_habit_number: 1,
            next_declaration_number: 1,
            next_excuse_number: 1,
            next_penalty_rule_number: 1,
        },
        habits: Vec::new(),
        checkins: Vec::new(),
        declarations: Vec::new(),
        excuses: Vec::new(),
        penalty_rules: Vec::new(),
        penalty_debts: Vec::new(),
        penalty_actions: Vec::new(),
    };
    assert(db@.habits =~= Seq::empty());
    assert(db@.checkins =~= Seq::empty());
    assert(db@.declarations =~= Seq::empty());
    assert(db@.excuses =~= Seq::empty());
    assert(db@.penalty_rules =~= Seq::empty());
    assert(db@.penalty_debts =~= Seq::empty());
    assert(db@.penalty_actions =~= Seq::empty());
    db
}

} // verus!
