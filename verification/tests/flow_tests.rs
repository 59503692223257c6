use habit_cli::checkins::{
    add_quantity, checkin, checkin_mode, get_quantity, list_checkins_for_habit,
    list_checkins_in_range, set_quantity, CheckinMode,
};
use habit_cli::completion::{counted_quantity, is_declared, is_done_for_date, week_sum_for_habit};
use habit_cli::declarations::{declare, has_declaration, next_declaration_id};
use habit_cli::due::build_due;
use habit_cli::excuses::{allowed_excuses_used_in_week, excuse, has_allowed_excuse};
use habit_cli::habits::{
    add_habit, archive_habit, is_scheduled_on, list_habits, make_habit, next_habit_id,
    select_habit_index, stable_habit_sort, unarchive_habit, validate_habit_name,
};
use habit_cli::model::{default_db, Db, ExcuseKind, Habit, PenaltyActionKind, Period};
use habit_cli::penalty::{
    debt_closed_map, debt_id_for, outstanding_debts_as_of, penalty_status, resolve_or_void, tick,
    upsert_rule,
};
use habit_cli::recap::{build_recap, build_recap_ordered, RecapRange};
use habit_cli::stats::{build_recent_stats, build_stats};
use habit_cli::status::{build_status, WeekHabitRow};
use std::cmp::Ordering;

fn add(db: &mut Db, name: &str, schedule: &str, period: &str, target: u32, today: &str, gated: bool) -> Habit {
    add_habit(db, name, schedule, period, target, None, today, gated, 2).unwrap()
}

#[test]
fn add_list_show_flow_json() {
    let mut db = default_db();
    let stretch = add_habit(&mut db, "Stretch", "weekdays", "day", 1, None, "2026-01-31", true, 2)
        .unwrap();
    assert_eq!(stretch.id, "h0001");
    let read = add_habit(&mut db, "Read", "everyday", "day", 1, None, "2026-01-31", true, 2)
        .unwrap();
    assert_eq!(read.id, "h0002");
    let listed = list_habits(&db, false);
    let names: Vec<&str> = listed.iter().map(|h| h.name.as_str()).collect();
    assert_eq!(names, vec!["Read", "Stretch"]);
    let idx = select_habit_index(&db, "str", true).unwrap();
    assert_eq!(db.habits[idx].id, "h0001");
    assert_eq!(db.meta.next_habit_number, 3);
}

#[test]
fn add_list_roundtrip_json() {
    let mut db = default_db();
    let h = add_habit(&mut db, "Stretch", "weekdays", "day", 1, None, "2026-01-31", true, 2)
        .unwrap();
    assert_eq!(h.schedule.days, vec![1, 2, 3, 4, 5]);
    assert_eq!(h.target.period, Period::Day);
    assert_eq!(h.created_date, "2026-01-31");
    assert!(!h.archived);
    let listed = list_habits(&db, false);
    assert_eq!(listed.len(), 1);
    assert_eq!(listed[0].name, "Stretch");
}

#[test]
fn cli_ambiguous_selector_exit_code_4() {
    let mut db = default_db();
    add(&mut db, "Stretch", "everyday", "day", 1, "2026-01-31", true);
    add(&mut db, "Study", "everyday", "day", 1, "2026-01-31", true);
    let err = select_habit_index(&db, "st", true).unwrap_err();
    assert_eq!(err.exit_code, 4);
    assert!(err.message.to_lowercase().contains("ambiguous selector"));
    assert!(err.message.to_lowercase().contains("candidates"));
}

#[test]
fn ambiguous_selector_exits_4() {
    let mut db = default_db();
    add(&mut db, "Stretch", "everyday", "day", 1, "2026-01-31", true);
    add(&mut db, "Strength", "everyday", "day", 1, "2026-01-31", true);
    let err = select_habit_index(&db, "str", true).unwrap_err();
    assert_eq!(err.exit_code, 4);
    assert_eq!(
        err.message,
        "Ambiguous selector 'str'. Candidates: h0002 Strength, h0001 Stretch"
    );
}

#[test]
fn rust_cli_contract_ambiguous_selector_exit_code_4() {
    let mut db = default_db();
    add(&mut db, "Stretch", "everyday", "day", 1, "2026-01-31", true);
    add(&mut db, "Strength", "everyday", "day", 1, "2026-01-31", true);
    let err = select_habit_index(&db, "str", false).unwrap_err();
    assert_eq!(err.exit_code, 4);
    assert!(err.message.contains("Ambiguous"));
}

#[test]
fn not_found_exit_code_3() {
    let db = default_db();
    let err = select_habit_index(&db, "h0001", true).unwrap_err();
    assert_eq!(err.exit_code, 3);
    assert_eq!(err.message, "Habit not found: h0001");
}

#[test]
fn selector_picks_by_id_or_unique_prefix() {
    let mut db = default_db();
    add(&mut db, "Stretch", "everyday", "day", 1, "2026-01-31", true);
    add(&mut db, "Read", "everyday", "day", 1, "2026-01-31", true);
    assert_eq!(select_habit_index(&db, " h0002 ", false).unwrap(), 1);
    assert_eq!(select_habit_index(&db, "RE", false).unwrap(), 1);
    assert_eq!(select_habit_index(&db, "stretch", false).unwrap(), 0);
    let e = select_habit_index(&db, "  ", false).unwrap_err();
    assert_eq!((e.exit_code, e.message.as_str()), (2, "Habit selector is required"));
    let e = select_habit_index(&db, "walk", false).unwrap_err();
    assert_eq!((e.exit_code, e.message.as_str()), (3, "Habit not found: walk"));
    archive_habit(&mut db, 1, "2026-02-01");
    assert_eq!(select_habit_index(&db, "h0002", false).unwrap_err().exit_code, 3);
    assert_eq!(select_habit_index(&db, "h0002", true).unwrap(), 1);
    assert_eq!(select_habit_index(&db, "re", false).unwrap_err().exit_code, 3);
    assert_eq!(select_habit_index(&db, "re", true).unwrap(), 1);
}

#[test]
fn checkin_add_set_delete() {
    let mut db = default_db();
    let h = add(&mut db, "Stretch", "everyday", "day", 1, "2026-01-31", true);
    let date = "2026-01-31";
    let out = checkin(&mut db, &h.id, date, checkin_mode(Some(2), None, false).unwrap()).unwrap();
    assert_eq!(out.quantity, 2);
    assert_eq!(out.delta, Some(2));
    assert_eq!(list_checkins_for_habit(&db, &h.id)[0].quantity, 2);
    let out = checkin(&mut db, &h.id, date, checkin_mode(None, None, false).unwrap()).unwrap();
    assert_eq!(out.quantity, 3);
    let out = checkin(&mut db, &h.id, date, checkin_mode(None, Some(5), false).unwrap()).unwrap();
    assert_eq!((out.mode.as_str(), out.quantity, out.delta), ("set", 5, None));
    assert_eq!(get_quantity(&db, &h.id, date), 5);
    let out = checkin(&mut db, &h.id, date, checkin_mode(None, None, true).unwrap()).unwrap();
    assert_eq!((out.mode, out.quantity), (CheckinMode::Delete, 0));
    assert!(list_checkins_for_habit(&db, &h.id).is_empty());
}

#[test]
fn checkin_options_that_conflict_are_refused() {
    let e = checkin_mode(Some(1), None, true).unwrap_err();
    assert_eq!(
        (e.exit_code, e.message.as_str()),
        (2, "Invalid flags: --delete conflicts with --qty/--set")
    );
    let e = checkin_mode(None, Some(1), true).unwrap_err();
    assert_eq!(e.message, "Invalid flags: --delete conflicts with --qty/--set");
    let e = checkin_mode(Some(1), Some(1), false).unwrap_err();
    assert_eq!(e.message, "Invalid flags: --qty conflicts with --set");
    assert_eq!(checkin_mode(None, None, false).unwrap(), CheckinMode::Add(1));
    assert_eq!(checkin_mode(None, Some(0), false).unwrap(), CheckinMode::Replace(0));
}

#[test]
fn setting_zero_deletes_the_record() {
    let mut db = default_db();
    set_quantity(&mut db, "h0001", "2026-01-05", 4).unwrap();
    set_quantity(&mut db, "h0002", "2026-01-05", 1).unwrap();
    assert_eq!(db.checkins.len(), 2);
    set_quantity(&mut db, "h0001", "2026-01-05", 0).unwrap();
    assert_eq!(get_quantity(&db, "h0001", "2026-01-05"), 0);
    assert_eq!(db.checkins.len(), 1);
    assert_eq!(db.checkins[0].habit_id, "h0002");
    set_quantity(&mut db, "h0001", "2026-01-05", 0).unwrap();
    assert_eq!(db.checkins.len(), 1);
}

#[test]
fn quantities_add_up_and_stop_at_the_largest() {
    let mut db = default_db();
    assert_eq!(add_quantity(&mut db, "h0001", "2026-01-05", 3).unwrap(), 3);
    assert_eq!(add_quantity(&mut db, "h0001", "2026-01-05", 4).unwrap(), 7);
    assert_eq!(db.checkins.len(), 1);
    assert_eq!(add_quantity(&mut db, "h0001", "2026-01-05", u32::MAX).unwrap(), u32::MAX);
    let e = add_quantity(&mut db, "h0001", "2026-01-05", 0).unwrap_err();
    assert_eq!((e.exit_code, e.message.as_str()), (2, "Invalid quantity"));
    let e = add_quantity(&mut db, "h0001", "2026-1-5", 1).unwrap_err();
    assert_eq!((e.exit_code, e.message.as_str()), (2, "Invalid date: 2026-1-5"));
    let e = set_quantity(&mut db, "h0001", "2026-02-30", 1).unwrap_err();
    assert_eq!(e.message, "Invalid date: 2026-02-30");
}

#[test]
fn checkins_are_listed_by_date_then_habit() {
    let mut db = default_db();
    set_quantity(&mut db, "h0002", "2026-01-07", 1).unwrap();
    set_quantity(&mut db, "h0001", "2026-01-07", 2).unwrap();
    set_quantity(&mut db, "h0001", "2026-01-05", 3).unwrap();
    set_quantity(&mut db, "h0003", "2026-01-06", 4).unwrap();
    let all = list_checkins_in_range(&db, None, None, None);
    let keys: Vec<(&str, &str)> =
        all.iter().map(|c| (c.date.as_str(), c.habit_id.as_str())).collect();
    assert_eq!(
        keys,
        vec![
            ("2026-01-05", "h0001"),
            ("2026-01-06", "h0003"),
            ("2026-01-07", "h0001"),
            ("2026-01-07", "h0002"),
        ]
    );
    let ids = vec!["h0001".to_string(), "h0003".to_string()];
    let some = list_checkins_in_range(&db, Some("2026-01-06"), Some("2026-01-07"), Some(&ids));
    let keys: Vec<(&str, &str)> =
        some.iter().map(|c| (c.date.as_str(), c.habit_id.as_str())).collect();
    assert_eq!(keys, vec![("2026-01-06", "h0003"), ("2026-01-07", "h0001")]);
    let one = list_checkins_for_habit(&db, "h0001");
    assert_eq!(one.len(), 2);
    assert_eq!(one[0].date, "2026-01-05");
}

#[test]
fn archive_and_list_visibility() {
    let mut db = default_db();
    add(&mut db, "Read", "everyday", "day", 1, "2026-01-31", true);
    let idx = select_habit_index(&db, "read", true).unwrap();
    let archived = archive_habit(&mut db, idx, "2026-02-01");
    assert!(archived.archived);
    assert_eq!(archived.archived_date.as_deref(), Some("2026-02-01"));
    assert_eq!(list_habits(&db, false).len(), 0);
    let all = list_habits(&db, true);
    assert_eq!(all.len(), 1);
    assert!(all[0].archived);
    let again = archive_habit(&mut db, idx, "2026-03-01");
    assert_eq!(again.archived_date.as_deref(), Some("2026-02-01"));
    let back = unarchive_habit(&mut db, idx);
    assert!(!back.archived);
    assert_eq!(back.archived_date, None);
    assert_eq!(list_habits(&db, false).len(), 1);
}

#[test]
fn new_habit_completion_requires_declaration() {
    let mut db = default_db();
    let today = "2026-01-31";
    let gate = add(&mut db, "Gate", "everyday", "day", 1, today, true);
    add_quantity(&mut db, &gate.id, today, 1).unwrap();

    let status = build_status(&db, today, None, false).unwrap();
    let row = status.today.habits.iter().find(|h| h.name == "Gate").unwrap();
    assert_eq!(row.done, false);
    assert_eq!(row.quantity, 0);
    assert_eq!(row.raw_quantity, 1);
    assert_eq!(row.needs_declaration, true);
    assert_eq!(row.declared, false);
    assert!(!is_done_for_date(&db, &gate, today));
    assert_eq!(counted_quantity(&db, &gate, today), 0);
    assert_eq!(get_quantity(&db, &gate.id, today), 1);

    let decl = declare(&mut db, &gate.id, today, "2026-01-31T10:00:00Z", "I will do it").unwrap();
    assert_eq!(decl.id, "d000001");
    let status = build_status(&db, today, None, false).unwrap();
    let row = status.today.habits.iter().find(|h| h.name == "Gate").unwrap();
    assert_eq!(row.done, true);
    assert_eq!(row.quantity, 1);
    assert_eq!(row.declared, true);
    assert!(is_declared(&db, &gate, today));
    assert!(has_declaration(&db, &gate.id, today));
}

#[test]
fn declarations_are_checked_before_they_are_recorded() {
    let mut db = default_db();
    let e = declare(&mut db, "h0001", "2026-13-01", "2026-01-31T10:00:00Z", "x").unwrap_err();
    assert_eq!((e.exit_code, e.message.as_str()), (2, "Invalid date: 2026-13-01"));
    let e = declare(&mut db, "h0001", "2026-01-31", "yesterday", "x").unwrap_err();
    assert_eq!((e.exit_code, e.message.as_str()), (2, "Invalid ts: yesterday"));
    let e = declare(&mut db, "h0001", "2026-01-31", "   ", "x").unwrap_err();
    assert_eq!(e.message, "Invalid ts: (empty)");
    let e = declare(&mut db, "h0001", "2026-01-31", "2026-01-31T10:00:00Z", "  ").unwrap_err();
    assert_eq!(e.message, "Declaration text is required");
    assert!(db.declarations.is_empty());
    assert_eq!(db.meta.next_declaration_number, 1);
    let d = declare(&mut db, "h0001", "2026-01-31", " 2026-01-31T10:00:00+09:00 ", " go ").unwrap();
    assert_eq!((d.ts.as_str(), d.text.as_str()), ("2026-01-31T10:00:00+09:00", "go"));
    assert_eq!(next_declaration_id(&mut db), "d000002");
    assert_eq!(db.meta.next_declaration_number, 3);
}

#[test]
fn exceptions_affect_penalty_tick() {
    let mut db = default_db();
    let today = "2026-01-31";
    let tomorrow = "2026-02-01";
    let day_after = "2026-02-02";
    let h = add(&mut db, "Pushups", "everyday", "day", 1, today, false);
    upsert_rule(&mut db, &h.id, today, "2026-01-31T09:00:00Z", 2, 8, 1).unwrap();

    // excuse today (allowed) => tick should NOT create debt due tomorrow
    let (ex, used, remaining) =
        excuse(&mut db, &h.id, today, "2026-01-31T09:30:00Z", ExcuseKind::Allowed, "sick", 2)
            .unwrap();
    assert_eq!(ex.kind, ExcuseKind::Allowed);
    assert_eq!((used, remaining), (1, 1));
    let created = tick(&mut db, today, "2026-01-31T23:59:00Z", false).unwrap();
    assert_eq!(created.len(), 0);
    assert_eq!(penalty_status(&db, tomorrow, false).unwrap().len(), 0);

    // no excuse tomorrow => tick should create debt due day_after
    let created = tick(&mut db, tomorrow, "2026-02-01T23:59:00Z", false).unwrap();
    assert_eq!(created.len(), 1);
    let debts = penalty_status(&db, day_after, false).unwrap();
    assert_eq!(debts.len(), 1);
    assert_eq!(debts[0].due_date, day_after);
    assert_eq!(debts[0].id, "pd_h0001_20260201");
}

#[test]
fn penalty_tick_is_idempotent() {
    let mut db = default_db();
    let today = "2026-01-31";
    let tomorrow = "2026-02-01";
    let h = add(&mut db, "Journal", "everyday", "day", 1, today, false);
    upsert_rule(&mut db, &h.id, today, "2026-01-31T09:00:00Z", 2, 8, 1).unwrap();

    // tick twice for same date
    let first = tick(&mut db, today, "2026-01-31T23:00:00Z", false).unwrap();
    assert_eq!(first.len(), 1);
    let second = tick(&mut db, today, "2026-01-31T23:10:00Z", false).unwrap();
    assert_eq!(second.len(), 0);
    let debts = penalty_status(&db, tomorrow, false).unwrap();
    assert_eq!(debts.len(), 1);
    assert_eq!(db.penalty_debts.len(), 1);
    assert_eq!(debts[0].created_ts, "2026-01-31T23:00:00Z");
}

#[test]
fn debts_escalate_up_to_the_cap() {
    let mut db = default_db();
    let h = add(&mut db, "Run", "everyday", "day", 3, "2026-01-01", false);
    let rule = upsert_rule(&mut db, &h.id, "2026-01-01", "2026-01-01T08:00:00Z", 2, 20, 1).unwrap();
    assert_eq!(rule.id, "pr000001");
    let d1 = tick(&mut db, "2026-01-05", "2026-01-05T23:00:00Z", false).unwrap();
    assert_eq!(d1[0].quantity, 6);
    assert_eq!(d1[0].trigger_date, "2026-01-05");
    assert_eq!(d1[0].due_date, "2026-01-06");
    assert_eq!(d1[0].rule_id, "pr000001");
    // Done on the next day, but the debt that fell due is still open.
    add_quantity(&mut db, &h.id, "2026-01-06", 3).unwrap();
    let d2 = tick(&mut db, "2026-01-06", "2026-01-06T23:00:00Z", false).unwrap();
    assert_eq!(d2[0].quantity, 12);
    let d3 = tick(&mut db, "2026-01-07", "2026-01-07T23:00:00Z", false).unwrap();
    assert_eq!(d3[0].quantity, 20);
    // Once the debt is closed, a day that is done owes nothing.
    resolve_or_void(
        &mut db,
        &d3[0].id,
        PenaltyActionKind::Resolve,
        "2026-01-08",
        "2026-01-08T07:00:00Z",
        "made up",
    )
    .unwrap();
    add_quantity(&mut db, &h.id, "2026-01-08", 3).unwrap();
    let d4 = tick(&mut db, "2026-01-08", "2026-01-08T23:00:00Z", false).unwrap();
    assert_eq!(d4.len(), 0);
    // A day that is missed starts from the target again.
    let d5 = tick(&mut db, "2026-01-09", "2026-01-09T23:00:00Z", false).unwrap();
    assert_eq!(d5[0].quantity, 6);
    let open = outstanding_debts_as_of(&db, "2026-01-10").unwrap();
    let ids: Vec<&str> = open.iter().map(|d| d.id.as_str()).collect();
    assert_eq!(ids, vec!["pd_h0001_20260105", "pd_h0001_20260106", "pd_h0001_20260109"]);
    assert_eq!(debt_closed_map(&db), vec!["pd_h0001_20260107".to_string()]);
}

#[test]
fn tick_skips_what_it_does_not_look_at() {
    let mut db = default_db();
    let weekly = add(&mut db, "Weekly", "everyday", "week", 1, "2026-01-01", false);
    let unarmed = add(&mut db, "Unarmed", "everyday", "day", 1, "2026-01-01", false);
    let weekend = add(&mut db, "Weekend", "weekends", "day", 1, "2026-01-01", false);
    let later = add(&mut db, "Later", "everyday", "day", 1, "2026-02-01", false);
    let shelved = add(&mut db, "Shelved", "everyday", "day", 1, "2026-01-01", false);
    for h in [&weekly, &weekend, &later, &shelved] {
        upsert_rule(&mut db, &h.id, "2026-01-01", "2026-01-01T08:00:00Z", 3, 9, 1).unwrap();
    }
    let idx = select_habit_index(&db, &shelved.id, true).unwrap();
    archive_habit(&mut db, idx, "2026-01-02");
    assert_eq!(unarmed.id, "h0002");
    // 2026-01-07 is a Wednesday.
    assert!(tick(&mut db, "2026-01-07", "2026-01-07T23:00:00Z", false).unwrap().is_empty());
    let with_archived = tick(&mut db, "2026-01-07", "2026-01-07T23:00:00Z", true).unwrap();
    assert_eq!(with_archived.len(), 1);
    assert_eq!(with_archived[0].habit_id, shelved.id);
    assert_eq!(with_archived[0].quantity, 3);
    assert_eq!(penalty_status(&db, "2026-01-08", false).unwrap().len(), 0);
    assert_eq!(penalty_status(&db, "2026-01-08", true).unwrap().len(), 1);
    let e = tick(&mut db, "2026-01-32", "2026-01-07T23:00:00Z", false).unwrap_err();
    assert_eq!((e.exit_code, e.message.as_str()), (2, "Invalid date: 2026-01-32"));
    let e = tick(&mut db, "2026-01-07", "now", false).unwrap_err();
    assert_eq!(e.message, "Invalid ts: now");
}

#[test]
fn resolve_then_void_returns_the_first_action() {
    let mut db = default_db();
    let h = add(&mut db, "Journal", "everyday", "day", 1, "2026-01-31", false);
    upsert_rule(&mut db, &h.id, "2026-01-31", "2026-01-31T09:00:00Z", 2, 8, 1).unwrap();
    let created = tick(&mut db, "2026-01-31", "2026-01-31T23:00:00Z", false).unwrap();
    let id = created[0].id.clone();
    assert_eq!(id, debt_id_for(&h.id, "2026-01-31"));
    let a = resolve_or_void(
        &mut db,
        &id,
        PenaltyActionKind::Resolve,
        "2026-02-01",
        "2026-02-01T08:00:00Z",
        " done ",
    )
    .unwrap();
    assert_eq!(a.id, "pa_pd_h0001_20260131_resolve");
    assert_eq!((a.kind, a.reason.as_str()), (PenaltyActionKind::Resolve, "done"));
    let b = resolve_or_void(
        &mut db,
        &id,
        PenaltyActionKind::Void,
        "2026-02-02",
        "2026-02-02T08:00:00Z",
        "changed my mind",
    )
    .unwrap();
    assert_eq!(b.id, a.id);
    assert_eq!(b.kind, PenaltyActionKind::Resolve);
    assert_eq!(b.date, "2026-02-01");
    assert_eq!(db.penalty_actions.len(), 1);
    assert!(outstanding_debts_as_of(&db, "2026-02-05").unwrap().is_empty());
}

#[test]
fn closing_a_debt_checks_its_input() {
    let mut db = default_db();
    let e = resolve_or_void(
        &mut db,
        "pd_h0001_20260131",
        PenaltyActionKind::Void,
        "2026-02-01",
        "2026-02-01T08:00:00Z",
        "x",
    )
    .unwrap_err();
    assert_eq!(
        (e.exit_code, e.message.as_str()),
        (3, "Penalty debt not found: pd_h0001_20260131")
    );
    let e = resolve_or_void(
        &mut db,
        "pd_h0001_20260131",
        PenaltyActionKind::Void,
        "2026-02-01",
        "2026-02-01T08:00:00Z",
        " ",
    )
    .unwrap_err();
    assert_eq!((e.exit_code, e.message.as_str()), (2, "Reason is required"));
    let e = upsert_rule(&mut db, "h0001", "2026-01-31", "2026-01-31T09:00:00Z", 0, 8, 1)
        .unwrap_err();
    assert_eq!((e.exit_code, e.message.as_str()), (2, "Invalid multiplier"));
    let e = upsert_rule(&mut db, "h0001", "2026-01-31", "2026-01-31T09:00:00Z", 2, 0, 1)
        .unwrap_err();
    assert_eq!(e.message, "Invalid cap");
    assert!(db.penalty_rules.is_empty());
}

#[test]
fn arming_again_keeps_the_rule_id() {
    let mut db = default_db();
    let a = upsert_rule(&mut db, "h0001", "2026-01-31", "2026-01-31T09:00:00Z", 2, 8, 1).unwrap();
    let b = upsert_rule(&mut db, "h0002", "2026-01-31", "2026-01-31T09:00:00Z", 2, 8, 1).unwrap();
    let c = upsert_rule(&mut db, "h0001", "2026-02-01", " 2026-02-01T09:00:00Z ", 3, 9, 2).unwrap();
    assert_eq!((a.id.as_str(), b.id.as_str(), c.id.as_str()), ("pr000001", "pr000002", "pr000001"));
    assert_eq!(db.penalty_rules.len(), 2);
    assert_eq!(db.penalty_rules[0].multiplier, 3);
    assert_eq!(db.penalty_rules[0].armed_date, "2026-02-01");
    assert_eq!(db.penalty_rules[0].armed_ts, "2026-02-01T09:00:00Z");
    assert_eq!(db.meta.next_penalty_rule_number, 3);
}

#[test]
fn excuse_beyond_the_quota_is_stored_as_denied() {
    let mut db = default_db();
    let h = add(&mut db, "Pushups", "everyday", "day", 1, "2026-01-01", false);
    upsert_rule(&mut db, &h.id, "2026-01-01", "2026-01-01T09:00:00Z", 2, 8, 1).unwrap();
    // The ISO week of 2026-01-28 runs from Monday 01-26 to Sunday 02-01.
    let (a, used, left) =
        excuse(&mut db, &h.id, "2026-01-26", "2026-01-26T09:00:00Z", ExcuseKind::Allowed, "a", 1)
            .unwrap();
    assert_eq!((a.id.as_str(), a.kind, used, left), ("e000001", ExcuseKind::Allowed, 1, 0));
    let (b, used, left) =
        excuse(&mut db, &h.id, "2026-02-01", "2026-02-01T09:00:00Z", ExcuseKind::Allowed, "b", 1)
            .unwrap();
    assert_eq!((b.kind, used, left), (ExcuseKind::Denied, 1, 0));
    let (c, used, left) =
        excuse(&mut db, &h.id, "2026-02-02", "2026-02-02T09:00:00Z", ExcuseKind::Allowed, "c", 1)
            .unwrap();
    assert_eq!((c.kind, used, left), (ExcuseKind::Allowed, 1, 0));
    let (d, used, left) =
        excuse(&mut db, &h.id, "2026-01-27", "2026-01-27T09:00:00Z", ExcuseKind::Denied, "d", 5)
            .unwrap();
    assert_eq!((d.kind, used, left), (ExcuseKind::Denied, 1, 4));
    assert_eq!(allowed_excuses_used_in_week(&db, &h.id, "2026-01-26").unwrap(), 1);
    assert!(has_allowed_excuse(&db, &h.id, "2026-01-26"));
    assert!(!has_allowed_excuse(&db, &h.id, "2026-02-01"));
    // The denied excuse does not hold the debt back; the allowed one does.
    assert_eq!(tick(&mut db, "2026-02-01", "2026-02-01T23:00:00Z", false).unwrap().len(), 1);
    assert_eq!(tick(&mut db, "2026-02-02", "2026-02-02T23:00:00Z", false).unwrap().len(), 0);
    let e = excuse(&mut db, &h.id, "2026-02-03", "2026-02-03T09:00:00Z", ExcuseKind::Allowed, " ", 1)
        .unwrap_err();
    assert_eq!((e.exit_code, e.message.as_str()), (2, "Excuse reason is required"));
}

#[test]
fn recap_json_shape_and_deterministic_values() {
    let mut db = default_db();
    let today = "2026-01-31";
    let water = add(&mut db, "Water", "everyday", "day", 8, "2026-01-01", false);
    let exercise = add(&mut db, "Exercise", "weekdays", "week", 3, "2026-01-01", false);
    for day in 5..=14 {
        let date = format!("2026-01-{:02}", day);
        add_quantity(&mut db, &water.id, &date, 8).unwrap();
    }
    for date in ["2026-01-06", "2026-01-07", "2026-01-08"] {
        add_quantity(&mut db, &exercise.id, date, 1).unwrap();
    }
    for date in ["2026-01-13", "2026-01-14", "2026-01-15"] {
        add_quantity(&mut db, &exercise.id, date, 1).unwrap();
    }
    let habits = list_habits(&db, false);
    let recap = build_recap(&db, &habits, RecapRange::Month, today).unwrap();
    assert_eq!(recap.len(), 2, "Expected 2 habits in recap");
    for row in recap.iter() {
        assert_eq!(row.range.kind, "month");
        assert_eq!(row.range.from, "2026-01-02");
        assert_eq!(row.range.to, "2026-01-31");
    }
    let w = recap.iter().find(|r| r.name == "Water").expect("Water habit not found");
    assert_eq!(w.period.as_str(), "day");
    assert_eq!(w.target_label, "8/day");
    assert_eq!(w.target, 8);
    assert_eq!(w.successes, 10);
    assert_eq!(w.eligible, 30);
    assert_eq!(w.percent, Some(33));
    let e = recap.iter().find(|r| r.name == "Exercise").expect("Exercise habit not found");
    assert_eq!(e.period.as_str(), "week");
    assert_eq!(e.target_label, "3/week");
    assert_eq!(e.target, 3);
    assert_eq!(e.successes, 2);
    assert_eq!(e.eligible, 5);
    assert_eq!(e.percent, Some(40));

    let ytd = build_recap(&db, &habits, RecapRange::Ytd, today).unwrap();
    assert_eq!(ytd.len(), 2);
    assert_eq!(ytd[0].range.kind, "ytd");
    assert_eq!(ytd[0].range.from, "2026-01-01");
    assert_eq!(ytd[0].range.to, "2026-01-31");
    let week = build_recap(&db, &habits, RecapRange::Week, today).unwrap();
    assert_eq!(week.len(), 2);
    assert_eq!(week[0].range.kind, "week");
    assert_eq!(week[0].range.from, "2026-01-25");
    assert_eq!(week[0].range.to, "2026-01-31");

    let behind = build_recap_ordered(&db, &habits, RecapRange::Month, today, true).unwrap();
    assert!(behind[0].percent.unwrap() <= behind[1].percent.unwrap());
    assert_eq!(behind[0].name, "Water");
    let ahead = build_recap_ordered(&db, &habits, RecapRange::Month, today, false).unwrap();
    assert!(ahead[0].percent.unwrap() >= ahead[1].percent.unwrap());
    assert_eq!(ahead[0].name, "Exercise");
}

#[test]
fn recap_puts_habits_without_periods_last_by_name() {
    let mut db = default_db();
    add(&mut db, "zeta", "everyday", "day", 1, "2026-03-01", false);
    add(&mut db, "Alpha", "everyday", "day", 1, "2026-03-01", false);
    let done = add(&mut db, "Mid", "everyday", "day", 1, "2026-01-30", false);
    add_quantity(&mut db, &done.id, "2026-01-31", 1).unwrap();
    let habits = list_habits(&db, false);
    let rows = build_recap(&db, &habits, RecapRange::Week, "2026-01-31").unwrap();
    let names: Vec<&str> = rows.iter().map(|r| r.name.as_str()).collect();
    assert_eq!(names, vec!["Mid", "Alpha", "zeta"]);
    assert_eq!(rows[0].percent, Some(50));
    assert_eq!((rows[0].successes, rows[0].eligible), (1, 2));
    assert_eq!(rows[1].percent, None);
    assert_eq!(rows[1].eligible, 0);
    let behind = build_recap_ordered(&db, &habits, RecapRange::Week, "2026-01-31", true).unwrap();
    let names: Vec<&str> = behind.iter().map(|r| r.name.as_str()).collect();
    assert_eq!(names, vec!["Mid", "Alpha", "zeta"]);
}

#[test]
fn due_command_json_schema_and_deterministic_ordering() {
    let mut db = default_db();
    // Use a Wednesday for testing
    let today = "2026-01-28";
    let alpha = add(&mut db, "Alpha", "everyday", "day", 2, "2026-01-01", false);
    let beta = add(&mut db, "Beta", "everyday", "day", 1, "2026-01-01", false);
    let gamma = add(&mut db, "Gamma", "weekdays", "week", 3, "2026-01-01", false);
    add(&mut db, "Zeta", "weekends", "day", 1, "2026-01-01", false);

    let out = build_due(&db, today, false).unwrap();
    assert_eq!(out.date, today);
    assert_eq!(out.due.len(), 3, "Expected 3 due habits");
    assert_eq!(out.counts.due, 3);
    let names: Vec<&str> = out.due.iter().map(|h| h.name.as_str()).collect();
    assert_eq!(names, vec!["Alpha", "Beta", "Gamma"]);
    for row in out.due.iter() {
        assert_eq!(row.scheduled, true);
        assert_eq!(row.done, false);
    }
    let a = out.due.iter().find(|h| h.name == "Alpha").unwrap();
    assert_eq!(a.period.as_str(), "day");
    assert_eq!(a.target, 2);
    assert_eq!(a.quantity, 0);
    assert_eq!(a.remaining, 2);
    let g = out.due.iter().find(|h| h.name == "Gamma").unwrap();
    assert_eq!(g.period.as_str(), "week");
    assert_eq!(g.target, 3);

    add_quantity(&mut db, &beta.id, today, 1).unwrap();
    let out = build_due(&db, today, false).unwrap();
    let names: Vec<&str> = out.due.iter().map(|h| h.name.as_str()).collect();
    assert_eq!(names, vec!["Alpha", "Gamma"]);

    add_quantity(&mut db, &alpha.id, today, 1).unwrap();
    let out = build_due(&db, today, false).unwrap();
    let a = out.due.iter().find(|h| h.name == "Alpha").unwrap();
    assert_eq!(a.quantity, 1);
    assert_eq!(a.remaining, 1);

    // Week of 2026-01-28 is Mon Jan 26 - Sun Feb 1
    for date in ["2026-01-26", "2026-01-27", "2026-01-28"] {
        add_quantity(&mut db, &gamma.id, date, 1).unwrap();
    }
    let out = build_due(&db, today, false).unwrap();
    assert_eq!(out.due.len(), 1);
    assert_eq!(out.due[0].name, "Alpha");

    add_quantity(&mut db, &alpha.id, today, 1).unwrap();
    let out = build_due(&db, today, false).unwrap();
    assert_eq!(out.due.len(), 0);
    assert_eq!(out.counts.due, 0);

    let idx = select_habit_index(&db, "Beta", true).unwrap();
    archive_habit(&mut db, idx, today);
    let check_date = "2026-01-29"; // Thursday
    let out = build_due(&db, check_date, false).unwrap();
    assert!(!out.due.iter().any(|h| h.name == "Beta"), "Archived Beta should not appear by default");
    let out = build_due(&db, check_date, true).unwrap();
    assert!(out.due.iter().any(|h| h.name == "Beta"));
}

#[test]
fn due_command_respects_declaration_gating() {
    let mut db = default_db();
    let today = "2026-01-28";
    let h = add(&mut db, "Gated", "everyday", "day", 1, "2026-01-01", true);
    add_quantity(&mut db, &h.id, today, 1).unwrap();
    let out = build_due(&db, today, false).unwrap();
    assert_eq!(out.due.len(), 1);
    assert_eq!(out.due[0].quantity, 0);
    assert_eq!(out.due[0].remaining, 1);
    declare(&mut db, &h.id, today, "2026-01-28T10:00:00Z", "I will do it").unwrap();
    let out = build_due(&db, today, false).unwrap();
    assert_eq!(out.due.len(), 0, "Gated habit should not be due after declaration + checkin");
}

#[test]
fn status_reports_today_and_the_week() {
    let mut db = default_db();
    let daily = add(&mut db, "Stretch", "weekdays", "day", 1, "2026-01-27", false);
    let weekly = add(&mut db, "Run", "everyday", "week", 3, "2026-01-27", true);
    add_quantity(&mut db, &daily.id, "2026-01-27", 1).unwrap();
    add_quantity(&mut db, &daily.id, "2026-01-29", 1).unwrap();
    add_quantity(&mut db, &weekly.id, "2026-01-26", 5).unwrap(); // before it was created
    add_quantity(&mut db, &weekly.id, "2026-01-28", 2).unwrap();
    add_quantity(&mut db, &weekly.id, "2026-01-30", 2).unwrap();
    declare(&mut db, &weekly.id, "2026-01-30", "2026-01-30T08:00:00Z", "run").unwrap();
    // 2026-01-30 is a Friday.
    let s = build_status(&db, "2026-01-30", None, false).unwrap();
    assert_eq!(s.today.date, "2026-01-30");
    assert_eq!(s.week.id, "2026-W05");
    assert_eq!(s.week.start_date, "2026-01-26");
    assert_eq!(s.week.end_date, "2026-02-01");
    let names: Vec<&str> = s.today.habits.iter().map(|h| h.name.as_str()).collect();
    assert_eq!(names, vec!["Run", "Stretch"]);
    let run = &s.today.habits[0];
    assert_eq!((run.quantity, run.raw_quantity, run.done, run.declared), (2, 4, false, true));
    let stretch = &s.today.habits[1];
    assert_eq!((stretch.quantity, stretch.done), (0, false));
    match &s.week.habits[0] {
        WeekHabitRow::Week(r) => assert_eq!((r.quantity, r.raw_quantity, r.target), (2, 4, 3)),
        WeekHabitRow::Day(_) => panic!("Run is counted by the week"),
    }
    match &s.week.habits[1] {
        WeekHabitRow::Day(r) => assert_eq!((r.scheduled_days, r.done_scheduled_days), (4, 2)),
        WeekHabitRow::Week(_) => panic!("Stretch is counted by the day"),
    }
    assert_eq!(week_sum_for_habit(&db, &weekly, "2026-01-26").unwrap(), (4, 2));
    let other = build_status(&db, "2026-01-30", Some("2026-01-20"), false).unwrap();
    assert_eq!(other.week.id, "2026-W04");
    assert_eq!(other.week.start_date, "2026-01-19");
    let e = build_status(&db, "2026-01-30", Some("soon"), false).unwrap_err();
    assert_eq!((e.exit_code, e.message.as_str()), (2, "Invalid date: soon"));
}

#[test]
fn stats_count_streaks_over_the_window() {
    let mut db = default_db();
    let h = add(&mut db, "Read", "everyday", "day", 1, "2026-01-01", false);
    for d in ["2026-01-02", "2026-01-03", "2026-01-04", "2026-01-06", "2026-01-09", "2026-01-10"] {
        add_quantity(&mut db, &h.id, d, 1).unwrap();
    }
    let w = add(&mut db, "Swim", "weekdays", "week", 2, "2026-01-01", false);
    add_quantity(&mut db, &w.id, "2026-01-05", 2).unwrap();
    let habits = list_habits(&db, false);
    let rows = build_stats(&db, &habits, "2026-01-01", "2026-01-10").unwrap();
    assert_eq!(rows.len(), 2);
    let r = &rows[0];
    assert_eq!((r.name.as_str(), r.period, r.target), ("Read", Period::Day, 1));
    assert_eq!((r.window.from.as_str(), r.window.to.as_str()), ("2026-01-01", "2026-01-10"));
    assert_eq!((r.success_rate.eligible, r.success_rate.successes), (10, 6));
    assert_eq!((r.current_streak, r.longest_streak), (2, 3));
    let s = &rows[1];
    assert_eq!((s.success_rate.eligible, s.success_rate.successes), (2, 1));
    assert_eq!((s.current_streak, s.longest_streak), (1, 1));
    let e = build_stats(&db, &habits, "2026-01-11", "2026-01-10").unwrap_err();
    assert_eq!((e.exit_code, e.message.as_str()), (2, "Invalid range: from > to"));
    let e = build_stats(&db, &habits, "x", "2026-01-10").unwrap_err();
    assert_eq!(e.message, "Invalid from: x");
    let e = build_stats(&db, &habits, "2026-01-01", "y").unwrap_err();
    assert_eq!(e.message, "Invalid to: y");
    let recent = build_recent_stats(&db, &habits, "2026-01-10").unwrap();
    assert_eq!(recent[0].window.from, "2025-12-12");
    assert_eq!(recent[0].window.to, "2026-01-10");
    assert_eq!(recent[0].success_rate.eligible, 10);
    assert_eq!(recent[1].window.from, "2025-10-20");
    assert_eq!(recent[1].window.to, "2026-01-11");
    assert_eq!(recent[1].success_rate.eligible, 2);
}

#[test]
fn habits_are_made_from_checked_input() {
    let h = make_habit("h0009".to_string(), "  Tea ", "Sat,sun", "week", 2, Some("green"), "2026-01-31", false, 3)
        .unwrap();
    assert_eq!((h.id.as_str(), h.name.as_str()), ("h0009", "Tea"));
    assert_eq!(h.schedule.days, vec![6, 7]);
    assert_eq!((h.target.period, h.target.quantity), (Period::Week, 2));
    assert_eq!(h.notes.as_deref(), Some("green"));
    assert_eq!((h.needs_declaration, h.excuse_quota_per_week), (false, 3));
    let bad = |name: &str, pattern: &str, period: &str, target: u32| {
        let e = make_habit("h1".to_string(), name, pattern, period, target, None, "2026-01-31", true, 2)
            .unwrap_err();
        (e.exit_code, e.message)
    };
    assert_eq!(bad(" ", "everyday", "day", 1), (2, "Habit name is required".to_string()));
    assert_eq!(bad("Tea", "never", "day", 1), (2, "Invalid schedule pattern: never".to_string()));
    assert_eq!(bad("Tea", "everyday", "month", 1), (2, "Invalid period: month".to_string()));
    assert_eq!(bad("Tea", "everyday", "day", 0), (2, "Invalid target".to_string()));
    assert_eq!(validate_habit_name(" Tea ").unwrap(), "Tea");
    let mut db = default_db();
    assert_eq!(next_habit_id(&mut db), "h0001");
    assert_eq!(next_habit_id(&mut db), "h0002");
    db.meta.next_habit_number = 12345;
    assert_eq!(next_habit_id(&mut db), "h12345");
    let before = db.meta.next_habit_number;
    assert!(add_habit(&mut db, "", "everyday", "day", 1, None, "2026-01-31", true, 2).is_err());
    assert_eq!(db.meta.next_habit_number, before);
    assert!(db.habits.is_empty());
}

#[test]
fn habits_sort_by_name_without_case_then_id() {
    let mk = |id: &str, name: &str| {
        make_habit(id.to_string(), name, "everyday", "day", 1, None, "2026-01-31", true, 2).unwrap()
    };
    let a = mk("h0002", "read");
    let b = mk("h0001", "Read");
    let c = mk("h0003", "Stretch");
    assert_eq!(stable_habit_sort(&a, &b), Ordering::Greater);
    assert_eq!(stable_habit_sort(&b, &a), Ordering::Less);
    assert_eq!(stable_habit_sort(&a, &c), Ordering::Less);
    assert_eq!(stable_habit_sort(&c, &c), Ordering::Equal);
}

#[test]
fn habits_are_scheduled_from_the_day_they_are_created() {
    let h = make_habit("h0001".to_string(), "Read", "mon,wed", "day", 1, None, "2026-01-07", true, 2)
        .unwrap();
    assert_eq!(is_scheduled_on(&h, "2026-01-05").unwrap(), false); // Monday before creation
    assert_eq!(is_scheduled_on(&h, "2026-01-07").unwrap(), true); // Wednesday
    assert_eq!(is_scheduled_on(&h, "2026-01-08").unwrap(), false); // Thursday
    assert_eq!(is_scheduled_on(&h, "2026-01-12").unwrap(), true); // Monday
    assert_eq!(is_scheduled_on(&h, "2026-02-30").unwrap_err().exit_code, 2);
}
