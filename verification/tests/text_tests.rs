use habit_cli::db::validate_db_shape;
use habit_cli::error::CliError;
use habit_cli::export::{checkins_csv, csv_escape, export, habits_csv, to_csv_line};
use habit_cli::habits::{add_habit, archive_habit, make_id, normalize_name};
use habit_cli::checkins::set_quantity;
use habit_cli::model::default_db;
use habit_cli::penalty::{action_id_for, compact_date, debt_id_for};
use habit_cli::model::PenaltyActionKind;
use habit_cli::text::{join, str_eq, str_le, str_lt, trim};
use habit_cli::ts::{timestamp_verdict, validate_rfc3339};

#[test]
fn texts_are_trimmed_of_white_space() {
    assert_eq!(trim("  a b \t\n"), "a b");
    assert_eq!(trim("\u{a0}\u{3000}x\u{2003}"), "x");
    assert_eq!(trim(" \u{200b}x "), "\u{200b}x");
    assert_eq!(trim("   "), "");
    assert_eq!(trim(""), "");
    assert_eq!(trim("x"), "x");
    assert_eq!(normalize_name("  Deep  Work "), "Deep  Work");
}

#[test]
fn texts_are_ordered_by_code_point() {
    assert!(str_lt("2026-01-05", "2026-01-06"));
    assert!(!str_lt("2026-01-06", "2026-01-06"));
    assert!(str_lt("", "a"));
    assert!(str_lt("a", "ab"));
    assert!(str_lt("Z", "a"));
    assert!(str_lt("z", "é"));
    assert!(str_lt("\u{ffff}", "\u{10000}"));
    assert!(str_le("a", "a"));
    assert!(!str_le("b", "a"));
    assert!(str_eq("héllo", "héllo"));
    assert!(!str_eq("hello", "hellO"));
    assert_eq!(join(&vec!["a".to_string(), "b".to_string(), "".to_string()], "--"), "a--b--");
    assert_eq!(join(&Vec::new(), ","), "");
}

#[test]
fn ids_are_padded_numbers() {
    assert_eq!(make_id("h", 7, 4), "h0007");
    assert_eq!(make_id("h", 0, 4), "h0000");
    assert_eq!(make_id("d", 123456, 6), "d123456");
    assert_eq!(make_id("e", 1234567, 6), "e1234567");
    assert_eq!(make_id("pr", u32::MAX, 6), "pr4294967295");
    assert_eq!(compact_date("2026-01-31"), "20260131");
    assert_eq!(compact_date("--a-b"), "ab");
    assert_eq!(debt_id_for("h0001", "2026-01-31"), "pd_h0001_20260131");
    assert_eq!(action_id_for("pd_h0001_20260131", PenaltyActionKind::Void), "pa_pd_h0001_20260131_void");
}

#[test]
fn timestamps_need_a_date_a_time_and_an_offset() {
    assert!(validate_rfc3339("2026-01-31T10:00:00Z", "ts").is_ok());
    assert!(validate_rfc3339(" 2026-01-31T10:00:00+09:00 ", "ts").is_ok());
    assert!(validate_rfc3339("2026-01-31T10:00:00.123456-08:00", "ts").is_ok());
    let e = validate_rfc3339("2026-01-31T10:00:00", "ts").unwrap_err();
    assert_eq!((e.exit_code, e.message.as_str()), (2, "Invalid ts: 2026-01-31T10:00:00"));
    let e = validate_rfc3339("2026-02-30T10:00:00Z", "when").unwrap_err();
    assert_eq!(e.message, "Invalid when: 2026-02-30T10:00:00Z");
    let e = validate_rfc3339(" \t", "ts").unwrap_err();
    assert_eq!(e.message, "Invalid ts: (empty)");
    assert!(timestamp_verdict("x", "ts", true).is_ok());
    assert_eq!(timestamp_verdict("x", "ts", false).unwrap_err().message, "Invalid ts: x");
    assert_eq!(timestamp_verdict(" ", "ts", true).unwrap_err().message, "Invalid ts: (empty)");
}

#[test]
fn errors_carry_their_class() {
    assert_eq!(CliError::usage("a").exit_code, 2);
    assert_eq!(CliError::not_found("a").exit_code, 3);
    assert_eq!(CliError::ambiguous("a").exit_code, 4);
    assert_eq!(CliError::io("a").exit_code, 5);
    assert_eq!(CliError::io("DB is locked").to_string(), "DB is locked");
}

#[test]
fn stores_need_version_one_and_counters_from_one() {
    let mut db = default_db();
    assert!(validate_db_shape(&db).is_ok());
    db.version = 2;
    let e = validate_db_shape(&db).unwrap_err();
    assert_eq!((e.exit_code, e.message.as_str()), (5, "DB corrupted"));
    db.version = 1;
    db.meta.next_excuse_number = 0;
    assert_eq!(validate_db_shape(&db).unwrap_err().exit_code, 5);
    db.meta.next_excuse_number = 1;
    db.meta.next_habit_number = 0;
    assert!(validate_db_shape(&db).is_err());
}

#[test]
fn values_with_commas_quotes_or_breaks_are_quoted() {
    assert_eq!(csv_escape("plain"), "plain");
    assert_eq!(csv_escape("a,b"), "\"a,b\"");
    assert_eq!(csv_escape("say \"hi\""), "\"say \"\"hi\"\"\"");
    assert_eq!(csv_escape("two\nlines"), "\"two\nlines\"");
    assert_eq!(csv_escape("cr\r"), "\"cr\r\"");
    assert_eq!(csv_escape(""), "");
    assert_eq!(
        to_csv_line(&["a".to_string(), "b,c".to_string(), "".to_string()]),
        "a,\"b,c\","
    );
}

#[test]
fn export_json_and_csv() {
    let mut db = default_db();
    let today = "2026-01-31";
    let h = add_habit(&mut db, "Stretch", "everyday", "day", 1, None, today, true, 2).unwrap();
    set_quantity(&mut db, &h.id, today, 1).unwrap();
    let payload = export(&db, None, None, false).unwrap();
    assert_eq!(payload.version, 1);
    assert_eq!(payload.habits.len(), 1);
    assert_eq!(payload.checkins.len(), 1);
    let habits = habits_csv(&payload.habits);
    assert!(habits.contains("id,name,schedule"));
    assert_eq!(
        habits,
        "id,name,schedule,period,target,notes,archived,created_date,archived_date\n\
         h0001,Stretch,everyday,day,1,,false,2026-01-31,\n"
    );
    let checkins = checkins_csv(&payload.checkins);
    assert!(checkins.contains("habit_id,date,quantity"));
    assert_eq!(checkins, "habit_id,date,quantity\nh0001,2026-01-31,1\n");
}

#[test]
fn export_keeps_to_the_habits_and_dates_asked_for() {
    let mut db = default_db();
    let a = add_habit(&mut db, "Walk, slowly", "mon,fri", "week", 2, Some("a \"note\""), "2026-01-01", false, 2)
        .unwrap();
    let b = add_habit(&mut db, "Nap", "weekends", "day", 1, None, "2026-01-01", false, 2).unwrap();
    for (id, date) in [(&a.id, "2026-01-05"), (&a.id, "2026-01-09"), (&b.id, "2026-01-10"), (&b.id, "2026-01-03")] {
        set_quantity(&mut db, id, date, 2).unwrap();
    }
    archive_habit(&mut db, 1, "2026-01-20");
    let shown = export(&db, Some("2026-01-04"), Some("2026-01-10"), false).unwrap();
    assert_eq!(shown.habits.len(), 1);
    let dates: Vec<&str> = shown.checkins.iter().map(|c| c.date.as_str()).collect();
    assert_eq!(dates, vec!["2026-01-05", "2026-01-09"]);
    let all = export(&db, None, Some("2026-01-09"), true).unwrap();
    let keys: Vec<(&str, &str)> =
        all.checkins.iter().map(|c| (c.date.as_str(), c.habit_id.as_str())).collect();
    assert_eq!(keys, vec![("2026-01-03", "h0002"), ("2026-01-05", "h0001"), ("2026-01-09", "h0001")]);
    assert_eq!(
        habits_csv(&all.habits),
        "id,name,schedule,period,target,notes,archived,created_date,archived_date\n\
         h0002,Nap,weekends,day,1,,true,2026-01-01,2026-01-20\n\
         h0001,\"Walk, slowly\",\"mon,fri\",week,2,\"a \"\"note\"\"\",false,2026-01-01,\n"
    );
    let e = export(&db, Some("2026-01-10"), Some("2026-01-09"), false).unwrap_err();
    assert_eq!((e.exit_code, e.message.as_str()), (2, "Invalid range: from > to"));
    assert_eq!(export(&db, Some("a"), None, false).unwrap_err().message, "Invalid from: a");
    assert_eq!(export(&db, None, Some("b"), false).unwrap_err().message, "Invalid to: b");
}
