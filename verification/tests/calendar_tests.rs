use habit_cli::date::{
    add_days, civil_from_days, date_range_inclusive, days_from_civil, fmt_date, is_valid_date,
    iso_week_end, iso_week_id, iso_week_start, iso_weekday, parse_date, parse_date_string,
    utc_date_from_unix_seconds, Date, MAX_DAY, MIN_DAY,
};

#[test]
fn day_numbers_count_from_the_epoch() {
    assert_eq!(days_from_civil(1970, 1, 1), 0);
    assert_eq!(days_from_civil(1969, 12, 31), -1);
    assert_eq!(days_from_civil(2000, 3, 1), 11017);
    assert_eq!(days_from_civil(2026, 1, 31), 20484);
    assert_eq!(days_from_civil(0, 1, 1), -719528);
    assert_eq!(days_from_civil(9999, 12, 31), 2932896);
    assert_eq!(days_from_civil(1, 1, 1), -719162);
    assert_eq!(days_from_civil(i32::MIN, 1, 1), MIN_DAY);
    assert_eq!(days_from_civil(i32::MAX, 12, 31), MAX_DAY);
}

#[test]
fn day_numbers_turn_back_into_their_dates() {
    for (y, m, d) in [
        (1970, 1, 1),
        (2024, 2, 29),
        (2000, 2, 29),
        (1900, 2, 28),
        (1900, 3, 1),
        (-1, 12, 31),
        (0, 2, 29),
        (-400, 2, 29),
        (9999, 12, 31),
        (i32::MAX, 12, 31),
        (i32::MIN, 1, 1),
    ] {
        assert!(is_valid_date(y, m, d));
        assert_eq!(civil_from_days(days_from_civil(y, m, d)), Date { y, m, d });
    }
    assert_eq!(civil_from_days(0), Date { y: 1970, m: 1, d: 1 });
    assert_eq!(civil_from_days(-1), Date { y: 1969, m: 12, d: 31 });
    for z in [-800_000i64, -719_529, -1, 0, 59, 60, 365, 11_016, 11_017, 20_484, 3_000_000] {
        let dt = civil_from_days(z);
        assert!(is_valid_date(dt.y, dt.m, dt.d));
        assert_eq!(days_from_civil(dt.y, dt.m, dt.d), z);
    }
}

#[test]
fn the_last_of_february_follows_the_leap_rule() {
    assert!(is_valid_date(2024, 2, 29));
    assert!(is_valid_date(2000, 2, 29));
    assert!(is_valid_date(0, 2, 29));
    assert!(is_valid_date(-4, 2, 29));
    assert!(!is_valid_date(1900, 2, 29));
    assert!(!is_valid_date(2100, 2, 29));
    assert!(!is_valid_date(2026, 2, 29));
    assert!(!is_valid_date(-1, 2, 29));
    assert!(!is_valid_date(2026, 0, 1));
    assert!(!is_valid_date(2026, 13, 1));
    assert!(!is_valid_date(2026, 4, 31));
    assert!(!is_valid_date(2026, 1, 0));
    assert!(is_valid_date(2026, 12, 31));
}

#[test]
fn dates_are_read_strictly() {
    for bad in [
        "", "2026-1-31", "2026-01-31 ", " 2026-01-31", "2026/01/31", "20260131", "2026-01-3x",
        "+026-01-31", "-001-01-31", "2026-+1-31", "2026-00-10", "2026-01-00", "2026-02-30",
        "２０２６-01-31", "2026-01-311",
    ] {
        let e = parse_date_string(bad, "date").unwrap_err();
        assert_eq!(e.exit_code, 2, "{:?}", bad);
        assert_eq!(e.message, format!("Invalid date: {}", bad));
    }
    assert_eq!(parse_date("0000-01-01", "date").unwrap(), Date { y: 0, m: 1, d: 1 });
    assert_eq!(parse_date("9999-12-31", "date").unwrap(), Date { y: 9999, m: 12, d: 31 });
    assert_eq!(parse_date_string("2026-02-29", "today").unwrap_err().message, "Invalid today: 2026-02-29");
}

#[test]
fn dates_are_written_with_padding() {
    assert_eq!(fmt_date(Date { y: 2026, m: 1, d: 5 }), "2026-01-05");
    assert_eq!(fmt_date(Date { y: 7, m: 12, d: 31 }), "0007-12-31");
    assert_eq!(fmt_date(Date { y: -1, m: 12, d: 31 }), "-001-12-31");
    assert_eq!(fmt_date(Date { y: -12345, m: 1, d: 1 }), "-12345-01-01");
    assert_eq!(fmt_date(Date { y: 10000, m: 1, d: 1 }), "10000-01-01");
}

#[test]
fn days_are_added_across_months_and_years() {
    assert_eq!(add_days("2024-02-28", 1).unwrap(), "2024-02-29");
    assert_eq!(add_days("2024-02-28", 2).unwrap(), "2024-03-01");
    assert_eq!(add_days("2023-02-28", 1).unwrap(), "2023-03-01");
    assert_eq!(add_days("1900-02-28", 1).unwrap(), "1900-03-01");
    assert_eq!(add_days("2000-02-28", 1).unwrap(), "2000-02-29");
    assert_eq!(add_days("1970-01-01", -1).unwrap(), "1969-12-31");
    assert_eq!(add_days("2026-01-31", -400).unwrap(), "2024-12-27");
    assert_eq!(add_days("2026-01-31", 0).unwrap(), "2026-01-31");
    assert_eq!(add_days("9999-12-31", 1).unwrap(), "10000-01-01");
    assert_eq!(add_days("0000-01-01", -1).unwrap(), "-001-12-31");
    assert_eq!(add_days("2026-01-31", i32::MAX).unwrap(), "5881636-08-10");
    assert_eq!(add_days("2026-01-31", i32::MIN).unwrap(), "-5877585-07-23");
    assert_eq!(add_days("2026-1-31", 1).unwrap_err().message, "Invalid date: 2026-1-31");
}

#[test]
fn weeks_run_from_monday_to_sunday() {
    for (date, wd, start, end) in [
        ("2026-01-26", 1, "2026-01-26", "2026-02-01"),
        ("2026-01-28", 3, "2026-01-26", "2026-02-01"),
        ("2026-02-01", 7, "2026-01-26", "2026-02-01"),
        ("1970-01-01", 4, "1969-12-29", "1970-01-04"),
        ("0001-01-01", 1, "0001-01-01", "0001-01-07"),
        ("0000-01-01", 6, "-001-12-27", "0000-01-02"),
        ("9999-12-31", 5, "9999-12-27", "10000-01-02"),
    ] {
        assert_eq!(iso_weekday(date).unwrap(), wd, "{}", date);
        assert_eq!(iso_week_start(date).unwrap(), start, "{}", date);
        assert_eq!(iso_week_end(date).unwrap(), end, "{}", date);
    }
    assert_eq!(iso_weekday("nope").unwrap_err().message, "Invalid date: nope");
    assert_eq!(iso_week_start("nope").unwrap_err().exit_code, 2);
    assert_eq!(iso_week_end("nope").unwrap_err().exit_code, 2);
}

#[test]
fn week_ids_follow_the_thursday() {
    assert_eq!(iso_week_id("2026-01-31").unwrap(), "2026-W05");
    assert_eq!(iso_week_id("2021-01-01").unwrap(), "2020-W53");
    assert_eq!(iso_week_id("2020-12-31").unwrap(), "2020-W53");
    assert_eq!(iso_week_id("2024-12-30").unwrap(), "2025-W01");
    assert_eq!(iso_week_id("2027-01-03").unwrap(), "2026-W53");
    assert_eq!(iso_week_id("0001-01-01").unwrap(), "0001-W01");
    assert_eq!(iso_week_id("9999-12-31").unwrap(), "9999-W52");
    assert_eq!(iso_week_id("0000-01-01").unwrap(), "-001-W52");
    assert_eq!(iso_week_id("2026-W05").unwrap_err().message, "Invalid date: 2026-W05");
}

#[test]
fn ranges_list_every_day_once() {
    assert_eq!(
        date_range_inclusive("2024-02-27", "2024-03-01").unwrap(),
        vec!["2024-02-27", "2024-02-28", "2024-02-29", "2024-03-01"]
    );
    assert_eq!(date_range_inclusive("2026-01-31", "2026-01-31").unwrap(), vec!["2026-01-31"]);
    assert_eq!(date_range_inclusive("2025-01-01", "2025-12-31").unwrap().len(), 365);
    let e = date_range_inclusive("2026-02-01", "2026-01-31").unwrap_err();
    assert_eq!((e.exit_code, e.message.as_str()), (2, "Invalid range: from > to"));
    assert_eq!(date_range_inclusive("x", "y").unwrap_err().message, "Invalid from: x");
    assert_eq!(date_range_inclusive("2026-01-31", "y").unwrap_err().message, "Invalid to: y");
}

#[test]
fn the_clock_is_cut_down_to_a_date() {
    assert_eq!(utc_date_from_unix_seconds(0), "1970-01-01");
    assert_eq!(utc_date_from_unix_seconds(86_399), "1970-01-01");
    assert_eq!(utc_date_from_unix_seconds(86_400), "1970-01-02");
    assert_eq!(utc_date_from_unix_seconds(1_700_000_000), "2023-11-14");
    assert_eq!(utc_date_from_unix_seconds(u64::MAX), "2147483647-12-31");
}
