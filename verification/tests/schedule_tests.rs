use habit_cli::schedule::{
    iso_to_day_name, parse_schedule_pattern, schedule_to_string, validate_schedule, Schedule,
};

#[test]
fn schedule_patterns_roundtrip() {
    assert_eq!(schedule_to_string(&parse_schedule_pattern("everyday").unwrap()), "everyday");
    assert_eq!(schedule_to_string(&parse_schedule_pattern("weekdays").unwrap()), "weekdays");
    assert_eq!(schedule_to_string(&parse_schedule_pattern("weekends").unwrap()), "weekends");
    assert_eq!(schedule_to_string(&parse_schedule_pattern("mon,wed,fri").unwrap()), "mon,wed,fri");
}

#[test]
fn schedule_pattern_is_put_in_order_without_repeats() {
    let s = parse_schedule_pattern(" Fri, MON ,wed,,mon ").unwrap();
    assert_eq!(s.kind, "days_of_week");
    assert_eq!(s.days, vec![1, 3, 5]);
    assert_eq!(schedule_to_string(&s), "mon,wed,fri");
}

#[test]
fn schedule_named_day_by_day_prints_as_its_preset() {
    assert_eq!(
        schedule_to_string(&parse_schedule_pattern("sun,sat").unwrap()),
        "weekends"
    );
    assert_eq!(
        schedule_to_string(&parse_schedule_pattern("fri,thu,wed,tue,mon").unwrap()),
        "weekdays"
    );
    assert_eq!(
        schedule_to_string(&parse_schedule_pattern("mon,tue,wed,thu,fri,sat,sun").unwrap()),
        "everyday"
    );
    assert_eq!(parse_schedule_pattern("EVERYDAY").unwrap().days, vec![1, 2, 3, 4, 5, 6, 7]);
}

#[test]
fn schedule_pattern_errors() {
    let e = parse_schedule_pattern("   ").unwrap_err();
    assert_eq!((e.exit_code, e.message.as_str()), (2, "Invalid schedule pattern"));
    let e = parse_schedule_pattern("mon,noday").unwrap_err();
    assert_eq!((e.exit_code, e.message.as_str()), (2, "Invalid schedule pattern: mon,noday"));
    let e = parse_schedule_pattern(" , ,").unwrap_err();
    assert_eq!((e.exit_code, e.message.as_str()), (2, "Invalid schedule pattern:  , ,"));
    let e = parse_schedule_pattern("monday").unwrap_err();
    assert_eq!(e.message, "Invalid schedule pattern: monday");
}

#[test]
fn schedule_validation_and_day_names() {
    let ok = Schedule { kind: "days_of_week".to_string(), days: vec![7, 1] };
    assert!(validate_schedule(&ok).is_ok());
    assert_eq!(schedule_to_string(&ok), "mon,sun");
    let bad_kind = Schedule { kind: "dates".to_string(), days: vec![1] };
    assert_eq!(validate_schedule(&bad_kind).unwrap_err().message, "Invalid schedule");
    let empty = Schedule { kind: "days_of_week".to_string(), days: vec![] };
    assert!(validate_schedule(&empty).is_err());
    let out_of_range = Schedule { kind: "days_of_week".to_string(), days: vec![1, 8] };
    assert!(validate_schedule(&out_of_range).is_err());
    assert_eq!(schedule_to_string(&out_of_range), "mon");
    assert_eq!(iso_to_day_name(4), Some("thu"));
    assert_eq!(iso_to_day_name(0), None);
}
