use habit_cli::date::{iso_week_end, iso_week_id, iso_week_start, iso_weekday, parse_date_string};

#[test]
fn date_parse_validation() {
    assert!(parse_date_string("2026-01-31", "today").is_ok());
    assert!(parse_date_string("2026-02-29", "today").is_err());
    assert!(parse_date_string("2024-02-29", "today").is_ok());
    assert!(parse_date_string("2026-13-01", "today").is_err());
}

#[test]
fn iso_week_math_matches_expectations() {
    assert_eq!(iso_weekday("2026-01-31").unwrap(), 6); // Saturday
    assert_eq!(iso_week_start("2026-01-31").unwrap(), "2026-01-26");
    assert_eq!(iso_week_end("2026-01-31").unwrap(), "2026-02-01");
    assert_eq!(iso_week_id("2026-01-26").unwrap(), "2026-W05");
}
