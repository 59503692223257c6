use habit_cli::recap::{compute_range_dates, percent, render_progress_bar, target_label, RecapRange};
use habit_cli::model::Period;

#[test]
fn test_compute_range_dates_ytd() {
    let (from, to) = compute_range_dates(RecapRange::Ytd, "2026-03-15").unwrap();
    assert_eq!(from, "2026-01-01");
    assert_eq!(to, "2026-03-15");
}

#[test]
fn test_compute_range_dates_month() {
    let (from, to) = compute_range_dates(RecapRange::Month, "2026-01-31").unwrap();
    assert_eq!(from, "2026-01-02");
    assert_eq!(to, "2026-01-31");
}

#[test]
fn test_compute_range_dates_week() {
    let (from, to) = compute_range_dates(RecapRange::Week, "2026-01-31").unwrap();
    assert_eq!(from, "2026-01-25");
    assert_eq!(to, "2026-01-31");
}

#[test]
fn test_render_progress_bar() {
    assert_eq!(render_progress_bar(Some(100), 10), "██████████");
    assert_eq!(render_progress_bar(Some(50), 10), "█████░░░░░");
    assert_eq!(render_progress_bar(Some(0), 10), "░░░░░░░░░░");
    assert_eq!(render_progress_bar(None, 10), "----------");
}

#[test]
fn progress_bar_rounds_to_the_nearest_cell() {
    assert_eq!(render_progress_bar(Some(33), 10), "███░░░░░░░");
    assert_eq!(render_progress_bar(Some(35), 10), "████░░░░░░");
    assert_eq!(render_progress_bar(Some(250), 4), "████");
    assert_eq!(render_progress_bar(Some(50), 0), "");
}

#[test]
fn range_dates_reject_a_bad_today() {
    let err = compute_range_dates(RecapRange::Ytd, "2026-02-30").unwrap_err();
    assert_eq!(err.exit_code, 2);
    assert_eq!(err.message, "Invalid date: 2026-02-30");
}

#[test]
fn percent_rounds_half_up() {
    assert_eq!(percent(10, 30), Some(33));
    assert_eq!(percent(2, 5), Some(40));
    assert_eq!(percent(1, 8), Some(13));
    assert_eq!(percent(2, 3), Some(67));
    assert_eq!(percent(0, 0), None);
    assert_eq!(percent(7, 7), Some(100));
}

#[test]
fn target_label_names_quantity_and_period() {
    assert_eq!(target_label(1, Period::Day), "1/day");
    assert_eq!(target_label(8, Period::Day), "8/day");
    assert_eq!(target_label(3, Period::Week), "3/week");
    assert_eq!(RecapRange::Month.as_str(), "month");
}
