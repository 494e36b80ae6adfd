use todo_core::dates::{
    cutoff, cutoff_day, format_today, future, future_day, parse_age_token, parse_due_input,
    render_day, today_day, validate,
};

// November 30, 2025 as a day number of the proleptic Gregorian
// calendar (January 1 of year 1 is day 1).
const TODAY: i64 = 739585;

#[test]
fn test_parse_age_token_days() {
    assert_eq!(parse_age_token("+3d"), Some((3, 'd')));
}

#[test]
fn test_parse_age_token_weeks_trimmed() {
    assert_eq!(parse_age_token("  +12w  "), Some((12, 'w')));
}

#[test]
fn test_parse_age_token_months_and_years() {
    assert_eq!(parse_age_token("+1m"), Some((1, 'm')));
    assert_eq!(parse_age_token("+2y"), Some((2, 'y')));
}

#[test]
fn test_parse_age_token_zero_rejected() {
    assert_eq!(parse_age_token("+0d"), None);
}

#[test]
fn test_parse_age_token_missing_plus() {
    assert_eq!(parse_age_token("3d"), None);
}

#[test]
fn test_parse_age_token_unknown_unit() {
    assert_eq!(parse_age_token("+3x"), None);
}

#[test]
fn test_parse_age_token_no_digits() {
    assert_eq!(parse_age_token("+d"), None);
}

#[test]
fn test_parse_age_token_non_numeric() {
    assert_eq!(parse_age_token("+a1d"), None);
}

#[test]
fn test_parse_age_token_overflow_rejected() {
    assert_eq!(parse_age_token("+99999999999999999999d"), None);
}

#[test]
fn test_validate_accepts_fixed_width_dates() {
    assert!(validate("2025/11/30"));
    // no calendar-awareness: an impossible February day still passes
    assert!(validate("2025/02/31"));
}

#[test]
fn test_validate_rejects_bad_shapes() {
    assert!(!validate("2025/13/01"));
    assert!(!validate("2025/00/10"));
    assert!(!validate("2025/01/32"));
    assert!(!validate("25/01/01"));
    assert!(!validate("2025-01-01"));
    assert!(!validate("2025/1/01"));
    assert!(!validate(""));
}

#[test]
fn test_render_day_known_dates() {
    assert_eq!(render_day(1), "0001/01/01");
    assert_eq!(render_day(739252), "2025/01/01");
    assert_eq!(render_day(TODAY), "2025/11/30");
}

#[test]
fn test_cutoff_future_day_inverse() {
    // going back five days and forward five days lands on the start
    for unit in ['d', 'w', 'm', 'y'] {
        let back = cutoff_day(TODAY, 5, unit);
        assert_eq!(future_day(back, 5, unit), TODAY);
    }
}

#[test]
fn test_cutoff_day_units() {
    assert_eq!(cutoff_day(TODAY, 1, 'd'), TODAY - 1);
    assert_eq!(cutoff_day(TODAY, 2, 'w'), TODAY - 14);
    assert_eq!(cutoff_day(TODAY, 1, 'm'), TODAY - 30);
    assert_eq!(cutoff_day(TODAY, 1, 'y'), TODAY - 365);
}

#[test]
fn test_parse_due_input_absolute() {
    assert_eq!(
        parse_due_input("2025/12/01", TODAY),
        Some("2025/12/01".to_string())
    );
    assert_eq!(
        parse_due_input("2025-12-01", TODAY),
        Some("2025/12/01".to_string())
    );
    assert_eq!(parse_due_input("soon", TODAY), None);
}

#[test]
fn test_parse_due_input_relative() {
    assert_eq!(parse_due_input("+1d", TODAY), Some("2025/12/01".to_string()));
    assert_eq!(parse_due_input("+1w", TODAY), Some("2025/12/07".to_string()));
    assert_eq!(parse_due_input("+x", TODAY), None);
}

#[test]
fn test_format_today_is_valid() {
    let today = format_today();
    assert!(validate(&today));
    assert_eq!(today, render_day(today_day()));
}

#[test]
fn test_cutoff_and_future_are_valid_dates() {
    assert!(validate(&cutoff(3, 'd')));
    assert!(validate(&future(2, 'w')));
}
