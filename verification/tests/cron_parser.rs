use std::str::FromStr;

use taskkit::cron_parser::{CronExpr, Field};

#[test]
fn parse_star() {
    let f: Field = "*".parse().unwrap();
    assert_eq!(f, Field::Any);
}

#[test]
fn parse_every_n() {
    let f: Field = "*/15".parse().unwrap();
    assert_eq!(f, Field::Every(15));
}

#[test]
fn parse_list() {
    let f: Field = "1,15,45".parse().unwrap();
    assert_eq!(f, Field::Values(vec![1, 15, 45]));
}

#[test]
fn parse_range() {
    let f: Field = "9-17".parse().unwrap();
    assert_eq!(f, Field::Range(9, 17, None));
}

#[test]
fn field_matches() {
    let f: Field = "*/15".parse().unwrap();
    assert!(f.matches(0));
    assert!(f.matches(15));
    assert!(f.matches(45));
    assert!(!f.matches(7));
}

#[test]
fn full_cron_every_minute() {
    let c: CronExpr = "* * * * *".parse().unwrap();
    assert!(c.matches(0, 0, 1, 1, 0));
    assert!(c.matches(59, 23, 31, 12, 6));
}

#[test]
fn full_cron_weekdays_9am() {
    let c: CronExpr = "0 9 * * 1-5".parse().unwrap();
    assert!(c.matches(0, 9, 15, 6, 1));
    assert!(!c.matches(0, 9, 15, 6, 0));
    assert!(!c.matches(0, 10, 15, 6, 1));
}

#[test]
fn reject_bad_field_count() {
    assert!("* * *".parse::<CronExpr>().is_err());
    assert!("* * * * * *".parse::<CronExpr>().is_err());
}

#[test]
fn test_field_any_matches_anything() {
    let f = Field::Any;
    for v in [0usize, 1, 7, 30, 59, 100, usize::MAX] {
        assert!(f.matches(v), "Field::Any should match {}", v);
    }
}

#[test]
fn test_field_every_zero_steps_must_be_rejected() {
    let err = Field::from_str("*/0").unwrap_err();
    assert!(err.contains("step cannot be 0"), "got: {}", err);
}

#[test]
fn test_field_every_non_numeric_is_error() {
    let err = Field::from_str("*/abc").unwrap_err();
    assert!(err.contains("bad */n"), "got: {}", err);
}

#[test]
fn test_field_range_start_greater_than_end_is_error() {
    let err = Field::from_str("20-10").unwrap_err();
    assert!(err.contains("range start > end"), "got: {}", err);
}

#[test]
fn test_field_range_with_more_than_two_dashes_is_error() {
    let err = Field::from_str("1-2-3").unwrap_err();
    assert!(err.contains("bad range"), "got: {}", err);
}

#[test]
fn test_field_range_non_numeric_start_or_end_errors() {
    let err = Field::from_str("a-5").unwrap_err();
    assert!(err.contains("bad range start"), "got: {}", err);
    let err = Field::from_str("5-z").unwrap_err();
    assert!(err.contains("bad range end"), "got: {}", err);
}

#[test]
fn test_field_list_with_invalid_member_is_error() {
    let err = Field::from_str("1,2,abc,4").unwrap_err();
    assert!(err.contains("bad list"), "got: {}", err);
}

#[test]
fn test_field_values_matches_only_listed() {
    let f = Field::from_str("5,15,45").unwrap();
    assert!(f.matches(5));
    assert!(f.matches(15));
    assert!(f.matches(45));
    assert!(!f.matches(0));
    assert!(!f.matches(7));
    assert!(!f.matches(46));
}

#[test]
fn test_field_range_without_step_matches_anything_in_window() {
    let f = Field::from_str("9-17").unwrap();
    assert!(f.matches(9));
    assert!(f.matches(10));
    assert!(f.matches(17));
    assert!(!f.matches(8));
    assert!(!f.matches(18));
}

#[test]
fn test_field_range_with_step_honours_modulo() {
    let f = Field::Range(0, 30, Some(5));
    assert!(f.matches(0));
    assert!(f.matches(5));
    assert!(f.matches(10));
    assert!(f.matches(30));
    assert!(!f.matches(1));
    assert!(!f.matches(3));
    assert!(!f.matches(31));
}

#[test]
fn test_field_range_below_start_and_above_end() {
    let f = Field::Range(10, 20, None);
    assert!(!f.matches(0));
    assert!(!f.matches(9));
    assert!(f.matches(10));
    assert!(f.matches(20));
    assert!(!f.matches(21));
    assert!(!f.matches(100));
}

#[test]
fn test_cron_expr_matches_with_combined_fields() {
    let c: CronExpr = "0 9 * * 1-5".parse().unwrap();
    assert!(c.matches(0, 9, 15, 6, 1));
    assert!(c.matches(0, 9, 19, 6, 5));
    assert!(!c.matches(0, 9, 14, 6, 0));
    assert!(!c.matches(0, 9, 20, 6, 6));
    assert!(!c.matches(0, 10, 15, 6, 1));
    assert!(!c.matches(1, 9, 15, 6, 1));
    assert_eq!(c.minute, Field::Values(vec![0]));
    assert_eq!(c.hour, Field::Values(vec![9]));
    assert_eq!(c.day, Field::Any);
    assert_eq!(c.month, Field::Any);
    assert_eq!(c.weekday, Field::Range(1, 5, None));
}

#[test]
fn test_cron_expr_every_minute_matches_everything() {
    let c: CronExpr = "* * * * *".parse().unwrap();
    for minute in [0, 30, 59] {
        for hour in [0, 12, 23] {
            for day in [1, 15, 31] {
                for month in [1, 6, 12] {
                    for weekday in [0, 3, 6] {
                        assert!(c.matches(minute, hour, day, month, weekday));
                    }
                }
            }
        }
    }
}

#[test]
fn test_cron_expr_specific_minute_list() {
    let c: CronExpr = "5,15,45 * * * *".parse().unwrap();
    assert!(c.matches(5, 12, 1, 1, 0));
    assert!(c.matches(15, 0, 31, 12, 6));
    assert!(c.matches(45, 23, 28, 2, 3));
    assert!(!c.matches(0, 12, 1, 1, 0));
    assert!(!c.matches(14, 12, 1, 1, 0));
}

#[test]
fn test_cron_expr_rejects_wrong_field_counts() {
    assert!("* * *".parse::<CronExpr>().is_err());
    assert!("* * * * * *".parse::<CronExpr>().is_err());
    assert!("".parse::<CronExpr>().is_err());
    assert!("*".parse::<CronExpr>().is_err());
}

#[test]
fn test_cron_expr_whitespace_separator_handling() {
    let c: CronExpr = "0   9    *  *   1-5".parse().unwrap();
    assert!(c.matches(0, 9, 15, 6, 1));
    assert!(!c.matches(0, 9, 15, 6, 0));
    let c2: CronExpr = "0\t9\t*\t*\t1-5".parse().unwrap();
    assert!(c2.matches(0, 9, 15, 6, 3));
}

#[test]
fn test_field_from_str_single_value_is_values_with_one_element() {
    let f = Field::from_str("5").unwrap();
    assert_eq!(f, Field::Values(vec![5]));
}

#[test]
fn test_field_from_str_non_numeric_single_value_errors() {
    let err = Field::from_str("not-a-number").unwrap_err();
    assert!(err.contains("bad range"), "got: {}", err);
}

#[test]
fn test_field_every_with_large_step() {
    let f = Field::from_str("*/1440").unwrap();
    assert_eq!(f, Field::Every(1440));
    assert!(f.matches(0));
    assert!(!f.matches(1));
    assert!(f.matches(1440));
}

// ---------------------------------------------------------------------------
// Further cases
// ---------------------------------------------------------------------------

#[test]
fn field_count_error_names_the_count() {
    assert_eq!("* * *".parse::<CronExpr>().unwrap_err(), "cron must have 5 fields, got 3");
    assert_eq!("".parse::<CronExpr>().unwrap_err(), "cron must have 5 fields, got 0");
}

#[test]
fn plus_sign_and_leading_zeros_are_accepted() {
    assert_eq!(Field::from_str("+7").unwrap(), Field::Values(vec![7]));
    assert_eq!(Field::from_str("007").unwrap(), Field::Values(vec![7]));
}

#[test]
fn exact_error_messages_for_range_and_steps() {
    assert_eq!(Field::from_str("20-10").unwrap_err(), "range start > end: 20-10");
    assert_eq!(Field::from_str("1-2-3").unwrap_err(), "bad range: 1-2-3");
    assert_eq!(Field::from_str("*/0").unwrap_err(), "step cannot be 0");
    assert!(Field::from_str("1,,2").unwrap_err().starts_with("bad list: "));
    assert!(Field::from_str("x").unwrap_err().starts_with("bad field: "));
}

#[test]
fn first_bad_field_is_reported() {
    let err = "*/0 x * * *".parse::<CronExpr>().unwrap_err();
    assert_eq!(err, "step cannot be 0");
}
