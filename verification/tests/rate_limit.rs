use taskkit::domain::rate_limiter::{parse_rate_spec, RateSpec};

fn spec(amount: &str, per_seconds: u32) -> Option<RateSpec> {
    Some(RateSpec { amount: amount.to_string(), per_seconds })
}

#[test]
fn rate_spec_per_second_units() {
    assert_eq!(parse_rate_spec("10/s"), spec("10", 1));
    assert_eq!(parse_rate_spec("0.5/s"), spec("0.5", 1));
    assert_eq!(parse_rate_spec("100/sec"), spec("100", 1));
    assert_eq!(parse_rate_spec("50/second"), spec("50", 1));
}

#[test]
fn rate_spec_per_minute_units() {
    assert_eq!(parse_rate_spec("60/m"), spec("60", 60));
    assert_eq!(parse_rate_spec("120/min"), spec("120", 60));
    assert_eq!(parse_rate_spec("30/minute"), spec("30", 60));
}

#[test]
fn rate_spec_per_hour_units() {
    assert_eq!(parse_rate_spec("3600/h"), spec("3600", 3600));
    assert_eq!(parse_rate_spec("7200/hr"), spec("7200", 3600));
    assert_eq!(parse_rate_spec("3600/hour"), spec("3600", 3600));
}

#[test]
fn rate_spec_without_unit_is_per_second() {
    assert_eq!(parse_rate_spec("5"), spec("5", 1));
    assert_eq!(parse_rate_spec("  0 \t"), spec("0", 1));
    // The amount is not checked here: reading it is the caller's job.
    assert_eq!(parse_rate_spec("abc"), spec("abc", 1));
}

#[test]
fn rate_spec_rejects_empty_and_unknown_units() {
    assert_eq!(parse_rate_spec(""), None);
    assert_eq!(parse_rate_spec("   "), None);
    assert_eq!(parse_rate_spec("10/xyz"), None);
    assert_eq!(parse_rate_spec("10/"), None);
    // Only the first slash splits.
    assert_eq!(parse_rate_spec("1/2/s"), None);
    assert_eq!(parse_rate_spec(" -5/s "), spec("-5", 1));
}
