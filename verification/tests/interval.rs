use std::time::Duration;

use watch::interval::{
    default_interval, parse_interval, IntervalParseError, DEFAULT_INTERVAL_NANOS, DOUBLE_LIMIT,
    MAX_INTERVAL_NANOS, MIN_INTERVAL_NANOS,
};

const DEFAULT_INTERVAL_SECS: f64 = 2.0;
const MIN_INTERVAL_SECS: f64 = 0.1;
const MAX_INTERVAL_SECS: f64 = 2_678_400.0;

#[test]
fn parse_interval_clamps_low() {
    let parsed = parse_interval("0.01").unwrap();
    assert_eq!(parsed, Duration::from_secs_f64(MIN_INTERVAL_SECS));
}

#[test]
fn parse_interval_clamps_high() {
    let parsed = parse_interval("99999999").unwrap();
    assert_eq!(parsed, Duration::from_secs_f64(MAX_INTERVAL_SECS));
}

#[test]
fn parse_interval_accepts_comma_decimal() {
    let parsed = parse_interval("0,5").unwrap();
    assert_eq!(parsed, Duration::from_secs_f64(0.5));
}

#[test]
fn parse_interval_rejects_empty() {
    assert_eq!(parse_interval("  ").unwrap_err(), IntervalParseError::Empty);
}

#[test]
fn default_interval_is_two_seconds() {
    assert_eq!(default_interval(), Duration::from_secs_f64(DEFAULT_INTERVAL_SECS));
    assert_eq!(default_interval().as_nanos(), DEFAULT_INTERVAL_NANOS as u128);
}

#[test]
fn interval_limits_match_their_seconds() {
    let shortest = Duration::from_nanos(MIN_INTERVAL_NANOS);
    let longest = Duration::from_nanos(MAX_INTERVAL_NANOS);
    assert_eq!(shortest, Duration::from_secs_f64(MIN_INTERVAL_SECS));
    assert_eq!(longest, Duration::from_secs_f64(MAX_INTERVAL_SECS));
}

#[test]
fn parse_interval_reads_plain_numbers() {
    assert_eq!(parse_interval("2").unwrap(), Duration::from_secs(2));
    assert_eq!(parse_interval("1.5").unwrap(), Duration::from_millis(1500));
    assert_eq!(parse_interval(" 10 ").unwrap(), Duration::from_secs(10));
    assert_eq!(parse_interval("+3").unwrap(), Duration::from_secs(3));
    assert_eq!(parse_interval("5.").unwrap(), Duration::from_secs(5));
    assert_eq!(parse_interval(".5").unwrap(), Duration::from_millis(500));
    assert_eq!(parse_interval("0.123456789").unwrap(), Duration::from_nanos(123_456_789));
    assert_eq!(parse_interval("0000000000000000000000007").unwrap(), Duration::from_secs(7));
}

#[test]
fn parse_interval_rounds_to_the_nanosecond() {
    assert_eq!(parse_interval("0.1234567894").unwrap(), Duration::from_nanos(123_456_789));
    assert_eq!(parse_interval("0.1234567895").unwrap(), Duration::from_nanos(123_456_790));
    assert_eq!(parse_interval("0.12345678949999").unwrap(), Duration::from_nanos(123_456_789));
}

#[test]
fn parse_interval_reads_exponents() {
    assert_eq!(parse_interval("1e3").unwrap(), Duration::from_secs(1000));
    assert_eq!(parse_interval("1E3").unwrap(), Duration::from_secs(1000));
    assert_eq!(parse_interval("25e-1").unwrap(), Duration::from_millis(2500));
    assert_eq!(parse_interval("2.5e+1").unwrap(), Duration::from_secs(25));
    assert_eq!(parse_interval("1e-400").unwrap(), Duration::from_nanos(MIN_INTERVAL_NANOS));
    assert_eq!(parse_interval("1e308").unwrap(), Duration::from_nanos(MAX_INTERVAL_NANOS));
    assert_eq!(parse_interval("0e400").unwrap(), Duration::from_nanos(MIN_INTERVAL_NANOS));
    assert_eq!(
        parse_interval("1e-99999999999999999999999999999999999999999").unwrap(),
        Duration::from_nanos(MIN_INTERVAL_NANOS)
    );
    assert_eq!(parse_interval("0.000000000000000000001e21").unwrap(), Duration::from_secs(1));
    assert_eq!(parse_interval("1000000000000000000000e-21").unwrap(), Duration::from_secs(1));
}

#[test]
fn parse_interval_rejects_what_no_double_holds() {
    let limit = DOUBLE_LIMIT;
    let below = format!("{}1", &limit[..limit.len() - 1]);
    let below = below.as_str();
    assert_eq!(limit.len(), 309);
    assert!(limit.ends_with('2'));
    for text in [
        "1e400",
        "-1e400",
        "1e309",
        "1.8e308",
        "0.00018e312",
        "1e99999999999999999999999999999999999999999",
        limit,
    ] {
        assert_eq!(parse_interval(text).unwrap_err(), IntervalParseError::NotANumber, "{text}");
        assert!(text.parse::<f64>().unwrap().is_infinite(), "{text}");
    }
    assert_eq!(
        parse_interval(&format!("{limit}.5")).unwrap_err(),
        IntervalParseError::NotANumber
    );
    assert_eq!(
        parse_interval(&format!("000{limit}e-0")).unwrap_err(),
        IntervalParseError::NotANumber
    );
    for text in [below, "1.7e308", "17e307", "0e400", "0.0e99999999999999999999999999999999"] {
        assert!(parse_interval(text).is_ok(), "{text}");
        assert!(text.parse::<f64>().unwrap().is_finite(), "{text}");
    }
    assert_eq!(
        parse_interval(&format!("{below}.999")).unwrap(),
        Duration::from_nanos(MAX_INTERVAL_NANOS)
    );
    assert_eq!(parse_interval(below).unwrap(), Duration::from_nanos(MAX_INTERVAL_NANOS));
}

#[test]
fn parse_interval_clamps_negative_numbers() {
    assert_eq!(parse_interval("-5").unwrap(), Duration::from_nanos(MIN_INTERVAL_NANOS));
    assert_eq!(parse_interval("-0").unwrap(), Duration::from_nanos(MIN_INTERVAL_NANOS));
    assert_eq!(parse_interval("0").unwrap(), Duration::from_nanos(MIN_INTERVAL_NANOS));
}

#[test]
fn parse_interval_keeps_the_limits() {
    assert_eq!(parse_interval("0.1").unwrap(), Duration::from_nanos(MIN_INTERVAL_NANOS));
    assert_eq!(parse_interval("2678400").unwrap(), Duration::from_nanos(MAX_INTERVAL_NANOS));
    assert_eq!(
        parse_interval("2678399.999999999").unwrap(),
        Duration::from_nanos(MAX_INTERVAL_NANOS - 1)
    );
    assert_eq!(
        parse_interval("0.100000001").unwrap(),
        Duration::from_nanos(MIN_INTERVAL_NANOS + 1)
    );
}

#[test]
fn parse_interval_rejects_what_is_no_number() {
    for text in [
        "abc", ".", "+", "-", "1.2.3", "1e", "1e+", "e5", "1 2", "0x10", "1_000", "inf", "nan",
        "infinity", "1,2,3", "--1", "1e5.0",
    ] {
        assert_eq!(parse_interval(text).unwrap_err(), IntervalParseError::NotANumber, "{text}");
    }
}

#[test]
fn interval_errors_read_as_words() {
    assert_eq!(IntervalParseError::Empty.message(), "interval is empty");
    assert_eq!(IntervalParseError::NotANumber.message(), "interval is not a number");
}
