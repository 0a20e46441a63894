use std::time::Duration;

use nexa_core::duration::{duration_fits, parse_duration, parse_duration_nanos};
use nexa_core::error::NexaError;

#[test]
fn parse_seconds() {
    assert_eq!(parse_duration("10s").unwrap(), Duration::from_secs(10));
}

#[test]
fn parse_minutes() {
    assert_eq!(parse_duration("5m").unwrap(), Duration::from_secs(300));
}

#[test]
fn parse_hours() {
    assert_eq!(parse_duration("2h").unwrap(), Duration::from_secs(7200));
}

#[test]
fn parse_milliseconds() {
    assert_eq!(parse_duration("500ms").unwrap(), Duration::from_millis(500));
}

#[test]
fn parse_bare_number_as_seconds() {
    assert_eq!(parse_duration("30").unwrap(), Duration::from_secs(30));
}

#[test]
fn reject_empty_string() {
    assert!(parse_duration("").is_err());
}

#[test]
fn reject_invalid_format() {
    assert!(parse_duration("abc").is_err());
    assert!(parse_duration("10x").is_err());
}

#[test]
fn errors_name_the_problem() {
    match parse_duration("") {
        Err(NexaError::InvalidSpec(m)) => assert_eq!(m, "duration string is empty"),
        other => panic!("unexpected {other:?}"),
    }
    match parse_duration("10x") {
        Err(NexaError::InvalidSpec(m)) => assert_eq!(m, "invalid duration: 10x"),
        other => panic!("unexpected {other:?}"),
    }
}

#[test]
fn milliseconds_beyond_a_second_carry_into_seconds() {
    assert_eq!(parse_duration("1500ms").unwrap(), Duration::from_millis(1500));
}

#[test]
fn huge_amounts_are_outside_the_range() {
    assert!(duration_fits("10s"));
    assert!(!duration_fits("18446744073709551615h"));
}

#[test]
fn nanos_of_a_duration() {
    assert_eq!(parse_duration_nanos("2m"), Some(120_000_000_000));
    assert_eq!(parse_duration_nanos("250ms"), Some(250_000_000));
    assert_eq!(parse_duration_nanos("x"), None);
}
