use push_delivery::clock::{MILLISECOND, SECOND};
use push_delivery::config::{parse_count, parse_duration, InvalidProperty, Properties};
use push_delivery::settings::Settings;

fn nothing_written() -> Properties {
    Properties {
        attempts_interval: None,
        attempts_max: None,
        retry_interval: None,
        timeout_request: None,
        timeout_verify: None,
        throttle: None,
    }
}

#[test]
fn durations_with_each_unit() {
    assert_eq!(parse_duration("500ms"), Some(500 * MILLISECOND));
    assert_eq!(parse_duration("10s"), Some(10 * SECOND));
    assert_eq!(parse_duration("1m"), Some(60 * SECOND));
    assert_eq!(parse_duration("2h"), Some(7_200 * SECOND));
    assert_eq!(parse_duration("1d"), Some(86_400 * SECOND));
    assert_eq!(parse_duration("0s"), Some(0));
    assert_eq!(parse_duration("007m"), Some(420 * SECOND));
}

#[test]
fn what_is_no_duration() {
    for text in ["", "s", "10", "10 s", " 10s", "10s ", "10x", "10sm", "10mss", "1.5s", "-1s", "m1", "١٠s"] {
        assert_eq!(parse_duration(text), None, "{:?}", text);
    }
}

#[test]
fn durations_at_the_limit() {
    assert_eq!(parse_duration("18446744073709ms"), Some(18_446_744_073_709_000_000));
    assert_eq!(parse_duration("18446744073710ms"), None);
    assert_eq!(parse_duration("18446744073s"), Some(18_446_744_073_000_000_000));
    assert_eq!(parse_duration("18446744074s"), None);
    assert_eq!(parse_duration("99999999999999999999999999s"), None);
    assert_eq!(parse_duration("213503d"), Some(213_503 * 86_400 * SECOND));
    assert_eq!(parse_duration("213504d"), None);
}

#[test]
fn counts() {
    assert_eq!(parse_count("3"), Some(3));
    assert_eq!(parse_count("0"), Some(0));
    assert_eq!(parse_count("4294967295"), Some(u32::MAX));
    assert_eq!(parse_count("4294967296"), None);
    assert_eq!(parse_count("99999999999999999999999"), None);
    assert_eq!(parse_count(""), None);
    assert_eq!(parse_count("3s"), None);
    assert_eq!(parse_count("+3"), None);
    assert_eq!(parse_count(" 3"), None);
}

fn same(a: Settings, b: Settings) -> bool {
    a.push_attempt_interval == b.push_attempt_interval
        && a.push_attempts_max == b.push_attempts_max
        && a.push_retry_interval == b.push_retry_interval
        && a.push_timeout == b.push_timeout
        && a.push_verify_timeout == b.push_verify_timeout
        && a.push_throttle == b.push_throttle
}

#[test]
fn unwritten_settings_are_standard() {
    let settings = Settings::from_properties(&nothing_written()).expect("readable");
    assert!(same(settings, Settings::standard()));
    let written = Properties {
        attempts_interval: Some("1m".to_string()),
        attempts_max: Some("3".to_string()),
        retry_interval: Some("1s".to_string()),
        timeout_request: Some("10s".to_string()),
        timeout_verify: Some("1m".to_string()),
        throttle: Some("1s".to_string()),
    };
    assert!(same(Settings::from_properties(&written).expect("readable"), Settings::standard()));
}

#[test]
fn written_settings_are_taken() {
    let written = Properties {
        attempts_interval: Some("90s".to_string()),
        attempts_max: Some("5".to_string()),
        retry_interval: Some("250ms".to_string()),
        timeout_request: Some("2m".to_string()),
        timeout_verify: Some("1h".to_string()),
        throttle: Some("0s".to_string()),
    };
    let settings = Settings::from_properties(&written).expect("readable");
    assert_eq!(settings.push_attempt_interval, 90 * SECOND);
    assert_eq!(settings.push_attempts_max, 5);
    assert_eq!(settings.push_retry_interval, 250 * MILLISECOND);
    assert_eq!(settings.push_timeout, 120 * SECOND);
    assert_eq!(settings.push_verify_timeout, 3_600 * SECOND);
    assert_eq!(settings.push_throttle, 0);
}

#[test]
fn the_first_unreadable_setting_is_named() {
    let mut properties = nothing_written();
    properties.throttle = Some("soon".to_string());
    let err = Settings::from_properties(&properties).expect_err("unreadable");
    assert_eq!(err, InvalidProperty::Throttle);
    assert_eq!(err.key(), "jmap.push.throttle");

    properties.attempts_max = Some("3m".to_string());
    let err = Settings::from_properties(&properties).expect_err("unreadable");
    assert_eq!(err, InvalidProperty::AttemptsMax);
    assert_eq!(err.key(), "jmap.push.attempts.max");

    properties.attempts_interval = Some("1".to_string());
    let err = Settings::from_properties(&properties).expect_err("unreadable");
    assert_eq!(err, InvalidProperty::AttemptsInterval);
    assert_eq!(err.key(), "jmap.push.attempts.interval");

    let mut properties = nothing_written();
    properties.retry_interval = Some("".to_string());
    assert_eq!(
        Settings::from_properties(&properties).expect_err("unreadable").key(),
        "jmap.push.retry.interval"
    );
    let mut properties = nothing_written();
    properties.timeout_request = Some("ms".to_string());
    assert_eq!(
        Settings::from_properties(&properties).expect_err("unreadable").key(),
        "jmap.push.timeout.request"
    );
    let mut properties = nothing_written();
    properties.timeout_verify = Some("1w".to_string());
    assert_eq!(
        Settings::from_properties(&properties).expect_err("unreadable").key(),
        "jmap.push.timeout.verify"
    );
}
