use hb::args::{
    parse_basic_auth, parse_duration, parse_key_value, parse_positive, validation, ArgsError,
};
use hb::http::HttpVersion;
use std::time::Duration;

fn duration(input: &str) -> Result<Duration, ArgsError> {
    parse_duration(input).map(Duration::from_millis)
}

#[test]
fn test_parse_basic_auth() {
    let input = "username:password";
    let result = parse_basic_auth(input).unwrap();
    assert_eq!(result, ("username".to_string(), "password".to_string()));
}

#[test]
fn test_parse_basic_auth_invalid() {
    let input = "usernamepassword";
    let result = parse_basic_auth(input);
    assert!(result.is_err());
}

#[test]
fn test_parse_duration() {
    let inputs = [
        ("500ms", Duration::from_millis(500)),
        ("30s", Duration::from_secs(30)),
        ("45m", Duration::from_secs(2700)),
        ("1h", Duration::from_secs(3600)),
        ("2d", Duration::from_secs(172800)),
        ("1h30m15s", Duration::from_secs(5415)),
    ];

    inputs.iter().for_each(|(input, expected)| {
        let result = duration(input).unwrap();
        assert_eq!(result, *expected);
    });
}

#[test]
fn test_parse_duration_invalid() {
    let inputs = ["1x", "-1s", "0s"];
    inputs.iter().for_each(|input| {
        let result = duration(input);
        assert!(result.is_err());
    });
}

#[test]
fn test_parse_key_value() {
    let input = "key:value";
    let result = parse_key_value(input).unwrap();
    assert_eq!(result, ("key".to_string(), "value".to_string()));
}

#[test]
fn test_parse_key_value_invalid() {
    let input = "keyvalue";
    let result = parse_key_value(input);
    assert!(result.is_err());
}

#[test]
fn key_value_is_trimmed() {
    assert_eq!(
        parse_key_value(" x-a :  b ").unwrap(),
        ("x-a".to_string(), "b".to_string())
    );
    assert_eq!(parse_key_value("a:b:c").unwrap_err(), ArgsError::KeyValueFormat);
}

#[test]
fn basic_auth_keeps_empty_sides() {
    assert_eq!(parse_basic_auth(":").unwrap(), (String::new(), String::new()));
    assert_eq!(parse_basic_auth("a:b:c").unwrap_err(), ArgsError::BasicAuthFormat);
}

#[test]
fn duration_forms() {
    assert_eq!(parse_duration("1ms").unwrap(), 1);
    assert_eq!(parse_duration("1m1ms").unwrap(), 60_001);
    assert_eq!(parse_duration("1.5s").unwrap(), 5_000);
    assert_eq!(parse_duration("").unwrap_err(), ArgsError::DurationFormat);
    assert_eq!(parse_duration("5").unwrap_err(), ArgsError::DurationFormat);
    assert_eq!(parse_duration("5.s").unwrap_err(), ArgsError::DurationFormat);
    assert_eq!(parse_duration("s").unwrap_err(), ArgsError::DurationFormat);
    assert_eq!(parse_duration("0s0m").unwrap_err(), ArgsError::DurationRange);
    assert_eq!(
        parse_duration("99999999999999999999d").unwrap_err(),
        ArgsError::DurationRange
    );
}

#[test]
fn positive_numbers() {
    assert_eq!(parse_positive("10"), Ok(10));
    assert_eq!(parse_positive("+7"), Ok(7));
    assert_eq!(parse_positive("0"), Err(ArgsError::BelowOne));
    assert_eq!(parse_positive("x"), Err(ArgsError::NotANumber));
    assert_eq!(parse_positive(""), Err(ArgsError::NotANumber));
    assert_eq!(parse_positive("18446744073709551616"), Err(ArgsError::NotANumber));
    assert_eq!(parse_positive("18446744073709551615"), Ok(u64::MAX));
}

#[test]
fn option_combinations() {
    assert_eq!(
        validation(10, None, Some(5), false, HttpVersion::Http11),
        Err(ArgsError::RpsBelowClients)
    );
    assert_eq!(
        validation(10, Some(5), None, false, HttpVersion::Http11),
        Err(ArgsError::ClientsExceedRequests)
    );
    assert_eq!(
        validation(10, None, None, true, HttpVersion::Http2),
        Err(ArgsError::Http2Keepalive)
    );
    assert_eq!(validation(10, Some(100), Some(10), true, HttpVersion::Http11), Ok(()));
}
