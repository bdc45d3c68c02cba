use micro_url::duration::{parse_duration, parse_time_delta, DurationError, TimeSpan};

fn secs(n: u64) -> Result<TimeSpan, DurationError> {
    Ok(TimeSpan { secs: n, nanos: 0 })
}

#[test]
fn hours_and_minutes() {
    assert_eq!(parse_duration("1h30m"), secs(5400));
}

#[test]
fn days() {
    assert_eq!(parse_duration("2d"), secs(172800));
}

#[test]
fn empty_is_zero() {
    assert_eq!(parse_duration(""), secs(0));
}

#[test]
fn every_unit_at_once() {
    let r = parse_duration("1y1mon1w1d1h1m1s1ms1us1ns").unwrap();
    let whole = 365 * 86400 + 30 * 86400 + 7 * 86400 + 86400 + 3600 + 60 + 1;
    assert_eq!(r, TimeSpan { secs: whole, nanos: 1_001_001 });
}

#[test]
fn long_spellings_and_case() {
    assert_eq!(parse_duration("2Years"), secs(2 * 365 * 86400));
    assert_eq!(parse_duration("3MONTHS"), secs(3 * 30 * 86400));
    assert_eq!(parse_duration("1weeks2days"), secs(9 * 86400));
    assert_eq!(parse_duration("4hrs15mins"), secs(4 * 3600 + 900));
    assert_eq!(parse_duration("10seconds"), secs(10));
}

#[test]
fn sub_second_units() {
    assert_eq!(
        parse_duration("1s500milliseconds"),
        Ok(TimeSpan { secs: 1, nanos: 500_000_000 })
    );
    assert_eq!(parse_duration("7\u{b5}s"), Ok(TimeSpan { secs: 0, nanos: 7000 }));
    assert_eq!(parse_duration("7microsec"), Ok(TimeSpan { secs: 0, nanos: 7000 }));
    assert_eq!(parse_duration("2500000000NS"), Ok(TimeSpan { secs: 2, nanos: 500_000_000 }));
}

#[test]
fn bare_m_s_is_minutes_while_the_minute_is_open() {
    assert_eq!(parse_duration("5ms"), secs(300));
    assert_eq!(parse_duration("5ms3s"), secs(303));
    assert_eq!(parse_duration("1m5ms"), Ok(TimeSpan { secs: 60, nanos: 5_000_000 }));
    assert_eq!(parse_duration("1s1ms"), Ok(TimeSpan { secs: 1, nanos: 1_000_000 }));
    assert_eq!(parse_duration("500millis"), Ok(TimeSpan { secs: 0, nanos: 500_000_000 }));
    assert_eq!(parse_duration("2mins"), secs(120));
}

#[test]
fn malformed_text_is_refused() {
    for bad in ["abc", "10", "1h 30m", "h", "1h1h", "30m1h", "1x", "-5s", " 1s", "1\u{663}s"] {
        assert_eq!(parse_duration(bad), Err(DurationError::Malformed), "{bad}");
    }
}

#[test]
fn numbers_beyond_u64_are_refused() {
    assert_eq!(parse_duration("18446744073709551616s"), Err(DurationError::TooLarge));
    assert_eq!(parse_duration("18446744073709551615s"), secs(u64::MAX));
    assert_eq!(parse_duration("18446744073709551615s1ns"), Ok(TimeSpan { secs: u64::MAX, nanos: 1 }));
    assert_eq!(parse_duration("18446744073709551615s1000000000ns"), Err(DurationError::TooLarge));
    assert_eq!(parse_duration("600000000000y"), Err(DurationError::TooLarge));
}

#[test]
fn malformed_wins_over_too_large() {
    assert_eq!(parse_duration("99999999999999999999999y1x"), Err(DurationError::Malformed));
}

#[test]
fn time_delta_bounds() {
    assert_eq!(parse_time_delta("1h30m"), secs(5400));
    assert_eq!(parse_time_delta("9223372036854775807millis"), Ok(TimeSpan {
        secs: 9223372036854775,
        nanos: 807_000_000,
    }));
    assert_eq!(parse_time_delta("9223372036854775808ns"), Err(DurationError::TooLarge));
    assert_eq!(parse_time_delta("9223372036854776s"), Err(DurationError::TooLarge));
    assert_eq!(parse_duration("9223372036854776s"), secs(9223372036854776));
}
