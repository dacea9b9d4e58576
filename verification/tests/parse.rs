use chrono::{DateTime, Datelike, Duration, TimeZone, Timelike, Utc};
use timefilter::parse_time_at;
use timefilter::prelude::{parse_duration, parse_time, TimeError, UtcTime};

fn utc(dt: DateTime<Utc>) -> UtcTime {
    UtcTime::from_timestamp(dt.timestamp(), dt.timestamp_subsec_nanos()).unwrap()
}

fn chrono_of(t: UtcTime) -> DateTime<Utc> {
    DateTime::from_timestamp(t.timestamp(), t.timestamp_subsec_nanos()).unwrap()
}

fn delta(d: timefilter::Duration) -> Duration {
    Duration::seconds(d.num_seconds())
}

// -- relative time --

#[test]
fn hours() {
    let now = Utc::now();
    let parsed = chrono_of(parse_time("1h").unwrap());
    let diff = now - parsed;
    assert!(diff >= Duration::minutes(59) && diff <= Duration::minutes(61));
}

#[test]
fn hours_hr_suffix() {
    let now = Utc::now();
    let parsed = chrono_of(parse_time("2hr").unwrap());
    let diff = now - parsed;
    assert!(diff >= Duration::minutes(119) && diff <= Duration::minutes(121));
}

#[test]
fn minutes() {
    let now = Utc::now();
    let parsed = chrono_of(parse_time("30m").unwrap());
    let diff = now - parsed;
    assert!(diff >= Duration::minutes(29) && diff <= Duration::minutes(31));
}

#[test]
fn minutes_min_suffix() {
    let now = Utc::now();
    let parsed = chrono_of(parse_time("15min").unwrap());
    let diff = now - parsed;
    assert!(diff >= Duration::minutes(14) && diff <= Duration::minutes(16));
}

#[test]
fn days() {
    let now = Utc::now();
    let parsed = chrono_of(parse_time("7d").unwrap());
    let diff = now - parsed;
    assert!(diff >= Duration::hours(167) && diff <= Duration::hours(169));
}

#[test]
fn seconds() {
    let now = Utc::now();
    let parsed = chrono_of(parse_time("30s").unwrap());
    let diff = now - parsed;
    assert!(diff >= Duration::seconds(29) && diff <= Duration::seconds(31));
}

#[test]
fn verbose_suffixes() {
    assert!(parse_time("1 day").is_ok());
    assert!(parse_time("7 days").is_ok());
    assert!(parse_time("2 hour").is_ok());
    assert!(parse_time("3 hours").is_ok());
    assert!(parse_time("10 minute").is_ok());
    assert!(parse_time("5 minutes").is_ok());
    assert!(parse_time("30 second").is_ok());
    assert!(parse_time("45 seconds").is_ok());
}

#[test]
fn negative_relative_time() {
    // "-1h" means 1 hour in the FUTURE (now - (-1h) = now + 1h)
    let now = Utc::now();
    let parsed = chrono_of(parse_time("-1h").unwrap());
    let diff = parsed - now;
    assert!(diff.num_minutes() >= 59 && diff.num_minutes() <= 61);
}

// -- absolute time --

#[test]
fn datetime() {
    let parsed = chrono_of(parse_time("2024-05-01 10:00").unwrap());
    assert_eq!(parsed.year(), 2024);
    assert_eq!(parsed.month(), 5);
    assert_eq!(parsed.day(), 1);
    assert_eq!(parsed.hour(), 10);
    assert_eq!(parsed.minute(), 0);
}

#[test]
fn with_seconds() {
    let parsed = chrono_of(parse_time("2024-12-25 15:30:45").unwrap());
    assert_eq!(parsed.year(), 2024);
    assert_eq!(parsed.month(), 12);
    assert_eq!(parsed.day(), 25);
    assert_eq!(parsed.hour(), 15);
    assert_eq!(parsed.minute(), 30);
    assert_eq!(parsed.second(), 45);
}

#[test]
fn date_only() {
    let parsed = chrono_of(parse_time("2024-01-15").unwrap());
    assert_eq!(parsed.year(), 2024);
    assert_eq!(parsed.month(), 1);
    assert_eq!(parsed.day(), 15);
    assert_eq!(parsed.hour(), 0);
    assert_eq!(parsed.minute(), 0);
}

#[test]
fn leap_year() {
    let dt = chrono_of(parse_time("2024-02-29").unwrap());
    assert_eq!(dt.month(), 2);
    assert_eq!(dt.day(), 29);
}

#[test]
fn invalid_leap_year() {
    assert_eq!(parse_time("2023-02-29"), Err(TimeError::InvalidDate));
}

#[test]
fn edge_day_month_boundaries() {
    assert_eq!(parse_time("2024-01-32"), Err(TimeError::InvalidDate));
    assert_eq!(parse_time("2024-13-01"), Err(TimeError::InvalidDate));
    assert_eq!(parse_time("2024-04-31"), Err(TimeError::InvalidDate));
}

// -- errors --

#[test]
fn parse_invalid() {
    assert_eq!(parse_time("invalid"), Err(TimeError::InvalidDate));
    assert_eq!(parse_time("2024-13-01 10:00"), Err(TimeError::InvalidDate));
    assert_eq!(parse_time("abc"), Err(TimeError::InvalidDate));
    assert_eq!(parse_time(""), Err(TimeError::EmptyInput));
    assert_eq!(parse_time("  "), Err(TimeError::EmptyInput));
}

#[test]
fn unknown_suffix() {
    assert_eq!(parse_time("1x"), Err(TimeError::InvalidDate));
}

// -- parse_duration --

#[test]
fn parse_duration_days() {
    assert_eq!(delta(parse_duration("7d").unwrap()), Duration::days(7));
    assert_eq!(delta(parse_duration("1 day").unwrap()), Duration::days(1));
    assert_eq!(delta(parse_duration("3 days").unwrap()), Duration::days(3));
}

#[test]
fn parse_duration_hours() {
    assert_eq!(delta(parse_duration("2h").unwrap()), Duration::hours(2));
    assert_eq!(delta(parse_duration("1hr").unwrap()), Duration::hours(1));
    assert_eq!(delta(parse_duration("24 hours").unwrap()), Duration::hours(24));
}

#[test]
fn parse_duration_minutes() {
    assert_eq!(delta(parse_duration("30m").unwrap()), Duration::minutes(30));
    assert_eq!(delta(parse_duration("15min").unwrap()), Duration::minutes(15));
    assert_eq!(delta(parse_duration("1 minute").unwrap()), Duration::minutes(1));
}

#[test]
fn parse_duration_seconds() {
    assert_eq!(delta(parse_duration("30s").unwrap()), Duration::seconds(30));
    assert_eq!(delta(parse_duration("1sec").unwrap()), Duration::seconds(1));
    assert_eq!(delta(parse_duration("45 seconds").unwrap()), Duration::seconds(45));
}

#[test]
fn parse_duration_iso8601() {
    assert_eq!(delta(parse_duration("P7D").unwrap()), Duration::days(7));
    assert_eq!(delta(parse_duration("p7d").unwrap()), Duration::days(7));
    assert_eq!(delta(parse_duration("PT2H").unwrap()), Duration::hours(2));
    assert_eq!(delta(parse_duration("PT30M").unwrap()), Duration::minutes(30));
    assert_eq!(delta(parse_duration("PT45S").unwrap()), Duration::seconds(45));
    assert_eq!(
        delta(parse_duration("P1DT12H").unwrap()),
        Duration::days(1) + Duration::hours(12)
    );
    assert_eq!(
        delta(parse_duration("P1DT2H30M").unwrap()),
        Duration::days(1) + Duration::hours(2) + Duration::minutes(30)
    );
    assert_eq!(
        delta(parse_duration("PT1H30M45S").unwrap()),
        Duration::hours(1) + Duration::minutes(30) + Duration::seconds(45)
    );
}

#[test]
fn parse_duration_errors() {
    assert_eq!(parse_duration("").unwrap_err(), TimeError::EmptyInput);
    assert_eq!(parse_duration("  ").unwrap_err(), TimeError::EmptyInput);
    assert_eq!(parse_duration("abc").unwrap_err(), TimeError::UnknownSuffix);
    assert_eq!(parse_duration("1x").unwrap_err(), TimeError::UnknownSuffix);
    assert_eq!(parse_duration("P").unwrap_err(), TimeError::InvalidNumber);
    assert_eq!(parse_duration("PT").unwrap_err(), TimeError::InvalidNumber);
}

// -- further cases --

#[test]
fn iso_error_cases() {
    // a unit with no number before it
    assert_eq!(parse_duration("PD").unwrap_err(), TimeError::InvalidNumber);
    // hours outside the time part
    assert_eq!(parse_duration("P2H").unwrap_err(), TimeError::InvalidNumber);
    // a number left without a unit
    assert_eq!(parse_duration("P12").unwrap_err(), TimeError::InvalidNumber);
    // a `T` right after a number
    assert_eq!(parse_duration("P1T2H").unwrap_err(), TimeError::InvalidNumber);
    // a letter that is no unit
    assert_eq!(parse_duration("P1W").unwrap_err(), TimeError::UnknownSuffix);
    assert_eq!(parse_duration("P1D X").unwrap_err(), TimeError::UnknownSuffix);
    // a zero total
    assert_eq!(parse_duration("P0D").unwrap_err(), TimeError::InvalidNumber);
    // a number beyond i64
    assert_eq!(
        parse_duration("P99999999999999999999D").unwrap_err(),
        TimeError::InvalidNumber
    );
}

#[test]
fn iso_quirks() {
    // days are accepted in the time part, and units may repeat
    assert_eq!(delta(parse_duration("PT1D").unwrap()), Duration::days(1));
    assert_eq!(delta(parse_duration("P1D1D").unwrap()), Duration::days(2));
    assert_eq!(delta(parse_duration("pt1h1m1s").unwrap()), Duration::seconds(3661));
}

#[test]
fn iso_agrees_with_human() {
    for (iso, human) in [("P3D", "3d"), ("PT4H", "4h"), ("PT5M", "5m"), ("PT6S", "6s")] {
        assert_eq!(parse_duration(iso), parse_duration(human));
    }
}

#[test]
fn human_duration_forms() {
    assert_eq!(delta(parse_duration("-2h").unwrap()), Duration::hours(-2));
    assert_eq!(delta(parse_duration("+3 MIN").unwrap()), Duration::minutes(3));
    assert_eq!(delta(parse_duration("\t5 Seconds\n").unwrap()), Duration::seconds(5));
    assert_eq!(delta(parse_duration("0d").unwrap()), Duration::days(0));
    assert_eq!(parse_duration("5 d s").unwrap_err(), TimeError::UnknownSuffix);
    assert_eq!(parse_duration("1.5h").unwrap_err(), TimeError::UnknownSuffix);
    assert_eq!(parse_duration("--1h").unwrap_err(), TimeError::UnknownSuffix);
    assert_eq!(
        delta(parse_duration("9223372036854775s").unwrap()),
        Duration::seconds(9_223_372_036_854_775)
    );
}

#[test]
fn surrounding_whitespace_is_ignored() {
    let now = utc(Utc.with_ymd_and_hms(2024, 6, 1, 12, 0, 0).unwrap());
    assert_eq!(parse_duration(" \u{3000}PT2H\u{2003} "), parse_duration("PT2H"));
    assert_eq!(parse_time_at(now, "\n 3h \t"), parse_time_at(now, "3h"));
    assert_eq!(
        parse_time_at(now, " 2024-05-01 "),
        parse_time_at(now, "2024-05-01")
    );
}

#[test]
fn relative_time_is_duration_before_now() {
    let now = utc(Utc.with_ymd_and_hms(2024, 6, 1, 12, 0, 0).unwrap());
    for s in ["7d", "2 hours", "-1h", "30min", "45 seconds"] {
        let d = parse_duration(s).unwrap();
        let t = parse_time_at(now, s).unwrap();
        assert_eq!(t.timestamp(), now.timestamp() - d.num_seconds());
        assert_eq!(t.timestamp_subsec_nanos(), now.timestamp_subsec_nanos());
    }
    // the future for a negative duration
    assert!(parse_time_at(now, "-1h").unwrap().timestamp() > now.timestamp());
}

#[test]
fn absolute_times_are_utc() {
    let now = utc(Utc.with_ymd_and_hms(2024, 6, 1, 12, 0, 0).unwrap());
    let t = parse_time_at(now, "2024-05-01 10:30:45").unwrap();
    assert_eq!(chrono_of(t), Utc.with_ymd_and_hms(2024, 5, 1, 10, 30, 45).unwrap());
    let t = parse_time_at(now, "2024-05-01").unwrap();
    assert_eq!(t.timestamp(), 1_714_521_600);
    // the ISO duration form is no time
    assert_eq!(parse_time_at(now, "P7D"), Err(TimeError::InvalidDate));
}

#[test]
fn instants() {
    assert!(UtcTime::from_timestamp(0, 0).is_some());
    assert!(UtcTime::from_timestamp(59, 1_500_000_000).is_some());
    assert!(UtcTime::from_timestamp(58, 1_500_000_000).is_none());
    assert!(UtcTime::from_timestamp(-1, 1_000_000_000).is_some());
    assert!(UtcTime::from_timestamp(0, 2_000_000_000).is_none());
    assert!(UtcTime::from_timestamp(-8_334_601_228_800, 0).is_some());
    assert!(UtcTime::from_timestamp(-8_334_601_228_801, 0).is_none());
    assert!(UtcTime::from_timestamp(8_210_266_876_799, 999_999_999).is_some());
    assert!(UtcTime::from_timestamp(8_210_266_876_800, 0).is_none());
    for (secs, nanos) in [(0i64, 0u32), (59, 1_500_000_000), (-1, 1_000_000_000), (1_714_521_600, 7)] {
        assert_eq!(
            UtcTime::from_timestamp(secs, nanos).is_some(),
            DateTime::from_timestamp(secs, nanos).is_some()
        );
    }
}

#[test]
fn durations_ignore_ascii_case() {
    for (a, b) in [("7D", "7d"), ("2 HOURS", "2 hours"), ("P1DT2H", "p1dt2h"), ("15 Min", "15 min")] {
        assert_eq!(parse_duration(a), parse_duration(b));
    }
    assert_eq!(parse_duration("1X"), parse_duration("1x"));
}

#[test]
fn iso_parts_add_up() {
    assert_eq!(parse_duration("P2DT3M").unwrap().num_seconds(), 2 * 86_400 + 3 * 60);
    assert_eq!(parse_duration("P0DT5S").unwrap().num_seconds(), 5);
    assert_eq!(parse_duration("P10DT1H").unwrap().num_seconds(), 10 * 86_400 + 3_600);
}

#[test]
fn out_of_range_amounts_are_errors() {
    assert_eq!(parse_duration("9999999999999999d"), Err(TimeError::InvalidNumber));
    assert_eq!(parse_duration("P999999999999999D"), Err(TimeError::InvalidNumber));
    assert_eq!(parse_duration("9223372036854776s"), Err(TimeError::InvalidNumber));
    assert_eq!(parse_time("99999999999999999s"), Err(TimeError::InvalidNumber));
    // counted back from today, this leaves the representable range
    assert_eq!(parse_time("100000000d"), Err(TimeError::InvalidDate));
    let now = utc(Utc.with_ymd_and_hms(2024, 6, 1, 12, 0, 0).unwrap());
    assert_eq!(parse_time_at(now, "9999999999999999d"), Err(TimeError::InvalidNumber));
}

#[test]
fn bare_zero_is_now() {
    let now = utc(Utc.with_ymd_and_hms(2024, 6, 1, 12, 0, 0).unwrap());
    assert_eq!(parse_time_at(now, "0"), Ok(now));
    assert_eq!(parse_time_at(now, " +0 "), Ok(now));
    assert_eq!(parse_time_at(now, "-00"), Ok(now));
    assert_eq!(parse_time_at(now, "1"), Err(TimeError::InvalidDate));
    let before = Utc::now();
    let t = chrono_of(parse_time("0").unwrap());
    assert!(t >= before && t - before <= Duration::seconds(5));
}

#[test]
fn reads_as_trimmed_and_in_any_case() {
    for s in ["  7 Days ", "\tpt1h30m\n", " 45 SECONDS"] {
        assert_eq!(parse_duration(s), parse_duration(s.trim()));
        assert_eq!(parse_duration(s), parse_duration(&s.to_ascii_uppercase()));
        assert_eq!(parse_duration(s), parse_duration(&s.to_ascii_lowercase()));
    }
}

#[test]
fn iso_date_and_time_parts_add() {
    let d1 = parse_duration("P1D").unwrap().num_seconds();
    let d2 = parse_duration("PT12H").unwrap().num_seconds();
    assert_eq!(parse_duration("P1DT12H").unwrap().num_seconds(), d1 + d2);
    let d1 = parse_duration("P2D3D").unwrap().num_seconds();
    let d2 = parse_duration("PT4M5S").unwrap().num_seconds();
    assert_eq!(parse_duration("P2D3DT4M5S").unwrap().num_seconds(), d1 + d2);
}

#[test]
fn iso_grammar_cases() {
    // tokens in any order, `T` may repeat
    assert_eq!(parse_duration("PT1HT2M").unwrap().num_seconds(), 3_720);
    assert_eq!(parse_duration("P1DT").unwrap().num_seconds(), 86_400);
    // H, M, S before any T, and a dangling number, are no tokens
    assert_eq!(parse_duration("P1M"), Err(TimeError::InvalidNumber));
    assert_eq!(parse_duration("PT1H2"), Err(TimeError::InvalidNumber));
    // letters other than T and units give UnknownSuffix
    assert_eq!(parse_duration("P1Y"), Err(TimeError::UnknownSuffix));
    assert_eq!(parse_duration("P1.5D"), Err(TimeError::UnknownSuffix));
}

#[test]
fn iso_date_part_with_trailing_space_does_not_join() {
    assert_eq!(parse_duration("P1D ").unwrap().num_seconds(), 86_400);
    assert_eq!(parse_duration("PT1H").unwrap().num_seconds(), 3_600);
    assert_eq!(parse_duration("P1D T1H"), Err(TimeError::UnknownSuffix));
    assert_eq!(parse_duration("P1DT1H ").unwrap().num_seconds(), 90_000);
}
