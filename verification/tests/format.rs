use chrono::{DateTime, TimeZone, Utc};
use timefilter::prelude::{
    format_datetime, parse_duration, parse_time, parse_time_filter, TimeError, TimeFilter, TimeOp,
    UtcTime,
};

fn utc(dt: DateTime<Utc>) -> UtcTime {
    UtcTime::from_timestamp(dt.timestamp(), dt.timestamp_subsec_nanos()).unwrap()
}

#[test]
fn contains_year() {
    let dt = utc(Utc.with_ymd_and_hms(2024, 5, 1, 10, 30, 45).unwrap());
    let s = format_datetime(&dt);
    assert!(!s.is_empty());
    assert!(s.contains("2024"));
}

#[test]
fn various_times() {
    let dt: UtcTime = parse_time("2024-01-01").unwrap();
    let s = format_datetime(&dt);
    assert!(s.contains("2024"), "contains year: {}", s);
    assert!(s.contains("01"), "contains month/day: {}", s);
    assert!(s.contains(":"), "contains time separator: {}", s);
}

#[test]
fn local_text_matches_chrono() {
    let dt = Utc.with_ymd_and_hms(2024, 5, 1, 10, 30, 45).unwrap();
    let expected = dt
        .with_timezone(&chrono::Local)
        .format("%Y-%m-%d %H:%M:%S")
        .to_string();
    assert_eq!(format_datetime(&utc(dt)), expected);
    let f = TimeFilter::lt(utc(dt));
    assert_eq!(f.to_string(), format!("<{}", expected));
}

#[test]
fn local_text_shape() {
    for secs in [0i64, 1_714_570_245, -62_135_596_800 + 86_400 * 400, 253_402_300_799 + 86_400 * 400] {
        let s: Vec<char> = format_datetime(&UtcTime::from_timestamp(secs, 0).unwrap()).chars().collect();
        let n = s.len();
        assert!(n >= 19);
        assert_eq!(s[n - 15], '-');
        assert_eq!(s[n - 12], '-');
        assert_eq!(s[n - 9], ' ');
        assert_eq!(s[n - 6], ':');
        assert_eq!(s[n - 3], ':');
        for k in [1, 2, 4, 5, 7, 8, 10, 11, 13, 14] {
            assert!(s[n - 15 + k].is_ascii_digit());
        }
        let year = &s[..n - 15];
        if year[0] == '+' || year[0] == '-' {
            assert!(year.len() >= 5 && year[1..].iter().all(|c| c.is_ascii_digit()));
        } else {
            assert_eq!(n, 19);
            assert!(year.len() == 4 && year.iter().all(|c| c.is_ascii_digit()));
        }
    }
}
