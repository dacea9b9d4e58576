use chrono::{DateTime, TimeZone, Utc};
use timefilter::prelude::{
    format_datetime, parse_duration, parse_time, parse_time_filter, TimeError, TimeFilter, TimeOp,
    UtcTime,
};

fn utc(dt: DateTime<Utc>) -> UtcTime {
    UtcTime::from_timestamp(dt.timestamp(), dt.timestamp_subsec_nanos()).unwrap()
}

// -- TimeOp --

#[test]
fn all_variants() {
    assert_eq!(TimeOp::ALL.len(), 5);
}

#[test]
fn applies() {
    let t1: UtcTime = utc(Utc.with_ymd_and_hms(2024, 6, 1, 0, 0, 0).unwrap());
    let t2: UtcTime = utc(Utc.with_ymd_and_hms(2024, 5, 1, 0, 0, 0).unwrap());
    assert!(TimeOp::Gt.applies(t1, t2));
    assert!(!TimeOp::Gt.applies(t2, t1));
    assert!(TimeOp::Ge.applies(t1, t1));
    assert!(TimeOp::Eq.applies(t1, t1));
}

#[test]
fn time_display() {
    assert_eq!(TimeOp::Gt.to_string(), ">");
    assert_eq!(TimeOp::Ge.to_string(), ">=");
    assert_eq!(TimeOp::Lt.to_string(), "<");
    assert_eq!(TimeOp::Le.to_string(), "<=");
    assert_eq!(TimeOp::Eq.to_string(), "=");
}

// -- error types --

#[test]
fn error_display() {
    assert_eq!(TimeError::EmptyInput.to_string(), "empty input");
    assert_eq!(
        TimeError::InvalidDate.to_string(),
        "failed to parse date/time"
    );
    assert_eq!(TimeError::UnknownSuffix.to_string(), "unknown time suffix");
    assert_eq!(
        TimeError::InvalidNumber.to_string(),
        "failed to parse number"
    );
    assert!(
        TimeError::MissingOperator
            .to_string()
            .contains("time filter must start")
    );
}

// -- send/sync --

#[test]
fn traits() {
    fn assert_send<T: Send>() {}
    fn assert_sync<T: Sync>() {}
    assert_send::<TimeFilter>();
    assert_sync::<TimeFilter>();
    assert_send::<TimeOp>();
    assert_sync::<TimeOp>();
}

// -- operator laws on concrete instants --

#[test]
fn operator_order_laws() {
    let a = UtcTime::from_timestamp(100, 5).unwrap();
    let b = UtcTime::from_timestamp(100, 6).unwrap();
    let c = UtcTime::from_timestamp(101, 0).unwrap();
    for (x, y) in [(a, b), (b, a), (a, a), (b, c), (c, a)] {
        assert_eq!(TimeOp::Gt.applies(x, y), TimeOp::Lt.applies(y, x));
        assert_eq!(TimeOp::Ge.applies(x, y), TimeOp::Le.applies(y, x));
        assert_eq!(TimeOp::Ge.applies(x, y), !TimeOp::Lt.applies(x, y));
        let count = [TimeOp::Lt, TimeOp::Eq, TimeOp::Gt]
            .iter()
            .filter(|op| op.applies(x, y))
            .count();
        assert_eq!(count, 1);
    }
    assert!(TimeOp::Lt.applies(a, b) && TimeOp::Lt.applies(b, c) && TimeOp::Lt.applies(a, c));
}

#[test]
fn applies_matches_chrono_order() {
    let x = Utc.with_ymd_and_hms(2024, 6, 1, 0, 0, 0).unwrap();
    let y = Utc.with_ymd_and_hms(1969, 12, 31, 23, 59, 59).unwrap();
    for (p, q) in [(x, y), (y, x), (x, x)] {
        assert_eq!(TimeOp::Gt.applies(utc(p), utc(q)), p > q);
        assert_eq!(TimeOp::Le.applies(utc(p), utc(q)), p <= q);
        assert_eq!(TimeOp::Eq.applies(utc(p), utc(q)), p == q);
    }
}

#[test]
fn every_error_message() {
    assert_eq!(
        TimeError::MissingOperator.to_string(),
        "time filter must start with an operator (>=, >, <=, <, =)"
    );
}
