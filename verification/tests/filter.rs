use chrono::{DateTime, Datelike, TimeZone, Timelike, Utc};
use timefilter::prelude::{
    format_datetime, parse_duration, parse_time, parse_time_filter, TimeError, TimeFilter, TimeOp,
    UtcTime,
};
use timefilter::{parse_time_filter_at, TimeFilter as Filter};

fn utc(dt: DateTime<Utc>) -> UtcTime {
    UtcTime::from_timestamp(dt.timestamp(), dt.timestamp_subsec_nanos()).unwrap()
}

fn chrono_of(t: UtcTime) -> DateTime<Utc> {
    DateTime::from_timestamp(t.timestamp(), t.timestamp_subsec_nanos()).unwrap()
}

// -- TimeFilter type --

#[test]
fn from_str() {
    let f: TimeFilter = ">=7d".parse().unwrap();
    assert_eq!(f.op(), TimeOp::Ge);
}

#[test]
fn filter_display() {
    let dt = utc(Utc.with_ymd_and_hms(2024, 5, 1, 10, 30, 45).unwrap());
    let f = TimeFilter::gt(dt);
    let s = f.to_string();
    assert!(s.starts_with('>'));
    assert!(s.contains("2024"));
}

#[test]
fn convenience_ctors() {
    let now = utc(Utc::now());
    assert_eq!(TimeFilter::gt(now).op(), TimeOp::Gt);
    assert_eq!(TimeFilter::ge(now).op(), TimeOp::Ge);
    assert_eq!(TimeFilter::lt(now).op(), TimeOp::Lt);
    assert_eq!(TimeFilter::le(now).op(), TimeOp::Le);
    assert_eq!(TimeFilter::eq(now).op(), TimeOp::Eq);
}

#[test]
fn roundtrip_absolute() {
    let dt: UtcTime = parse_time("2024-06-15 08:30").unwrap();
    let f = TimeFilter::ge(dt);
    let s = f.to_string();
    assert!(s.starts_with(">="), "starts with >=: {}", s);
    assert!(s.contains("2024-06-15"), "contains date: {}", s);
    assert!(s.contains(":"), "contains time: {}", s);
}

// -- parse_time_filter --

#[test]
fn parse_gt() {
    let f = parse_time_filter(">1h").unwrap();
    assert_eq!(f.op(), TimeOp::Gt);
}

#[test]
fn parse_ge() {
    let f = parse_time_filter(">=7d").unwrap();
    assert_eq!(f.op(), TimeOp::Ge);
}

#[test]
fn parse_lt() {
    let f = parse_time_filter("<2026-05-01").unwrap();
    assert_eq!(f.op(), TimeOp::Lt);
    let time = chrono_of(f.time());
    assert_eq!(time.year(), 2026);
    assert_eq!(time.month(), 5);
    assert_eq!(time.day(), 1);
}

#[test]
fn parse_le() {
    let f = parse_time_filter("<=30m").unwrap();
    assert_eq!(f.op(), TimeOp::Le);
}

#[test]
fn parse_eq() {
    let f = parse_time_filter("=2026-05-01 10:00").unwrap();
    assert_eq!(f.op(), TimeOp::Eq);
    let time = chrono_of(f.time());
    assert_eq!(time.year(), 2026);
    assert_eq!(time.month(), 5);
    assert_eq!(time.day(), 1);
    assert_eq!(time.hour(), 10);
}

#[test]
fn no_operator_errors() {
    assert_eq!(parse_time_filter("1h"), Err(TimeError::MissingOperator));
    assert_eq!(parse_time_filter("30d"), Err(TimeError::MissingOperator));
    assert_eq!(
        parse_time_filter("2026-05-01"),
        Err(TimeError::MissingOperator)
    );
}

#[test]
fn filter_invalid() {
    assert_eq!(parse_time_filter(">abc"), Err(TimeError::InvalidDate));
}

#[test]
fn empty_after_operator() {
    assert_eq!(parse_time_filter(">="), Err(TimeError::EmptyInput));
    assert_eq!(parse_time_filter("<"), Err(TimeError::EmptyInput));
    assert_eq!(parse_time_filter(">"), Err(TimeError::EmptyInput));
    assert_eq!(parse_time_filter("<="), Err(TimeError::EmptyInput));
}

// -- filters against a fixed present --

#[test]
fn filter_at_fixed_now() {
    let now = utc(Utc.with_ymd_and_hms(2024, 6, 1, 12, 0, 0).unwrap());
    let f = parse_time_filter_at(now, "  >= 2h  ").unwrap();
    assert_eq!(f.op(), TimeOp::Ge);
    assert_eq!(f.time().timestamp(), now.timestamp() - 7200);
    assert_eq!(f.time().timestamp_subsec_nanos(), 0);
    assert_eq!(parse_time_filter_at(now, "7d"), Err(TimeError::MissingOperator));
    assert_eq!(parse_time_filter_at(now, " <= "), Err(TimeError::EmptyInput));
}

#[test]
fn operator_is_longest_prefix() {
    let now = utc(Utc.with_ymd_and_hms(2024, 6, 1, 12, 0, 0).unwrap());
    assert_eq!(parse_time_filter_at(now, "<=1h").unwrap().op(), TimeOp::Le);
    assert_eq!(parse_time_filter_at(now, "< 1h").unwrap().op(), TimeOp::Lt);
    // "> =1h": the operator is ">" and "=1h" is no time
    assert_eq!(parse_time_filter_at(now, "> =1h"), Err(TimeError::InvalidDate));
}

#[test]
fn matches_follows_operator() {
    let start = parse_time("2024-06-01").unwrap();
    let end = parse_time("2024-06-30").unwrap();
    let mid = parse_time("2024-06-15").unwrap();
    let f = TimeFilter::ge(start);
    assert!(f.matches(mid));
    assert!(f.matches(end));
    assert!(f.matches(start));
    assert!(!f.matches(parse_time("2024-05-31").unwrap()));
    assert!(!TimeFilter::gt(start).matches(start));
    assert!(TimeFilter::le(mid).matches(start));
    assert!(TimeFilter::eq(mid).matches(mid));
    assert!(!TimeFilter::eq(mid).matches(end));
    let g = Filter::new(TimeOp::Lt, end);
    assert_eq!(g.op(), TimeOp::Lt);
    assert_eq!(g.time(), end);
    assert!(g.matches(mid));
}

#[test]
fn utc_text_reads_back() {
    let t = utc(Utc.with_ymd_and_hms(2024, 5, 1, 10, 0, 0).unwrap());
    for op in TimeOp::ALL {
        let f = TimeFilter::new(op, t);
        let text = f.to_utc_string();
        assert_eq!(text, format!("{}2024-05-01 10:00:00", op.to_string()));
        let back: TimeFilter = text.parse().unwrap();
        assert_eq!(back, f);
    }
}

#[test]
fn utc_text_reads_back_whole_second() {
    for (secs, nanos) in [
        (1_714_557_600i64, 123_456_789u32),
        (-62_167_219_200, 999_999_999),
        (253_402_300_799, 1),
        (0, 0),
    ] {
        let t = UtcTime::from_timestamp(secs, nanos).unwrap();
        let whole = UtcTime::from_timestamp(secs, 0).unwrap();
        for op in TimeOp::ALL {
            let text = TimeFilter::new(op, t).to_utc_string();
            assert_eq!(text.len(), op.to_string().len() + 19);
            let back: TimeFilter = text.parse().unwrap();
            assert_eq!(back, TimeFilter::new(op, whole));
        }
    }
}

#[test]
fn utc_text_of_years_outside_four_digits() {
    let before = UtcTime::from_timestamp(-62_167_219_201, 0).unwrap();
    assert_eq!(TimeFilter::new(TimeOp::Eq, before).to_utc_string(), "=-0001-12-31 23:59:59");
    let after = UtcTime::from_timestamp(253_402_300_800, 0).unwrap();
    assert_eq!(TimeFilter::new(TimeOp::Lt, after).to_utc_string(), "<+10000-01-01 00:00:00");
}

#[test]
fn out_of_range_duration_in_filter() {
    let r: Result<TimeFilter, TimeError> = ">99999999999999d".parse();
    assert_eq!(r, Err(TimeError::InvalidNumber));
    let r: Result<TimeFilter, TimeError> = "nothing".parse();
    assert_eq!(r, Err(TimeError::MissingOperator));
}

#[test]
fn quick_start() {
    let dt = parse_time("2024-05-01 10:00").unwrap();
    let f: TimeFilter = ">=2024-05-01 09:00".parse().unwrap();
    assert_eq!(f.op(), TimeOp::Ge);
    assert!(f.matches(dt));
    let dt = chrono_of(parse_time("2h").unwrap());
    let age = Utc::now() - dt;
    assert!(age.num_hours() >= 1 && age.num_hours() <= 3);
    let f: TimeFilter = ">=7d".parse().unwrap();
    assert!(f.to_string().starts_with('>'));
    assert_eq!(parse_duration("7d").unwrap().num_seconds(), 7 * 86_400);
}

#[test]
fn applies_doc_example() {
    let t1 = parse_time("2024-06-15").unwrap();
    let t2 = parse_time("2024-05-01").unwrap();
    assert!(TimeOp::Gt.applies(t1, t2));
    assert!(!TimeOp::Lt.applies(t1, t2));
    assert!(TimeOp::Eq.applies(t1, t1));
}

#[test]
fn equal_to_now() {
    let before = Utc::now();
    let f = parse_time_filter("=0").unwrap();
    assert_eq!(f.op(), TimeOp::Eq);
    let t = chrono_of(f.time());
    assert!(t >= before && t - before <= chrono::Duration::seconds(5));
}

#[test]
fn operators_order_and_filters_hash() {
    assert!(TimeOp::Gt < TimeOp::Ge && TimeOp::Ge < TimeOp::Lt);
    assert!(TimeOp::Le < TimeOp::Eq);
    let mut ops = TimeOp::ALL.to_vec();
    ops.sort();
    assert_eq!(ops, TimeOp::ALL.to_vec());
    let t = utc(Utc.with_ymd_and_hms(2024, 6, 1, 0, 0, 0).unwrap());
    let set: std::collections::HashSet<TimeFilter> =
        [TimeFilter::ge(t), TimeFilter::ge(t), TimeFilter::lt(t)].into_iter().collect();
    assert_eq!(set.len(), 2);
}

#[test]
fn display_is_symbol_then_local_text() {
    let t = utc(Utc.with_ymd_and_hms(2024, 5, 1, 10, 30, 45).unwrap());
    for op in TimeOp::ALL {
        let f = TimeFilter::new(op, t);
        assert_eq!(f.to_string(), format!("{}{}", op.to_string(), format_datetime(&t)));
    }
}
