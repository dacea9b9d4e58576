//! `UtcTime`: an instant in UTC, held as a Unix timestamp, and the calls into
//! `chrono` that read the clock, do calendar arithmetic, parse dates and
//! format them.

use vstd::prelude::*;
use crate::duration::in_delta_range;
use crate::text::{all_digits, is_ascii_digit};

verus! {

/// Timestamp of the earliest representable instant, -262143-01-01 00:00:00 UTC.
pub const MIN_TIMESTAMP: i64 = -8_334_601_228_800;

/// Timestamp of the last second of the latest representable day,
/// +262142-12-31 23:59:59 UTC.
pub const MAX_TIMESTAMP: i64 = 8_210_266_876_799;

/// Nanoseconds in one second.
pub const NANOS_PER_SEC: u32 = 1_000_000_000;

/// A timestamp that lies in the representable range.
pub open spec fn timestamp_in_range(secs: int) -> bool {
    MIN_TIMESTAMP <= secs <= MAX_TIMESTAMP
}

/// A valid instant: a representable second, and a sub-second part that may
/// reach into a second second only for a leap second (the last second of a
/// minute).
pub open spec fn valid_instant(secs: int, nanos: int) -> bool {
    &&& timestamp_in_range(secs)
    &&& 0 <= nanos < 2 * NANOS_PER_SEC
    &&& nanos >= NANOS_PER_SEC ==> secs % 60 == 59
}

/// An instant in UTC: seconds since 1970-01-01 00:00:00 UTC, and nanoseconds
/// past that second. Its view is the pair `(seconds, nanoseconds)`.
///
/// Instants are ordered by seconds, then nanoseconds.
#[derive(Debug, Clone, Copy, PartialEq, Eq, Hash)]
pub struct UtcTime {
    secs: i64,
    nanos: u32,
}

impl View for UtcTime {
    type V = (i64, u32);

    closed spec fn view(&self) -> (i64, u32) {
        (self.secs, self.nanos)
    }
}

/// `a` is strictly earlier than `b`.
pub open spec fn instant_lt(a: (i64, u32), b: (i64, u32)) -> bool {
    a.0 < b.0 || (a.0 == b.0 && a.1 < b.1)
}

impl UtcTime {
    #[verifier::type_invariant]
    closed spec fn inv(self) -> bool {
        valid_instant(self.secs as int, self.nanos as int)
    }

    /// The instant `secs` seconds and `nanos` nanoseconds after the Unix
    /// epoch, or `None` when that is not a valid instant.
    pub fn from_timestamp(secs: i64, nanos: u32) -> (r: Option<UtcTime>)
        ensures
            r is Some <==> valid_instant(secs as int, nanos as int),
            r matches Some(t) ==> t@ == (secs, nanos),
    {
        if secs < MIN_TIMESTAMP || secs > MAX_TIMESTAMP || nanos >= 2 * NANOS_PER_SEC {
            return None;
        }
        if nanos >= NANOS_PER_SEC {
            let offset = (secs - MIN_TIMESTAMP) as u64;
            assert(offset % 60 == secs % 60) by {
                assert(MIN_TIMESTAMP == -60 * 138_910_020_480int);
            }
            if offset % 60 != 59 {
                return None;
            }
        }
        Some(UtcTime { secs, nanos })
    }

    /// Builds an instant from parts already known to be valid.
    pub(crate) fn from_valid(secs: i64, nanos: u32) -> (t: UtcTime)
        requires
            valid_instant(secs as int, nanos as int),
        ensures
            t@ == (secs, nanos),
    {
        UtcTime { secs, nanos }
    }

    /// Seconds since the Unix epoch.
    pub fn timestamp(&self) -> (r: i64)
        ensures
            r == self@.0,
    {
        self.secs
    }

    /// Nanoseconds past the second; at least one second only in a leap second.
    pub fn timestamp_subsec_nanos(&self) -> (r: u32)
        ensures
            r == self@.1,
    {
        self.nanos
    }

    /// This instant moved `d` seconds back, or `None` when that leaves the
    /// representable range.
    pub(crate) fn minus_seconds(self, d: i64) -> (r: Option<UtcTime>)
        requires
            self@.1 < NANOS_PER_SEC,
            in_delta_range(d as int),
        ensures
            r is Some <==> timestamp_in_range(self@.0 - d),
            r matches Some(t) ==> t@ == ((self@.0 - d) as i64, self@.1),
    {
        proof {
            use_type_invariant(&self);
        }
        checked_sub_seconds(self, d)
    }
}

// ── calls into chrono ────────────────────────────────────────────────────────

/// `chrono::Utc::now`, the system clock.
///
/// Claimed: the instant is valid, at or after the Unix epoch, and no leap
/// second (chrono builds it from the time elapsed since the epoch, and panics
/// when the clock is set before it). Nothing else is said: the value is the
/// clock's.
#[verifier::external_body]
pub(crate) fn utc_now() -> (t: UtcTime)
    ensures
        valid_instant(t@.0 as int, t@.1 as int),
        t@.0 >= 0,
        t@.1 < NANOS_PER_SEC,
{
    let now = chrono::Utc::now();
    UtcTime { secs: now.timestamp(), nanos: now.timestamp_subsec_nanos() }
}

/// `chrono::DateTime::<Utc>::checked_sub_signed` with a whole number of seconds.
///
/// Claimed: for an instant that is no leap second, moving back by `d` seconds
/// keeps the sub-second part and subtracts `d` from the timestamp; the result
/// is `None` exactly when that timestamp leaves the representable range.
#[verifier::external_body]
fn checked_sub_seconds(t: UtcTime, d: i64) -> (r: Option<UtcTime>)
    requires
        valid_instant(t@.0 as int, t@.1 as int),
        t@.1 < NANOS_PER_SEC,
        in_delta_range(d as int),
    ensures
        r is Some <==> timestamp_in_range(t@.0 - d),
        r matches Some(x) ==> x@ == ((t@.0 - d) as i64, t@.1),
{
    let dt = chrono::DateTime::from_timestamp(t.secs, t.nanos).unwrap();
    match dt.checked_sub_signed(chrono::TimeDelta::seconds(d)) {
        Some(x) => Some(UtcTime { secs: x.timestamp(), nanos: x.timestamp_subsec_nanos() }),
        None => None,
    }
}

/// What `chrono::NaiveDateTime::parse_from_str(s, fmt)` gives, read as UTC:
/// the timestamp and nanoseconds of the parsed date and time, or `None` when
/// `s` does not match `fmt`.
pub uninterp spec fn naive_datetime_parse(s: Seq<char>, fmt: Seq<char>) -> Option<(i64, u32)>;

/// `chrono::NaiveDateTime::parse_from_str`, then
/// `chrono::DateTime::from_naive_utc_and_offset` with `Utc`.
///
/// Claimed: the result is the name `naive_datetime_parse` of the arguments,
/// and a parsed value is a valid instant (every chrono date and time is).
#[verifier::external_body]
pub(crate) fn parse_naive_datetime(s: &str, fmt: &str) -> (r: Option<(i64, u32)>)
    ensures
        r == naive_datetime_parse(s@, fmt@),
        r matches Some(t) ==> valid_instant(t.0 as int, t.1 as int),
{
    match chrono::NaiveDateTime::parse_from_str(s, fmt) {
        Ok(naive) => {
            let dt = chrono::DateTime::<chrono::Utc>::from_naive_utc_and_offset(naive, chrono::Utc);
            Some((dt.timestamp(), dt.timestamp_subsec_nanos()))
        },
        Err(_) => None,
    }
}

/// What `chrono::NaiveDate::parse_from_str(s, fmt)` gives: the timestamp of
/// the parsed day's midnight in UTC, or `None` when `s` does not match `fmt`.
pub uninterp spec fn naive_date_parse(s: Seq<char>, fmt: Seq<char>) -> Option<i64>;

/// `chrono::NaiveDate::parse_from_str`, taken at midnight in UTC.
///
/// Claimed: the result is the name `naive_date_parse` of the arguments, and
/// a parsed day's midnight is a representable whole day.
#[verifier::external_body]
pub(crate) fn parse_naive_date(s: &str, fmt: &str) -> (r: Option<i64>)
    ensures
        r == naive_date_parse(s@, fmt@),
        r matches Some(m) ==> timestamp_in_range(m as int) && timestamp_in_range(m + 86_399) && m
            % 86_400 == 0,
{
    match chrono::NaiveDate::parse_from_str(s, fmt) {
        Ok(date) => Some(date.and_time(chrono::NaiveTime::MIN).and_utc().timestamp()),
        Err(_) => None,
    }
}

/// The text in which instants are written: date, then time to the second.
pub open spec fn datetime_format() -> Seq<char> {
    "%Y-%m-%d %H:%M:%S"@
}

/// What `chrono::DateTime::<Utc>::format(fmt)` writes for the instant
/// `(secs, nanos)`, in UTC.
pub uninterp spec fn utc_format(secs: i64, nanos: u32, fmt: Seq<char>) -> Seq<char>;

/// `chrono::DateTime::<Utc>::format` with the format `%Y-%m-%d %H:%M:%S`,
/// written out to a `String`.
///
/// Claimed: the text is the name `utc_format` of the instant and the format;
/// it has the shape `is_datetime_text` (`%Y` is four digits for the years 0 to
/// 9999 and a sign with four or more digits for the others, `%m`, `%d`, `%H`,
/// `%M`, `%S` two zero-padded digits each), so it is 19 characters long
/// exactly when the year is one of 0 to 9999; and for such a year and an
/// instant that is no leap second, `NaiveDateTime::parse_from_str` with the
/// same format reads the text back as the instant's whole second (it reads
/// `%Y` as a year of up to four digits, the other fields as two digits, and
/// sets no sub-second part). (Only this format is admitted: chrono fails to
/// write a format that holds an unknown specifier, and `to_string` then
/// panics.)
#[verifier::external_body]
pub(crate) fn format_utc(t: UtcTime, fmt: &str) -> (r: String)
    requires
        fmt@ == datetime_format(),
    ensures
        r@ == utc_format(t@.0, t@.1, fmt@),
        is_datetime_text(r@),
        r@.len() == 19 <==> four_digit_year(t@.0 as int),
        (four_digit_year(t@.0 as int) && t@.1 < NANOS_PER_SEC) ==> naive_datetime_parse(r@, fmt@)
            == Some((t@.0, 0u32)),
{
    chrono::DateTime::from_timestamp(t.secs, t.nanos).unwrap().format(fmt).to_string()
}

/// Timestamp of the first second of the year 0, 0000-01-01 00:00:00 UTC.
pub const YEAR_0_START: i64 = -62_167_219_200;

/// Timestamp of the last second of the year 9999, 9999-12-31 23:59:59 UTC.
pub const YEAR_9999_END: i64 = 253_402_300_799;

/// The second `secs` falls in one of the years 0 to 9999, whose numbers
/// `%Y` writes with exactly four digits and no sign.
pub open spec fn four_digit_year(secs: int) -> bool {
    YEAR_0_START <= secs <= YEAR_9999_END
}

/// The text of a year as chrono's `%Y` writes it: exactly four digits for
/// the years 0 to 9999, and otherwise a sign and four or more digits.
pub open spec fn is_year_text(y: Seq<char>) -> bool {
    ||| y.len() == 4 && all_digits(y)
    ||| y.len() >= 5 && (y[0] == '+' || y[0] == '-') && all_digits(y.drop_first())
}

/// A text of the shape `%Y-%m-%d %H:%M:%S`: a year, then `-MM-DD hh:mm:ss`
/// with each field two decimal digits.
pub open spec fn is_datetime_text(t: Seq<char>) -> bool {
    let n = t.len();
    &&& n >= 19
    &&& is_year_text(t.take(n - 15))
    &&& t[n - 15] == '-'
    &&& t[n - 12] == '-'
    &&& t[n - 9] == ' '
    &&& t[n - 6] == ':'
    &&& t[n - 3] == ':'
    &&& forall|k: int|
        0 <= k < 15 && k != 0 && k != 3 && k != 6 && k != 9 && k != 12 ==> is_ascii_digit(
            #[trigger] t[n - 15 + k],
        )
}

/// `x` is the text of the instant `t` in some time zone: the instant moved by
/// an offset of less than a day (the local time), written as `utc_format`
/// writes it with `%Y-%m-%d %H:%M:%S`, wherever the moved instant is
/// representable and `t` is no leap second; in any case of the shape
/// `is_datetime_text`, and 19 characters long exactly when the local year is
/// one of 0 to 9999.
pub open spec fn local_datetime_text(t: (i64, u32), x: Seq<char>) -> bool {
    &&& is_datetime_text(x)
    &&& exists|local: i64|
        {
            &&& -86_400 < local - t.0 < 86_400
            &&& x.len() == 19 <==> four_digit_year(local as int)
            &&& (t.1 < NANOS_PER_SEC && timestamp_in_range(local as int)) ==> x == utc_format(
                local,
                t.1,
                datetime_format(),
            )
        }
}

/// `chrono::DateTime::with_timezone(&Local)`, then `format` with the format
/// `%Y-%m-%d %H:%M:%S`, written out to a `String`.
///
/// Claimed: `local_datetime_text` of the instant. chrono writes the local
/// date and time, that is the UTC instant moved by the local offset (a
/// `FixedOffset`, less than a day either way), and this format writes no
/// offset; `%Y` is exactly four digits for the local years 0 to 9999 and a
/// sign with four or more digits for the others, and `%m`, `%d`, `%H`, `%M`,
/// `%S` are two zero-padded digits. Which offset applies is not claimed: that
/// depends on the machine's time zone. (Only this format is admitted: chrono
/// fails to write a format that holds an unknown specifier, and `to_string`
/// then panics.)
#[verifier::external_body]
pub(crate) fn format_local(t: UtcTime, fmt: &str) -> (r: String)
    requires
        fmt@ == datetime_format(),
    ensures
        local_datetime_text(t@, r@),
{
    chrono::DateTime::from_timestamp(t.secs, t.nanos).unwrap().with_timezone(
        &chrono::Local,
    ).format(fmt).to_string()
}

} // verus!
