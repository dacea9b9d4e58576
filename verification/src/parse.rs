//! Parsing time strings (relative or absolute) and time filters.

use vstd::prelude::*;
use vstd::string::*;
use crate::duration::{human_duration, human_seconds, in_delta_range};
use crate::error::{TimeError, TimeResult};
use crate::filter::{TimeFilter, TimeOp};
use crate::instant::{
    naive_date_parse, naive_datetime_parse, parse_naive_date, parse_naive_datetime,
    timestamp_in_range, utc_now, valid_instant, UtcTime, NANOS_PER_SEC,
};
use crate::text::{chars_of, parse_i64, spec_parse_i64, trim, trim_range};

verus! {

// ── specification ────────────────────────────────────────────────────────────

/// An absolute time `t`, tried as `%Y-%m-%d %H:%M:%S`, then `%Y-%m-%d %H:%M`,
/// then `%Y-%m-%d` (at midnight), all in UTC.
pub open spec fn spec_absolute(t: Seq<char>) -> TimeResult<(i64, u32)> {
    match naive_datetime_parse(t, "%Y-%m-%d %H:%M:%S"@) {
        Some(x) => Ok(x),
        None => match naive_datetime_parse(t, "%Y-%m-%d %H:%M"@) {
            Some(x) => Ok(x),
            None => match naive_date_parse(t, "%Y-%m-%d"@) {
                Some(m) => Ok((m, 0u32)),
                None => Err(TimeError::InvalidDate),
            },
        },
    }
}

/// A relative time in `s` of a representable duration, counted back from
/// `now`, stays representable.
pub open spec fn relative_fits(now: (i64, u32), s: Seq<char>) -> bool {
    let t = trim(s);
    t.len() > 0 ==> (human_seconds(t) matches Some(d) ==> (in_delta_range(d)
        ==> timestamp_in_range(now.0 - d)))
}

/// The instant that `s` names, taking `now` as the present: after trimming,
/// an empty string is `EmptyInput`; a human-readable duration is that long
/// before `now` (`InvalidNumber` when the duration is out of range); a bare
/// zero (`0`, `+0`, `-00`, ...) is `now` itself; anything else is an absolute
/// time.
pub open spec fn spec_parse_time(now: (i64, u32), s: Seq<char>) -> TimeResult<(i64, u32)> {
    let t = trim(s);
    if t.len() == 0 {
        Err(TimeError::EmptyInput)
    } else {
        match human_seconds(t) {
            Some(d) => if in_delta_range(d) {
                Ok(((now.0 - d) as i64, now.1))
            } else {
                Err(TimeError::InvalidNumber)
            },
            None => if spec_parse_i64(t) == Some(0int) {
                Ok(now)
            } else {
                spec_absolute(t)
            },
        }
    }
}

/// An instant that the clock can give: valid, at or after the Unix epoch,
/// and no leap second.
pub open spec fn clock_instant(now: (i64, u32)) -> bool {
    &&& valid_instant(now.0 as int, now.1 as int)
    &&& now.0 >= 0
    &&& now.1 < NANOS_PER_SEC
}

/// The operator at the start of a trimmed filter `t`, and the rest of `t`.
pub open spec fn split_op(t: Seq<char>) -> Option<(TimeOp, Seq<char>)> {
    if t.len() >= 2 && t[0] == '>' && t[1] == '=' {
        Some((TimeOp::Ge, t.skip(2)))
    } else if t.len() >= 2 && t[0] == '<' && t[1] == '=' {
        Some((TimeOp::Le, t.skip(2)))
    } else if t.len() >= 1 && t[0] == '>' {
        Some((TimeOp::Gt, t.skip(1)))
    } else if t.len() >= 1 && t[0] == '<' {
        Some((TimeOp::Lt, t.skip(1)))
    } else if t.len() >= 1 && t[0] == '=' {
        Some((TimeOp::Eq, t.skip(1)))
    } else {
        None
    }
}

pub open spec fn filter_fits(now: (i64, u32), s: Seq<char>) -> bool {
    match split_op(trim(s)) {
        Some((_, rest)) => relative_fits(now, rest),
        None => true,
    }
}

/// The filter that `s` names, taking `now` as the present.
pub open spec fn spec_parse_time_filter(now: (i64, u32), s: Seq<char>) -> TimeResult<
    (TimeOp, (i64, u32)),
> {
    match split_op(trim(s)) {
        None => Err(TimeError::MissingOperator),
        Some((op, rest)) => match spec_parse_time(now, rest) {
            Ok(t) => Ok((op, t)),
            Err(e) => Err(e),
        },
    }
}

pub open spec fn time_view(r: TimeResult<UtcTime>) -> TimeResult<(i64, u32)> {
    match r {
        Ok(t) => Ok(t@),
        Err(e) => Err(e),
    }
}

pub open spec fn filter_view(r: TimeResult<TimeFilter>) -> TimeResult<(TimeOp, (i64, u32))> {
    match r {
        Ok(f) => Ok(f@),
        Err(e) => Err(e),
    }
}

// ── absolute times ───────────────────────────────────────────────────────────

/// The absolute time `s[a..b]`, as in `spec_absolute`.
fn absolute(s: &str, a: usize, b: usize) -> (r: TimeResult<UtcTime>)
    requires
        a <= b <= s@.len(),
    ensures
        time_view(r) == spec_absolute(s@.subrange(a as int, b as int)),
{
    let t = s.substring_char(a, b);
    if let Some((secs, nanos)) = parse_naive_datetime(t, "%Y-%m-%d %H:%M:%S") {
        return Ok(UtcTime::from_valid(secs, nanos));
    }
    if let Some((secs, nanos)) = parse_naive_datetime(t, "%Y-%m-%d %H:%M") {
        return Ok(UtcTime::from_valid(secs, nanos));
    }
    if let Some(midnight) = parse_naive_date(t, "%Y-%m-%d") {
        return Ok(UtcTime::from_valid(midnight, 0));
    }
    Err(TimeError::InvalidDate)
}

// ── times ────────────────────────────────────────────────────────────────────

/// The time `s[lo..hi]` (with `v` the characters of `s`), taking `now` as the
/// present.
fn time_at(s: &str, v: &Vec<char>, lo: usize, hi: usize, now: UtcTime) -> (r: TimeResult<UtcTime>)
    requires
        v@ == s@,
        lo <= hi <= v.len(),
        now@.1 < NANOS_PER_SEC,
        relative_fits(now@, v@.subrange(lo as int, hi as int)),
    ensures
        time_view(r) == spec_parse_time(now@, v@.subrange(lo as int, hi as int)),
{
    let (a, b) = trim_range(v, lo, hi);
    if a == b {
        return Err(TimeError::EmptyInput);
    }
    match human_duration(v, a, b) {
        Some(Some(d)) => match now.minus_seconds(d) {
            Some(t) => Ok(t),
            // Out of range: excluded by the precondition.
            None => Err(TimeError::InvalidDate),
        },
        Some(None) => match parse_i64(v, a, b) {
            Some(0) => Ok(now),
            _ => absolute(s, a, b),
        },
        None => Err(TimeError::InvalidNumber),
    }
}

/// The time `s[lo..hi]`, taking the clock's reading as the present.
fn time_now(s: &str, v: &Vec<char>, lo: usize, hi: usize) -> (r: TimeResult<UtcTime>)
    requires
        v@ == s@,
        lo <= hi <= v.len(),
    ensures
        exists|now: (i64, u32)|
            {
                &&& clock_instant(now)
                &&& if relative_fits(now, v@.subrange(lo as int, hi as int)) {
                    time_view(r) == spec_parse_time(now, v@.subrange(lo as int, hi as int))
                } else {
                    r == Err::<UtcTime, TimeError>(TimeError::InvalidDate)
                }
            },
{
    let ghost sub = v@.subrange(lo as int, hi as int);
    let ghost epoch: (i64, u32) = (0, 0);
    assert(clock_instant(epoch)) by {
        assert(0int % 60 == 0);
    }
    let (a, b) = trim_range(v, lo, hi);
    if a == b {
        assert(relative_fits(epoch, sub));
        return Err(TimeError::EmptyInput);
    }
    match human_duration(v, a, b) {
        Some(Some(d)) => {
            let now = utc_now();
            assert(clock_instant(now@));
            match now.minus_seconds(d) {
                Some(t) => Ok(t),
                None => Err(TimeError::InvalidDate),
            }
        },
        Some(None) => match parse_i64(v, a, b) {
            Some(0) => {
                let now = utc_now();
                assert(clock_instant(now@));
                Ok(now)
            },
            _ => {
                let r = absolute(s, a, b);
                assert(relative_fits(epoch, sub));
                r
            },
        },
        None => {
            assert(relative_fits(epoch, sub));
            Err(TimeError::InvalidNumber)
        },
    }
}

/// Parse a human-readable time string to an instant, taking `now` as the
/// present.
///
/// Relative formats are durations before `now`: `"7d"`, `"7 days"`, `"2h"`,
/// `"2hr"`, `"30m"`, `"30min"`, `"30s"` (a negative one lies after `now`); a
/// bare `"0"` is `now`. Absolute formats are in UTC: `"2024-05-01"`
/// (midnight), `"2024-05-01 10:00"`, `"2024-05-01 10:00:00"`.
///
/// # Errors
///
/// [`TimeError::EmptyInput`], [`TimeError::InvalidNumber`] (a duration out of
/// range) or [`TimeError::InvalidDate`].
pub fn parse_time_at(now: UtcTime, time_str: &str) -> (r: TimeResult<UtcTime>)
    requires
        now@.1 < NANOS_PER_SEC,
        relative_fits(now@, time_str@),
    ensures
        time_view(r) == spec_parse_time(now@, time_str@),
{
    let v = chars_of(time_str);
    assert(v@.subrange(0, v@.len() as int) =~= time_str@);
    time_at(time_str, &v, 0, v.len(), now)
}

/// Parse a human-readable time string to an instant, taking the system clock
/// as the present (see [`parse_time_at`]).
///
/// Where a relative time counted back from the clock's reading would leave the
/// representable range, the result is [`TimeError::InvalidDate`].
///
/// # Errors
///
/// [`TimeError::EmptyInput`], [`TimeError::InvalidNumber`] (a duration out of
/// range) or [`TimeError::InvalidDate`].
pub fn parse_time(time_str: &str) -> (r: TimeResult<UtcTime>)
    ensures
        exists|now: (i64, u32)|
            {
                &&& clock_instant(now)
                &&& if relative_fits(now, time_str@) {
                    time_view(r) == spec_parse_time(now, time_str@)
                } else {
                    r == Err::<UtcTime, TimeError>(TimeError::InvalidDate)
                }
            },
{
    let v = chars_of(time_str);
    assert(v@.subrange(0, v@.len() as int) =~= time_str@);
    time_now(time_str, &v, 0, v.len())
}

// ── filters ──────────────────────────────────────────────────────────────────

/// The operator at the start of `v[a..b]` and where the rest begins.
fn split_op_of(v: &Vec<char>, a: usize, b: usize) -> (r: Option<(TimeOp, usize)>)
    requires
        a <= b <= v.len(),
    ensures
        match r {
            Some((op, k)) => a <= k <= b && split_op(v@.subrange(a as int, b as int)) == Some(
                (op, v@.subrange(k as int, b as int)),
            ),
            None => split_op(v@.subrange(a as int, b as int)) is None,
        },
{
    let ghost t = v@.subrange(a as int, b as int);
    if b - a >= 2 {
        assert(t[0] == v@[a as int] && t[1] == v@[a + 1]);
        assert(t.skip(2) =~= v@.subrange(a + 2, b as int));
    }
    if b - a >= 1 {
        assert(t[0] == v@[a as int]);
        assert(t.skip(1) =~= v@.subrange(a + 1, b as int));
    }
    if b - a >= 2 && v[a] == '>' && v[a + 1] == '=' {
        Some((TimeOp::Ge, a + 2))
    } else if b - a >= 2 && v[a] == '<' && v[a + 1] == '=' {
        Some((TimeOp::Le, a + 2))
    } else if b - a >= 1 && v[a] == '>' {
        Some((TimeOp::Gt, a + 1))
    } else if b - a >= 1 && v[a] == '<' {
        Some((TimeOp::Lt, a + 1))
    } else if b - a >= 1 && v[a] == '=' {
        Some((TimeOp::Eq, a + 1))
    } else {
        None
    }
}

/// Parse a time filter string like `">=7d"`, `"<2h"`, `"=2026-05-01"`, taking
/// `now` as the present.
///
/// Operator is required.
///
/// # Errors
///
/// [`TimeError::MissingOperator`] if no operator is found, or the errors of
/// [`parse_time_at`].
pub fn parse_time_filter_at(now: UtcTime, s: &str) -> (r: TimeResult<TimeFilter>)
    requires
        now@.1 < NANOS_PER_SEC,
        filter_fits(now@, s@),
    ensures
        filter_view(r) == spec_parse_time_filter(now@, s@),
{
    let v = chars_of(s);
    assert(v@.subrange(0, v@.len() as int) =~= s@);
    let (a, b) = trim_range(&v, 0, v.len());
    match split_op_of(&v, a, b) {
        None => Err(TimeError::MissingOperator),
        Some((op, k)) => match time_at(s, &v, k, b, now) {
            Ok(time) => Ok(TimeFilter::new(op, time)),
            Err(e) => Err(e),
        },
    }
}

/// Parse a time filter string like `">=7d"`, `"<2h"`, `"=2026-05-01"`, taking
/// the system clock as the present (see [`parse_time_filter_at`]).
///
/// # Errors
///
/// [`TimeError::MissingOperator`] if no operator is found, or the errors of
/// [`parse_time`].
pub fn parse_time_filter(s: &str) -> (r: TimeResult<TimeFilter>)
    ensures
        exists|now: (i64, u32)|
            {
                &&& clock_instant(now)
                &&& if filter_fits(now, s@) {
                    filter_view(r) == spec_parse_time_filter(now, s@)
                } else {
                    r == Err::<TimeFilter, TimeError>(TimeError::InvalidDate)
                }
            },
{
    let v = chars_of(s);
    assert(v@.subrange(0, v@.len() as int) =~= s@);
    let (a, b) = trim_range(&v, 0, v.len());
    match split_op_of(&v, a, b) {
        None => {
            let ghost epoch: (i64, u32) = (0, 0);
            assert(clock_instant(epoch)) by {
                assert(0int % 60 == 0);
            }
            Err(TimeError::MissingOperator)
        },
        Some((op, k)) => match time_now(s, &v, k, b) {
            Ok(time) => Ok(TimeFilter::new(op, time)),
            Err(e) => Err(e),
        },
    }
}

impl std::str::FromStr for TimeFilter {
    type Err = TimeError;

    /// [`parse_time_filter`].
    fn from_str(s: &str) -> (r: Result<TimeFilter, TimeError>)
        ensures
            exists|now: (i64, u32)|
                {
                    &&& clock_instant(now)
                    &&& if filter_fits(now, s@) {
                        filter_view(r) == spec_parse_time_filter(now, s@)
                    } else {
                        r == Err::<TimeFilter, TimeError>(TimeError::InvalidDate)
                    }
                },
    {
        parse_time_filter(s)
    }
}

} // verus!
