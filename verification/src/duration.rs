//! Durations: the human-readable form (`"7d"`, `"2 hours"`) and the ISO 8601
//! form (`"P1DT12H"`), parsed to a whole number of seconds.

use vstd::prelude::*;
use crate::error::{TimeError, TimeResult};
use crate::text::{
    ascii_alpha, ascii_digit, chars_of, eq_ignore_ascii_case, is_ascii_alpha, is_ascii_digit,
    parse_i64, spec_parse_i64, trim, trim_range, word_eq_ignore_ascii_case,
};

verus! {

/// The largest number of seconds a duration can hold: `i64::MAX` milliseconds,
/// rounded down to whole seconds. The smallest is its negation.
pub const MAX_DELTA_SECS: i64 = 9_223_372_036_854_775;

/// `x` seconds is a representable duration.
pub open spec fn in_delta_range(x: int) -> bool {
    -MAX_DELTA_SECS <= x <= MAX_DELTA_SECS
}

/// A span of time, a whole number of seconds. Its view is that number.
#[derive(Debug, Clone, Copy, PartialEq, Eq, Hash)]
pub struct Duration {
    secs: i64,
}

impl View for Duration {
    type V = i64;

    closed spec fn view(&self) -> i64 {
        self.secs
    }
}

impl Duration {
    #[verifier::type_invariant]
    closed spec fn inv(self) -> bool {
        in_delta_range(self.secs as int)
    }

    /// The number of whole seconds.
    pub fn num_seconds(&self) -> (r: i64)
        ensures
            r == self@,
            in_delta_range(r as int),
    {
        proof {
            use_type_invariant(self);
        }
        self.secs
    }
}

// ── calls into chrono ────────────────────────────────────────────────────────

/// `chrono::TimeDelta::try_days`, as a number of seconds.
///
/// Claimed: `n` days is `n * 86400` seconds, `None` when that is out of range.
#[verifier::external_body]
fn delta_days(n: i64) -> (r: Option<i64>)
    ensures
        r == (if in_delta_range(n * 86_400) {
            Some((n * 86_400) as i64)
        } else {
            None::<i64>
        }),
{
    match chrono::TimeDelta::try_days(n) {
        Some(d) => Some(d.num_seconds()),
        None => None,
    }
}

/// `chrono::TimeDelta::try_hours`, as a number of seconds.
///
/// Claimed: `n` hours is `n * 3600` seconds, `None` when that is out of range.
#[verifier::external_body]
fn delta_hours(n: i64) -> (r: Option<i64>)
    ensures
        r == (if in_delta_range(n * 3_600) {
            Some((n * 3_600) as i64)
        } else {
            None::<i64>
        }),
{
    match chrono::TimeDelta::try_hours(n) {
        Some(d) => Some(d.num_seconds()),
        None => None,
    }
}

/// `chrono::TimeDelta::try_minutes`, as a number of seconds.
///
/// Claimed: `n` minutes is `n * 60` seconds, `None` when that is out of range.
#[verifier::external_body]
fn delta_minutes(n: i64) -> (r: Option<i64>)
    ensures
        r == (if in_delta_range(n * 60) {
            Some((n * 60) as i64)
        } else {
            None::<i64>
        }),
{
    match chrono::TimeDelta::try_minutes(n) {
        Some(d) => Some(d.num_seconds()),
        None => None,
    }
}

/// `chrono::TimeDelta::try_seconds`, as a number of seconds.
///
/// Claimed: `n` seconds is kept as it is, `None` when it is out of range.
#[verifier::external_body]
fn delta_seconds(n: i64) -> (r: Option<i64>)
    ensures
        r == (if in_delta_range(n as int) {
            Some(n)
        } else {
            None::<i64>
        }),
{
    match chrono::TimeDelta::try_seconds(n) {
        Some(d) => Some(d.num_seconds()),
        None => None,
    }
}

// ── human-readable form ──────────────────────────────────────────────────────

/// `p` is the position of the first ASCII letter of `t`.
pub open spec fn is_first_alpha(t: Seq<char>, p: int) -> bool {
    &&& 0 <= p < t.len()
    &&& is_ascii_alpha(t[p])
    &&& forall|q: int| 0 <= q < p ==> !is_ascii_alpha(#[trigger] t[q])
}

/// The position of the first ASCII letter of `t`, if there is one.
pub open spec fn first_alpha(t: Seq<char>) -> Option<int> {
    if exists|p: int| is_first_alpha(t, p) {
        Some(choose|p: int| is_first_alpha(t, p))
    } else {
        None
    }
}

/// The seconds in one of the unit named by `w`, ignoring ASCII case:
/// `d`/`day`/`days`, `h`/`hr`/`hour`/`hours`, `m`/`min`/`minute`/`minutes`,
/// `s`/`sec`/`second`/`seconds`.
pub open spec fn unit_seconds(w: Seq<char>) -> Option<int> {
    if eq_ignore_ascii_case(w, seq!['d']) || eq_ignore_ascii_case(w, seq!['d', 'a', 'y'])
        || eq_ignore_ascii_case(w, seq!['d', 'a', 'y', 's']) {
        Some(86_400)
    } else if eq_ignore_ascii_case(w, seq!['h']) || eq_ignore_ascii_case(w, seq!['h', 'r'])
        || eq_ignore_ascii_case(w, seq!['h', 'o', 'u', 'r']) || eq_ignore_ascii_case(
        w,
        seq!['h', 'o', 'u', 'r', 's'],
    ) {
        Some(3_600)
    } else if eq_ignore_ascii_case(w, seq!['m']) || eq_ignore_ascii_case(w, seq!['m', 'i', 'n'])
        || eq_ignore_ascii_case(w, seq!['m', 'i', 'n', 'u', 't', 'e']) || eq_ignore_ascii_case(
        w,
        seq!['m', 'i', 'n', 'u', 't', 'e', 's'],
    ) {
        Some(60)
    } else if eq_ignore_ascii_case(w, seq!['s']) || eq_ignore_ascii_case(w, seq!['s', 'e', 'c'])
        || eq_ignore_ascii_case(w, seq!['s', 'e', 'c', 'o', 'n', 'd']) || eq_ignore_ascii_case(
        w,
        seq!['s', 'e', 'c', 'o', 'n', 'd', 's'],
    ) {
        Some(1)
    } else {
        None
    }
}

/// A human-readable duration `t`, split at its first ASCII letter into a
/// number and a unit (each trimmed): the number and the unit's seconds.
pub open spec fn human_parts(t: Seq<char>) -> Option<(int, int)> {
    match first_alpha(t) {
        None => None,
        Some(p) => match spec_parse_i64(trim(t.take(p))) {
            None => None,
            Some(n) => match unit_seconds(trim(t.skip(p))) {
                None => None,
                Some(u) => Some((n, u)),
            },
        },
    }
}

/// The seconds of a human-readable duration `t`, not bounded to any range.
pub open spec fn human_seconds(t: Seq<char>) -> Option<int> {
    match human_parts(t) {
        Some((n, u)) => Some(n * u),
        None => None,
    }
}

/// A unit of the human-readable form.
enum Unit {
    Days,
    Hours,
    Minutes,
    Seconds,
}

impl Unit {
    spec fn seconds(self) -> int {
        match self {
            Unit::Days => 86_400,
            Unit::Hours => 3_600,
            Unit::Minutes => 60,
            Unit::Seconds => 1,
        }
    }
}

/// The unit named by `v[lo..hi]`.
fn unit_of(v: &Vec<char>, lo: usize, hi: usize) -> (r: Option<Unit>)
    requires
        lo <= hi <= v.len(),
    ensures
        match r {
            Some(u) => unit_seconds(v@.subrange(lo as int, hi as int)) == Some(u.seconds()),
            None => unit_seconds(v@.subrange(lo as int, hi as int)) is None,
        },
{
    let ghost w = v@.subrange(lo as int, hi as int);
    let d1: &[char] = &['d'];
    let d3: &[char] = &['d', 'a', 'y'];
    let d4: &[char] = &['d', 'a', 'y', 's'];
    let h1: &[char] = &['h'];
    let h2: &[char] = &['h', 'r'];
    let h4: &[char] = &['h', 'o', 'u', 'r'];
    let h5: &[char] = &['h', 'o', 'u', 'r', 's'];
    let m1: &[char] = &['m'];
    let m3: &[char] = &['m', 'i', 'n'];
    let m6: &[char] = &['m', 'i', 'n', 'u', 't', 'e'];
    let m7: &[char] = &['m', 'i', 'n', 'u', 't', 'e', 's'];
    let s1: &[char] = &['s'];
    let s3: &[char] = &['s', 'e', 'c'];
    let s6: &[char] = &['s', 'e', 'c', 'o', 'n', 'd'];
    let s7: &[char] = &['s', 'e', 'c', 'o', 'n', 'd', 's'];
    if word_eq_ignore_ascii_case(v, lo, hi, d1) || word_eq_ignore_ascii_case(v, lo, hi, d3)
        || word_eq_ignore_ascii_case(v, lo, hi, d4) {
        Some(Unit::Days)
    } else if word_eq_ignore_ascii_case(v, lo, hi, h1) || word_eq_ignore_ascii_case(v, lo, hi, h2)
        || word_eq_ignore_ascii_case(v, lo, hi, h4) || word_eq_ignore_ascii_case(v, lo, hi, h5) {
        Some(Unit::Hours)
    } else if word_eq_ignore_ascii_case(v, lo, hi, m1) || word_eq_ignore_ascii_case(v, lo, hi, m3)
        || word_eq_ignore_ascii_case(v, lo, hi, m6) || word_eq_ignore_ascii_case(v, lo, hi, m7) {
        Some(Unit::Minutes)
    } else if word_eq_ignore_ascii_case(v, lo, hi, s1) || word_eq_ignore_ascii_case(v, lo, hi, s3)
        || word_eq_ignore_ascii_case(v, lo, hi, s6) || word_eq_ignore_ascii_case(v, lo, hi, s7) {
        Some(Unit::Seconds)
    } else {
        None
    }
}

/// The number and unit of the human-readable duration `v[lo..hi]`.
fn human_parts_of(v: &Vec<char>, lo: usize, hi: usize) -> (r: Option<(i64, Unit)>)
    requires
        lo <= hi <= v.len(),
    ensures
        match r {
            Some((n, u)) => human_parts(v@.subrange(lo as int, hi as int)) == Some(
                (n as int, u.seconds()),
            ),
            None => human_parts(v@.subrange(lo as int, hi as int)) is None,
        },
{
    let ghost t = v@.subrange(lo as int, hi as int);
    let mut p = lo;
    while p < hi && !ascii_alpha(v[p])
        invariant
            lo <= p <= hi <= v.len(),
            t == v@.subrange(lo as int, hi as int),
            forall|q: int| 0 <= q < p - lo ==> !is_ascii_alpha(#[trigger] t[q]),
        decreases hi - p,
    {
        assert(t[p - lo] == v@[p as int]);
        p += 1;
    }
    if p == hi {
        assert(!exists|q: int| is_first_alpha(t, q));
        return None;
    }
    let ghost k = p - lo;
    assert(is_first_alpha(t, k)) by {
        assert(t[k] == v@[p as int]);
    }
    assert(first_alpha(t) == Some(k)) by {
        let c = choose|q: int| is_first_alpha(t, q);
        assert(is_first_alpha(t, c));
        if c < k {
            assert(!is_ascii_alpha(t[c]));
        } else if c > k {
            assert(!is_ascii_alpha(t[k]));
        }
    }
    assert(t.take(k) =~= v@.subrange(lo as int, p as int));
    assert(t.skip(k) =~= v@.subrange(p as int, hi as int));
    let (a, b) = trim_range(v, lo, p);
    let n = match parse_i64(v, a, b) {
        Some(n) => n,
        None => return None,
    };
    let (c, d) = trim_range(v, p, hi);
    match unit_of(v, c, d) {
        Some(u) => Some((n, u)),
        None => None,
    }
}

/// The seconds of `n` of unit `u`, or `None` when out of range.
fn unit_delta(n: i64, u: Unit) -> (r: Option<i64>)
    ensures
        r == (if in_delta_range(n * u.seconds()) {
            Some((n * u.seconds()) as i64)
        } else {
            None::<i64>
        }),
{
    match u {
        Unit::Days => delta_days(n),
        Unit::Hours => delta_hours(n),
        Unit::Minutes => delta_minutes(n),
        Unit::Seconds => delta_seconds(n),
    }
}

/// The relative part of a trimmed, nonempty time string `t`: `Some(None)`
/// when `t` is no human-readable duration, `Some(Some(x))` when it is one of
/// `x` seconds, and `None` when it is one whose seconds are out of range.
pub open spec fn human_outcome(t: Seq<char>) -> Option<Option<i64>> {
    match human_seconds(t) {
        None => Some(None),
        Some(x) => if in_delta_range(x) {
            Some(Some(x as i64))
        } else {
            None
        },
    }
}

/// The human-readable duration `v[lo..hi]`, as in `human_outcome`.
pub(crate) fn human_duration(v: &Vec<char>, lo: usize, hi: usize) -> (r: Option<Option<i64>>)
    requires
        lo <= hi <= v.len(),
    ensures
        r == human_outcome(v@.subrange(lo as int, hi as int)),
{
    match human_parts_of(v, lo, hi) {
        None => Some(None),
        Some((n, u)) => match unit_delta(n, u) {
            Some(x) => Some(Some(x)),
            None => None,
        },
    }
}

// ── ISO 8601 form ────────────────────────────────────────────────────────────

/// The state of an ISO 8601 duration scan: the seconds summed so far, where
/// the pending number starts (if one is pending), and whether the time part
/// (after `T`) has begun.
pub type IsoState = (int, Option<int>, bool);

/// The unit letter `c` of the ISO 8601 form: its seconds, and whether it is
/// allowed only in the time part.
pub open spec fn iso_unit(c: char) -> Option<(int, bool)> {
    if c == 'D' || c == 'd' {
        Some((86_400, false))
    } else if c == 'H' || c == 'h' {
        Some((3_600, true))
    } else if c == 'M' || c == 'm' {
        Some((60, true))
    } else if c == 'S' || c == 's' {
        Some((1, true))
    } else {
        None
    }
}

/// One step of the scan over `r[i]`. `Err(Some(e))` stops with error `e`;
/// `Err(None)` stops because the sum leaves the range of `i64`.
pub open spec fn iso_step(r: Seq<char>, st: IsoState, i: int) -> Result<IsoState, Option<TimeError>> {
    let c = r[i];
    if c == 'T' || c == 't' {
        if st.1 is Some {
            Err(Some(TimeError::InvalidNumber))
        } else {
            Ok((st.0, None, true))
        }
    } else if is_ascii_digit(c) {
        Ok((st.0, if st.1 is Some { st.1 } else { Some(i) }, st.2))
    } else {
        match iso_unit(c) {
            None => Err(Some(TimeError::UnknownSuffix)),
            Some((u, time_only)) => match st.1 {
                None => Err(Some(TimeError::InvalidNumber)),
                Some(start) => if time_only && !st.2 {
                    Err(Some(TimeError::InvalidNumber))
                } else {
                    match spec_parse_i64(r.subrange(start, i)) {
                        None => Err(Some(TimeError::InvalidNumber)),
                        Some(n) => {
                            let part = n * u;
                            let sum = st.0 + part;
                            if i64::MIN <= part <= i64::MAX && i64::MIN <= sum <= i64::MAX {
                                Ok((sum, None, st.2))
                            } else {
                                Err(None)
                            }
                        },
                    }
                },
            },
        }
    }
}

/// The scan over the first `n` characters of `r`.
pub open spec fn iso_scan(r: Seq<char>, n: nat) -> Result<IsoState, Option<TimeError>>
    decreases n,
{
    if n == 0 {
        Ok((0, None, false))
    } else {
        match iso_scan(r, (n - 1) as nat) {
            Ok(st) => iso_step(r, st, n - 1),
            Err(e) => Err(e),
        }
    }
}

/// An ISO 8601 duration `r`, given without its leading `P`: `Some(Ok(x))` for
/// `x` seconds, `Some(Err(e))` for an error, `None` when the seconds leave
/// their range.
pub open spec fn spec_iso_duration(r: Seq<char>) -> Option<TimeResult<i64>> {
    if r.len() == 0 {
        Some(Err(TimeError::InvalidNumber))
    } else {
        match iso_scan(r, r.len()) {
            Err(None) => None,
            Err(Some(e)) => Some(Err(e)),
            Ok((total, start, _)) => if start is Some || total == 0 {
                Some(Err(TimeError::InvalidNumber))
            } else if in_delta_range(total) {
                Some(Ok(total as i64))
            } else {
                None
            },
        }
    }
}

/// Once the scan has stopped, it stays stopped.
pub proof fn lemma_iso_scan_stops(r: Seq<char>, k: nat, n: nat)
    requires
        k <= n,
        iso_scan(r, k) is Err,
    ensures
        iso_scan(r, n) == iso_scan(r, k),
    decreases n - k,
{
    if k < n {
        lemma_iso_scan_stops(r, k, (n - 1) as nat);
    }
}

spec fn opt_index(o: Option<usize>) -> Option<int> {
    match o {
        Some(s) => Some(s as int),
        None => None,
    }
}

/// The ISO 8601 duration `v[lo..hi]` (without its `P`), as in `spec_iso_duration`.
fn iso_duration(v: &Vec<char>, lo: usize, hi: usize) -> (r: Option<TimeResult<i64>>)
    requires
        lo <= hi <= v.len(),
    ensures
        r == spec_iso_duration(v@.subrange(lo as int, hi as int)),
{
    let ghost r = v@.subrange(lo as int, hi as int);
    if lo == hi {
        return Some(Err(TimeError::InvalidNumber));
    }
    let n = hi - lo;
    let mut total: i64 = 0;
    let mut start: Option<usize> = None;
    let mut in_time = false;
    let mut i: usize = 0;
    while i < n
        invariant
            lo <= hi <= v.len(),
            n == hi - lo,
            r == v@.subrange(lo as int, hi as int),
            i <= n,
            iso_scan(r, i as nat) == Ok::<IsoState, Option<TimeError>>(
                (total as int, opt_index(start), in_time),
            ),
            start matches Some(s) ==> s < i,
        decreases n - i,
    {
        let c = v[lo + i];
        assert(r[i as int] == c);
        assert(iso_scan(r, (i + 1) as nat) == iso_step(
            r,
            (total as int, opt_index(start), in_time),
            i as int,
        ));
        if c == 'T' || c == 't' {
            if start.is_some() {
                proof {
                    lemma_iso_scan_stops(r, (i + 1) as nat, n as nat);
                }
                return Some(Err(TimeError::InvalidNumber));
            }
            in_time = true;
        } else if ascii_digit(c) {
            if start.is_none() {
                start = Some(i);
            }
        } else {
            let unit: i64 = if c == 'D' || c == 'd' {
                86_400
            } else if c == 'H' || c == 'h' {
                3_600
            } else if c == 'M' || c == 'm' {
                60
            } else if c == 'S' || c == 's' {
                1
            } else {
                proof {
                    lemma_iso_scan_stops(r, (i + 1) as nat, n as nat);
                }
                return Some(Err(TimeError::UnknownSuffix));
            };
            let s = match start {
                Some(s) => s,
                None => {
                    proof {
                        lemma_iso_scan_stops(r, (i + 1) as nat, n as nat);
                    }
                    return Some(Err(TimeError::InvalidNumber));
                },
            };
            start = None;
            if unit != 86_400 && !in_time {
                proof {
                    lemma_iso_scan_stops(r, (i + 1) as nat, n as nat);
                }
                return Some(Err(TimeError::InvalidNumber));
            }
            assert(r.subrange(s as int, i as int) =~= v@.subrange(lo + s, lo + i));
            let num = match parse_i64(v, lo + s, lo + i) {
                Some(x) => x,
                None => {
                    proof {
                        lemma_iso_scan_stops(r, (i + 1) as nat, n as nat);
                    }
                    return Some(Err(TimeError::InvalidNumber));
                },
            };
            assert(-0x8000_0000_0000_0000 * 86_400 <= num * unit <= 0x7fff_ffff_ffff_ffff * 86_400)
                by (nonlinear_arith)
                requires
                    1 <= unit <= 86_400,
                    i64::MIN <= num <= i64::MAX,
            ;
            let part: i128 = num as i128 * unit as i128;
            let sum: i128 = total as i128 + part;
            if part < i64::MIN as i128 || part > i64::MAX as i128 || sum < i64::MIN as i128 || sum
                > i64::MAX as i128 {
                proof {
                    lemma_iso_scan_stops(r, (i + 1) as nat, n as nat);
                }
                return None;
            }
            total = sum as i64;
        }
        i += 1;
    }
    if start.is_some() || total == 0 {
        return Some(Err(TimeError::InvalidNumber));
    }
    match delta_seconds(total) {
        Some(x) => Some(Ok(x)),
        None => None,
    }
}

// ── parse_duration ───────────────────────────────────────────────────────────

/// The duration `s`: `Some(Ok(x))` for a duration of `x` seconds,
/// `Some(Err(e))` for an error, and `None` where the seconds are out of range
/// (`parse_duration` then gives `InvalidNumber`, see `spec_duration_result`).
///
/// After trimming, an empty string is `EmptyInput`; one starting with `P` or
/// `p` is read in the ISO 8601 form; any other in the human-readable form,
/// and is `UnknownSuffix` when it is not one.
pub open spec fn spec_parse_duration(s: Seq<char>) -> Option<TimeResult<i64>> {
    let t = trim(s);
    if t.len() == 0 {
        Some(Err(TimeError::EmptyInput))
    } else if t[0] == 'P' || t[0] == 'p' {
        spec_iso_duration(t.drop_first())
    } else {
        match human_outcome(t) {
            None => None,
            Some(None) => Some(Err(TimeError::UnknownSuffix)),
            Some(Some(x)) => Some(Ok(x)),
        }
    }
}

/// The duration `v[lo..hi]`, as in `spec_parse_duration`.
fn duration_outcome(v: &Vec<char>, lo: usize, hi: usize) -> (r: Option<TimeResult<i64>>)
    requires
        lo <= hi <= v.len(),
    ensures
        r == spec_parse_duration(v@.subrange(lo as int, hi as int)),
        r matches Some(Ok(x)) ==> in_delta_range(x as int),
{
    let ghost s = v@.subrange(lo as int, hi as int);
    let (a, b) = trim_range(v, lo, hi);
    let ghost t = v@.subrange(a as int, b as int);
    if a == b {
        return Some(Err(TimeError::EmptyInput));
    }
    assert(t[0] == v@[a as int]);
    if v[a] == 'P' || v[a] == 'p' {
        assert(t.drop_first() =~= v@.subrange(a + 1, b as int));
        iso_duration(v, a + 1, b)
    } else {
        match human_duration(v, a, b) {
            None => None,
            Some(None) => Some(Err(TimeError::UnknownSuffix)),
            Some(Some(x)) => Some(Ok(x)),
        }
    }
}

/// What `parse_duration` returns for `s`: `spec_parse_duration`, and
/// `InvalidNumber` where the seconds are out of range.
pub open spec fn spec_duration_result(s: Seq<char>) -> TimeResult<i64> {
    match spec_parse_duration(s) {
        Some(r) => r,
        None => Err(TimeError::InvalidNumber),
    }
}

/// Parse a human-readable or ISO 8601 duration.
///
/// Human-readable: a number, then a unit (`"7d"`, `"7 days"`, `"2h"`, `"2hr"`,
/// `"30m"`, `"30min"`, `"30s"`, ...). ISO 8601: `"P7D"`, `"PT2H"`, `"P1DT12H"`.
///
/// # Errors
///
/// [`TimeError::EmptyInput`], [`TimeError::UnknownSuffix`] or
/// [`TimeError::InvalidNumber`] (also for a duration out of range), as
/// `spec_duration_result` says.
pub fn parse_duration(s: &str) -> (r: TimeResult<Duration>)
    ensures
        match r {
            Ok(d) => spec_duration_result(s@) == Ok::<i64, TimeError>(d@),
            Err(e) => spec_duration_result(s@) == Err::<i64, TimeError>(e),
        },
{
    let v = chars_of(s);
    assert(v@.subrange(0, v@.len() as int) =~= s@);
    match duration_outcome(&v, 0, v.len()) {
        Some(Ok(x)) => Ok(Duration { secs: x }),
        Some(Err(e)) => Err(e),
        None => Err(TimeError::InvalidNumber),
    }
}

} // verus!
