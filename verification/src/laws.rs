//! Properties of the library as a whole, stated over the specifications that
//! the parsing and filtering functions are proved against.

use vstd::prelude::*;
use crate::duration::{
    first_alpha, human_seconds, in_delta_range, is_first_alpha, iso_scan,
    spec_duration_result, spec_iso_duration, spec_parse_duration, unit_seconds, IsoState,
};
use crate::error::{TimeError, TimeResult};
use crate::filter::{op_holds, op_symbol, TimeOp};
use crate::instant::{datetime_format, is_datetime_text, naive_date_parse, naive_datetime_parse};
use crate::parse::{spec_absolute, spec_parse_time, spec_parse_time_filter, split_op};
use crate::text::{
    all_digits, ascii_lower_char, ascii_lower_code, eq_ignore_ascii_case, ascii_lowercase, ascii_uppercase, all_white_space, digits_value, is_ascii_alpha, is_ascii_digit, is_white_space,
    lemma_trim_end_split, lemma_trim_end_suffix, lemma_trim_of_trim_end,
    lemma_trim_surrounded, spec_parse_i64, trim, trim_end, trim_start,
};

verus! {

// ── operators ────────────────────────────────────────────────────────────────

/// Swapping the two instants turns `>` into `<` and `>=` into `<=`, and
/// leaves `=` as it is.
pub proof fn law_op_converse(a: (i64, u32), b: (i64, u32))
    ensures
        op_holds(TimeOp::Gt, a, b) == op_holds(TimeOp::Lt, b, a),
        op_holds(TimeOp::Ge, a, b) == op_holds(TimeOp::Le, b, a),
        op_holds(TimeOp::Eq, a, b) == op_holds(TimeOp::Eq, b, a),
{
}

/// Of `<`, `=` and `>`, exactly one holds; `>=` is `>` or `=`, and the
/// negation of `<`; `<=` is `<` or `=`, and the negation of `>`.
pub proof fn law_op_trichotomy(a: (i64, u32), b: (i64, u32))
    ensures
        op_holds(TimeOp::Lt, a, b) || op_holds(TimeOp::Eq, a, b) || op_holds(TimeOp::Gt, a, b),
        !(op_holds(TimeOp::Lt, a, b) && op_holds(TimeOp::Eq, a, b)),
        !(op_holds(TimeOp::Lt, a, b) && op_holds(TimeOp::Gt, a, b)),
        !(op_holds(TimeOp::Eq, a, b) && op_holds(TimeOp::Gt, a, b)),
        op_holds(TimeOp::Ge, a, b) == (op_holds(TimeOp::Gt, a, b) || op_holds(TimeOp::Eq, a, b)),
        op_holds(TimeOp::Le, a, b) == (op_holds(TimeOp::Lt, a, b) || op_holds(TimeOp::Eq, a, b)),
        op_holds(TimeOp::Ge, a, b) == !op_holds(TimeOp::Lt, a, b),
        op_holds(TimeOp::Le, a, b) == !op_holds(TimeOp::Gt, a, b),
{
}

/// Every instant passes `>=`, `<=` and `=` against itself, and fails `>` and `<`.
pub proof fn law_op_reflexive(a: (i64, u32))
    ensures
        op_holds(TimeOp::Ge, a, a),
        op_holds(TimeOp::Le, a, a),
        op_holds(TimeOp::Eq, a, a),
        !op_holds(TimeOp::Gt, a, a),
        !op_holds(TimeOp::Lt, a, a),
{
}

/// `<` (and so `>`) is transitive.
pub proof fn law_op_transitive(a: (i64, u32), b: (i64, u32), c: (i64, u32))
    requires
        op_holds(TimeOp::Lt, a, b),
        op_holds(TimeOp::Lt, b, c),
    ensures
        op_holds(TimeOp::Lt, a, c),
        op_holds(TimeOp::Gt, c, a),
{
}

// ── whitespace ───────────────────────────────────────────────────────────────

/// Whitespace before and after the input changes no result: of durations,
/// of times, or of filters.
pub proof fn law_surrounding_whitespace_ignored(
    now: (i64, u32),
    w1: Seq<char>,
    s: Seq<char>,
    w2: Seq<char>,
)
    requires
        all_white_space(w1),
        all_white_space(w2),
    ensures
        spec_parse_duration(w1 + s + w2) == spec_parse_duration(s),
        spec_parse_time(now, w1 + s + w2) == spec_parse_time(now, s),
        spec_parse_time_filter(now, w1 + s + w2) == spec_parse_time_filter(now, s),
{
    lemma_trim_surrounded(w1, s, w2);
}

/// A string reads as its trimmed form: as a duration, a time or a filter.
pub proof fn law_reads_as_trimmed(now: (i64, u32), s: Seq<char>)
    ensures
        spec_duration_result(trim(s)) == spec_duration_result(s),
        spec_parse_time(now, trim(s)) == spec_parse_time(now, s),
        spec_parse_time_filter(now, trim(s)) == spec_parse_time_filter(now, s),
{
    crate::text::lemma_trim_idempotent(s);
}

/// Only a relative time depends on the present: a string that is no
/// human-readable duration and no bare zero reads the same whatever `now` is.
pub proof fn law_absolute_ignores_now(now1: (i64, u32), now2: (i64, u32), s: Seq<char>)
    requires
        human_seconds(trim(s)) is None,
        spec_parse_i64(trim(s)) != Some(0int),
    ensures
        spec_parse_time(now1, s) == spec_parse_time(now2, s),
{
}

// ── relative times and durations ─────────────────────────────────────────────

/// A relative time is the present moved back by the duration that
/// `parse_duration` reads from the same text (for the human-readable form,
/// which is the one times accept): a negative duration lies in the future.
pub proof fn law_relative_time_is_duration_before_now(now: (i64, u32), s: Seq<char>, d: i64)
    requires
        trim(s).len() > 0,
        trim(s)[0] != 'P',
        trim(s)[0] != 'p',
        spec_parse_duration(s) == Some(Ok::<i64, TimeError>(d)),
    ensures
        spec_parse_time(now, s) == Ok::<(i64, u32), TimeError>(((now.0 - d) as i64, now.1)),
{
}

/// The ISO 8601 form of one unit: `P<n>D` for days, `PT<n>H`, `PT<n>M`,
/// `PT<n>S` for hours, minutes and seconds.
pub open spec fn iso_single(n: Seq<char>, unit: char) -> Seq<char> {
    if unit == 'd' {
        seq!['P'] + n + seq!['D']
    } else if unit == 'h' {
        seq!['P', 'T'] + n + seq!['H']
    } else if unit == 'm' {
        seq!['P', 'T'] + n + seq!['M']
    } else {
        seq!['P', 'T'] + n + seq!['S']
    }
}

/// A string that starts and ends with other than whitespace trims to itself.
proof fn lemma_trim_noop(s: Seq<char>)
    requires
        s.len() > 0,
        !is_white_space(s[0]),
        !is_white_space(s.last()),
    ensures
        trim(s) == s,
{
    assert(trim_start(s) == s);
    assert(trim_end(s) == s);
}

/// A run of digits extends the pending number of the scan (or starts one).
proof fn lemma_iso_scan_digits(r: Seq<char>, j: nat, k: nat, total: int, in_time: bool)
    requires
        j < k <= r.len(),
        iso_scan(r, j) == Ok::<IsoState, Option<TimeError>>((total, None, in_time)),
        forall|i: int| j <= i < k ==> is_ascii_digit(#[trigger] r[i]),
    ensures
        iso_scan(r, k) == Ok::<IsoState, Option<TimeError>>((total, Some(j as int), in_time)),
    decreases k - j,
{
    if k > j + 1 {
        lemma_iso_scan_digits(r, j, (k - 1) as nat, total, in_time);
    }
    assert(is_ascii_digit(r[k - 1]));
}

/// The number `n` of digits reads as its value.
proof fn lemma_parse_digits(n: Seq<char>)
    requires
        n.len() > 0,
        all_digits(n),
        digits_value(n) <= i64::MAX,
    ensures
        spec_parse_i64(n) == Some(digits_value(n)),
{
    assert(is_ascii_digit(n[0]));
    crate::text::lemma_digits_value_nonneg(n);
}

/// A digit string followed by one unit letter splits there.
proof fn lemma_human_single(n: Seq<char>, unit: char)
    requires
        n.len() > 0,
        all_digits(n),
        digits_value(n) <= i64::MAX,
        unit == 'd' || unit == 'h' || unit == 'm' || unit == 's',
    ensures
        human_seconds(n + seq![unit]) == Some(digits_value(n) * unit_seconds(seq![unit])->0),
        unit_seconds(seq![unit]) is Some,
{
    let t = n + seq![unit];
    let p = n.len() as int;
    assert(t[p] == unit);
    assert forall|q: int| 0 <= q < p implies !is_ascii_alpha(#[trigger] t[q]) by {
        assert(t[q] == n[q]);
        assert(is_ascii_digit(n[q]));
    }
    assert(is_first_alpha(t, p));
    assert(first_alpha(t) == Some(p)) by {
        let c = choose|q: int| is_first_alpha(t, q);
        assert(is_first_alpha(t, c));
        if c < p {
            assert(!is_ascii_alpha(t[c]));
        } else if c > p {
            assert(!is_ascii_alpha(t[p]));
        }
    }
    assert(t.take(p) =~= n);
    assert(t.skip(p) =~= seq![unit]);
    assert(is_ascii_digit(n[0]) && is_ascii_digit(n.last()));
    lemma_trim_noop(n);
    lemma_trim_noop(seq![unit]);
    lemma_parse_digits(n);
}

/// What a single positive amount of `v` units of `u` seconds each reads as.
spec fn single_outcome(v: int, u: int) -> Option<TimeResult<i64>> {
    if in_delta_range(v * u) {
        Some(Ok((v * u) as i64))
    } else {
        None
    }
}

/// The human-readable side of `law_iso_agrees_with_human`.
proof fn lemma_human_single_outcome(n: Seq<char>, unit: char)
    requires
        n.len() > 0,
        all_digits(n),
        0 < digits_value(n) <= i64::MAX,
        unit == 'd' || unit == 'h' || unit == 'm' || unit == 's',
    ensures
        unit_seconds(seq![unit]) is Some,
        spec_parse_duration(n + seq![unit]) == single_outcome(
            digits_value(n),
            unit_seconds(seq![unit])->0,
        ),
{
    let h = n + seq![unit];
    lemma_human_single(n, unit);
    assert(is_ascii_digit(n[0]));
    assert(h[0] == n[0] && h.last() == unit);
    lemma_trim_noop(h);
}

/// The scan of `r`: a number `n` of digits at `lead`, then the unit letter
/// `letter` as the last character.
proof fn lemma_iso_single_tail(
    r: Seq<char>,
    lead: nat,
    n: Seq<char>,
    letter: char,
    u: int,
    time_only: bool,
    in_time: bool,
)
    requires
        n.len() > 0,
        all_digits(n),
        0 < digits_value(n) <= i64::MAX,
        r.len() == lead + n.len() + 1,
        iso_scan(r, lead) == Ok::<IsoState, Option<TimeError>>((0, None, in_time)),
        r.subrange(lead as int, (lead + n.len()) as int) == n,
        r[(lead + n.len()) as int] == letter,
        crate::duration::iso_unit(letter) == Some((u, time_only)),
        time_only ==> in_time,
        u >= 1,
    ensures
        spec_iso_duration(r) == single_outcome(digits_value(n), u),
{
    let len = n.len();
    let v = digits_value(n);
    assert forall|i: int| lead <= i < lead + len implies is_ascii_digit(#[trigger] r[i]) by {
        assert(r[i] == r.subrange(lead as int, (lead + len) as int)[i - lead]);
    }
    lemma_iso_scan_digits(r, lead, (lead + len) as nat, 0, in_time);
    lemma_parse_digits(n);
    assert(letter != 'T' && letter != 't' && !is_ascii_digit(letter));
    assert(iso_scan(r, (lead + len + 1) as nat) == crate::duration::iso_step(
        r,
        (0, Some(lead as int), in_time),
        (lead + len) as int,
    ));
    assert(v * u > 0) by (nonlinear_arith)
        requires
            v > 0,
            u >= 1,
    ;
}

/// The first step of the scan starts from the empty state.
proof fn lemma_iso_scan_first(r: Seq<char>)
    requires
        r.len() > 0,
    ensures
        iso_scan(r, 1) == crate::duration::iso_step(r, (0, None, false), 0),
{
    assert(iso_scan(r, 0) == Ok::<IsoState, Option<TimeError>>((0, None, false)));
}

/// The ISO 8601 side of `law_iso_agrees_with_human`, for days.
proof fn lemma_iso_days_outcome(n: Seq<char>)
    requires
        n.len() > 0,
        all_digits(n),
        0 < digits_value(n) <= i64::MAX,
    ensures
        spec_parse_duration(iso_single(n, 'd')) == single_outcome(digits_value(n), 86_400),
{
    let iso = iso_single(n, 'd');
    let r = iso.drop_first();
    assert(iso[0] == 'P');
    assert(r =~= n + seq!['D']);
    assert(iso.last() == 'D');
    lemma_trim_noop(iso);
    assert(r.subrange(0, n.len() as int) =~= n);
    lemma_iso_single_tail(r, 0, n, 'D', 86_400, false, false);
}

/// The ISO 8601 side of `law_iso_agrees_with_human`, for hours, minutes and
/// seconds.
proof fn lemma_iso_time_outcome(n: Seq<char>, unit: char)
    requires
        n.len() > 0,
        all_digits(n),
        0 < digits_value(n) <= i64::MAX,
        unit == 'h' || unit == 'm' || unit == 's',
    ensures
        unit_seconds(seq![unit]) is Some,
        spec_parse_duration(iso_single(n, unit)) == single_outcome(
            digits_value(n),
            unit_seconds(seq![unit])->0,
        ),
{
    let iso = iso_single(n, unit);
    let r = iso.drop_first();
    let letter = if unit == 'h' {
        'H'
    } else if unit == 'm' {
        'M'
    } else {
        'S'
    };
    assert(iso[0] == 'P');
    assert(r =~= seq!['T'] + n + seq![letter]);
    assert(iso.last() == letter);
    lemma_trim_noop(iso);
    assert(r.subrange(1, (1 + n.len()) as int) =~= n);
    assert(r[0] == 'T');
    lemma_iso_scan_first(r);
    lemma_human_single(n, unit);
    let u = unit_seconds(seq![unit])->0;
    lemma_iso_single_tail(r, 1, n, letter, u, true, true);
}

/// A positive number of one unit reads the same in the ISO 8601 form as in
/// the human-readable form: `P<n>D` as `<n>d`, `PT<n>H` as `<n>h`, `PT<n>M`
/// as `<n>m`, `PT<n>S` as `<n>s`.
pub proof fn law_iso_agrees_with_human(n: Seq<char>, unit: char)
    requires
        n.len() > 0,
        all_digits(n),
        0 < digits_value(n) <= i64::MAX,
        unit == 'd' || unit == 'h' || unit == 'm' || unit == 's',
    ensures
        spec_parse_duration(iso_single(n, unit)) == spec_parse_duration(n + seq![unit]),
{
    lemma_human_single_outcome(n, unit);
    if unit == 'd' {
        lemma_iso_days_outcome(n);
    } else {
        lemma_iso_time_outcome(n, unit);
    }
}

/// The seconds of the ISO 8601 time unit `letter` (`H`, `M` or `S`).
pub open spec fn time_letter_seconds(letter: char) -> int {
    if letter == 'H' {
        3_600
    } else if letter == 'M' {
        60
    } else {
        1
    }
}

/// The ISO 8601 form `P<a>DT<b><U>` (with `U` one of `H`, `M`, `S`).
pub open spec fn iso_days_and_time(a: Seq<char>, b: Seq<char>, letter: char) -> Seq<char> {
    seq!['P'] + a + seq!['D', 'T'] + b + seq![letter]
}

/// The ISO 8601 form adds up its parts: `P<a>DT<b>H` is `a` days and `b`
/// hours (likewise with `M` for minutes and `S` for seconds), whenever the
/// total is positive and in range.
pub proof fn law_iso_parts_add_up(a: Seq<char>, b: Seq<char>, letter: char)
    requires
        a.len() > 0,
        b.len() > 0,
        all_digits(a),
        all_digits(b),
        letter == 'H' || letter == 'M' || letter == 'S',
        ({
            let u = time_letter_seconds(letter);
            let total = digits_value(a) * 86_400 + digits_value(b) * u;
            0 < total && in_delta_range(total)
        }),
    ensures
        spec_parse_duration(iso_days_and_time(a, b, letter)) == Some(
            Ok::<i64, TimeError>(
                (digits_value(a) * 86_400 + digits_value(b) * time_letter_seconds(letter)) as i64,
            ),
        ),
{
    let s = iso_days_and_time(a, b, letter);
    let r = s.drop_first();
    let la = a.len();
    let lb = b.len();
    let va = digits_value(a);
    let vb = digits_value(b);
    let u = time_letter_seconds(letter);
    assert(crate::duration::iso_unit(letter) == Some((u, true)));
    crate::text::lemma_digits_value_nonneg(a);
    crate::text::lemma_digits_value_nonneg(b);
    assert(va * 86_400 >= 0 && vb * u >= 0) by (nonlinear_arith)
        requires
            va >= 0,
            vb >= 0,
            u >= 1,
    ;
    assert(va <= i64::MAX && vb <= i64::MAX) by (nonlinear_arith)
        requires
            va >= 0,
            vb >= 0,
            u >= 1,
            va * 86_400 + vb * u <= 9_223_372_036_854_775,
    ;
    // The layout of `r`: `a`, `D`, `T`, `b`, the letter.
    assert(r =~= a + seq!['D', 'T'] + b + seq![letter]);
    assert(s[0] == 'P' && s.last() == letter);
    lemma_trim_noop(s);
    assert(r.len() == la + lb + 3);
    assert(r[la as int] == 'D');
    assert(r[(la + 1) as int] == 'T');
    assert(r[(la + 2 + lb) as int] == letter);
    assert(r.subrange(0, la as int) =~= a);
    assert(r.subrange((la + 2) as int, (la + 2 + lb) as int) =~= b);
    assert forall|i: int| 0 <= i < la implies is_ascii_digit(#[trigger] r[i]) by {
        assert(r[i] == a[i]);
    }
    assert forall|i: int| la + 2 <= i < la + 2 + lb implies is_ascii_digit(#[trigger] r[i]) by {
        assert(r[i] == b[i - la - 2]);
    }
    // `a`, then `D`.
    assert(iso_scan(r, 0) == Ok::<IsoState, Option<TimeError>>((0, None, false)));
    lemma_iso_scan_digits(r, 0, la, 0, false);
    lemma_parse_digits(a);
    assert(iso_scan(r, (la + 1) as nat) == crate::duration::iso_step(
        r,
        (0, Some(0), false),
        la as int,
    ));
    assert(iso_scan(r, (la + 1) as nat) == Ok::<IsoState, Option<TimeError>>(
        (va * 86_400, None, false),
    ));
    // `T`, then `b`, then the letter.
    assert(iso_scan(r, (la + 2) as nat) == crate::duration::iso_step(
        r,
        (va * 86_400, None, false),
        (la + 1) as int,
    ));
    lemma_iso_scan_digits(r, (la + 2) as nat, (la + 2 + lb) as nat, va * 86_400, true);
    lemma_parse_digits(b);
    assert(iso_scan(r, (la + 3 + lb) as nat) == crate::duration::iso_step(
        r,
        (va * 86_400, Some((la + 2) as int), true),
        (la + 2 + lb) as int,
    ));
}

// ── ISO 8601 parts ───────────────────────────────────────────────────────────

/// `c` may stand in the ISO 8601 form: a digit, `T`, or a unit letter (in
/// either case).
pub open spec fn is_iso_char(c: char) -> bool {
    is_ascii_digit(c) || c == 'T' || c == 't' || crate::duration::iso_unit(c) is Some
}

proof fn lemma_iso_scan_unknown(r: Seq<char>, n: nat)
    requires
        n <= r.len(),
    ensures
        iso_scan(r, n) == Err::<IsoState, Option<TimeError>>(Some(TimeError::UnknownSuffix))
            ==> exists|i: int| 0 <= i < n && !is_iso_char(#[trigger] r[i]),
    decreases n,
{
    if n > 0 {
        lemma_iso_scan_unknown(r, (n - 1) as nat);
        if iso_scan(r, (n - 1) as nat) is Ok && iso_scan(r, n) == Err::<
            IsoState,
            Option<TimeError>,
        >(Some(TimeError::UnknownSuffix)) {
            assert(!is_iso_char(r[n - 1]));
        }
    }
}

/// In the ISO 8601 form, `UnknownSuffix` comes only from a character that is
/// no digit, `T` or unit letter (such as `W`, `Y`, `.` or a space): a string
/// of digits and those letters (in either case) fails only with
/// `InvalidNumber`, or is out of range.
pub proof fn law_iso_unknown_suffix(b: Seq<char>)
    ensures
        spec_iso_duration(b) == Some(Err::<i64, TimeError>(TimeError::UnknownSuffix)) ==> exists|
            i: int,
        |
            0 <= i < b.len() && !is_iso_char(#[trigger] b[i]),
        (forall|i: int| 0 <= i < b.len() ==> is_iso_char(#[trigger] b[i])) ==> (spec_iso_duration(
            b,
        ) matches Some(Err(e)) ==> e == TimeError::InvalidNumber),
{
    lemma_iso_scan_unknown(b, b.len());
    lemma_iso_scan_errors(b, b.len());
}

/// On a scan that has not stopped, the total is not negative, and a pending
/// number is a run of digits up to the current position.
proof fn lemma_iso_scan_props(r: Seq<char>, n: nat)
    requires
        n <= r.len(),
    ensures
        iso_scan(r, n) matches Ok(st) ==> {
            &&& st.0 >= 0
            &&& st.1 matches Some(s) ==> (0 <= s < n && all_digits(r.subrange(s, n as int)))
        },
    decreases n,
{
    if n > 0 {
        let i = n - 1;
        lemma_iso_scan_props(r, i as nat);
        if let Ok(st) = iso_scan(r, i as nat) {
            let c = r[i];
            if is_ascii_digit(c) {
                match st.1 {
                    Some(s) => {
                        assert forall|j: int| 0 <= j < n - s implies is_ascii_digit(
                            #[trigger] r.subrange(s, n as int)[j],
                        ) by {
                            if j < i - s {
                                assert(r.subrange(s, n as int)[j] == r.subrange(s, i)[j]);
                            }
                        }
                    },
                    None => {
                        assert forall|j: int| 0 <= j < 1 implies is_ascii_digit(
                            #[trigger] r.subrange(i, n as int)[j],
                        ) by {}
                    },
                }
            } else if !(c == 'T' || c == 't') {
                if let Some((u, _)) = crate::duration::iso_unit(c) {
                    if let Some(s) = st.1 {
                        let d = r.subrange(s, i);
                        if let Some(v) = spec_parse_i64(d) {
                            assert(d.len() > 0 && is_ascii_digit(d[0]));
                            crate::text::lemma_digits_value_nonneg(d);
                            assert(v >= 0);
                            assert(v * u >= 0) by (nonlinear_arith)
                                requires
                                    v >= 0,
                                    u >= 1,
                            ;
                        }
                    }
                }
            }
        }
    }
}

/// One step of a scan that has not stopped does not lower the total.
proof fn lemma_iso_step_grows(r: Seq<char>, i: nat)
    requires
        i < r.len(),
        iso_scan(r, i) is Ok,
        iso_scan(r, i + 1) is Ok,
    ensures
        iso_scan(r, i)->Ok_0.0 <= iso_scan(r, i + 1)->Ok_0.0,
{
    lemma_iso_scan_props(r, i);
    let st = iso_scan(r, i)->Ok_0;
    assert(iso_scan(r, i + 1) == crate::duration::iso_step(r, st, i as int));
    let c = r[i as int];
    if !(c == 'T' || c == 't') && !is_ascii_digit(c) {
        if let Some((u, _)) = crate::duration::iso_unit(c) {
            if let Some(s) = st.1 {
                let d = r.subrange(s, i as int);
                if let Some(v) = spec_parse_i64(d) {
                    assert(d.len() > 0 && is_ascii_digit(d[0]));
                    crate::text::lemma_digits_value_nonneg(d);
                    assert(v * u >= 0) by (nonlinear_arith)
                        requires
                            v >= 0,
                            u >= 1,
                    ;
                }
            }
        }
    }
}

/// Totals only grow along a scan that has not stopped.
proof fn lemma_iso_scan_grows(r: Seq<char>, k: nat, m: nat)
    requires
        k <= m <= r.len(),
        iso_scan(r, m) is Ok,
    ensures
        iso_scan(r, k) is Ok,
        iso_scan(r, k)->Ok_0.0 <= iso_scan(r, m)->Ok_0.0,
    decreases m - k,
{
    if k < m {
        let i = (m - 1) as nat;
        if iso_scan(r, i) is Err {
            crate::duration::lemma_iso_scan_stops(r, i, m);
        }
        lemma_iso_step_grows(r, i);
        lemma_iso_scan_grows(r, k, i);
    }
}

/// The scan of a prefix does not look past it.
proof fn lemma_iso_scan_prefix(a: Seq<char>, b: Seq<char>, n: nat)
    requires
        n <= a.len(),
    ensures
        iso_scan(a + b, n) == iso_scan(a, n),
    decreases n,
{
    if n > 0 {
        let i = n - 1;
        lemma_iso_scan_prefix(a, b, i as nat);
        lemma_iso_scan_start(a, i as nat);
        assert((a + b)[i] == a[i]);
        if let Ok(st) = iso_scan(a, i as nat) {
            if let Some(s) = st.1 {
                assert((a + b).subrange(s, i) =~= a.subrange(s, i));
            }
        }
    }
}

/// A scan with no `T` stays in the date part.
proof fn lemma_iso_scan_no_time(a: Seq<char>, n: nat)
    requires
        n <= a.len(),
        forall|i: int| 0 <= i < a.len() ==> #[trigger] a[i] != 'T' && a[i] != 't',
    ensures
        iso_scan(a, n) matches Ok(st) ==> !st.2,
    decreases n,
{
    if n > 0 {
        lemma_iso_scan_no_time(a, (n - 1) as nat);
        assert(a[n - 1] != 'T' && a[n - 1] != 't');
    }
}

spec fn shifted(st: IsoState, d: int, k: int) -> IsoState {
    (st.0 + d, match st.1 {
        Some(s) => Some(s + k),
        None => None,
    }, st.2)
}

/// Scanning `b` after a finished scan of `a` goes as scanning `b` alone, with
/// `a`'s total added.
proof fn lemma_iso_scan_after(a: Seq<char>, b: Seq<char>, d1: int, d2: int, k: nat)
    requires
        k <= b.len(),
        iso_scan(a, a.len()) == Ok::<IsoState, Option<TimeError>>((d1, None, false)),
        d1 >= 0,
        iso_scan(b, b.len()) matches Ok(st) && st.0 == d2,
        d1 + d2 <= i64::MAX,
    ensures
        iso_scan(b, k) is Ok,
        iso_scan(a + b, a.len() + k) == Ok::<IsoState, Option<TimeError>>(
            shifted(iso_scan(b, k)->Ok_0, d1, a.len() as int),
        ),
    decreases k,
{
    let r = a + b;
    let la = a.len();
    lemma_iso_scan_grows(b, k, b.len());
    if k == 0 {
        lemma_iso_scan_prefix(a, b, la);
    } else {
        let i = (k - 1) as nat;
        lemma_iso_scan_after(a, b, d1, d2, i);
        lemma_iso_scan_grows(b, i, b.len());
        lemma_iso_scan_start(b, i);
        let st = iso_scan(b, i)->Ok_0;
        assert(r[(la + i) as int] == b[i as int]);
        if let Some(s) = st.1 {
            assert(r.subrange(s + la, (la + i) as int) =~= b.subrange(s, i as int));
        }
        assert(iso_scan(b, k) == crate::duration::iso_step(b, st, i as int));
        assert(iso_scan(r, la + k) == crate::duration::iso_step(
            r,
            shifted(st, d1, la as int),
            (la + i) as int,
        ));
    }
}

/// The ISO 8601 form adds its date part and its time part: when `a` (with no
/// `T`) reads as `d1` seconds and `b` (starting with `T`) as `d2`, then `a`
/// followed by `b` reads as `d1 + d2`, if that is in range. (All three are
/// given without their leading `P`.)
pub proof fn law_iso_date_and_time_add(a: Seq<char>, b: Seq<char>, d1: i64, d2: i64)
    requires
        forall|i: int| 0 <= i < a.len() ==> #[trigger] a[i] != 'T' && a[i] != 't',
        b.len() > 0,
        b[0] == 'T' || b[0] == 't',
        spec_iso_duration(a) == Some(Ok::<i64, TimeError>(d1)),
        spec_iso_duration(b) == Some(Ok::<i64, TimeError>(d2)),
        in_delta_range(d1 + d2),
    ensures
        spec_iso_duration(a + b) == Some(Ok::<i64, TimeError>((d1 + d2) as i64)),
{
    lemma_iso_scan_props(a, a.len());
    lemma_iso_scan_props(b, b.len());
    lemma_iso_scan_no_time(a, a.len());
    let sa = iso_scan(a, a.len())->Ok_0;
    let sb = iso_scan(b, b.len())->Ok_0;
    assert(sa == (d1 as int, None::<int>, false));
    assert(sb.0 == d2 && sb.1 is None);
    lemma_iso_scan_after(a, b, d1 as int, d2 as int, b.len());
    assert((a + b).len() == a.len() + b.len());
}

// ── the ISO 8601 grammar ─────────────────────────────────────────────────────

/// The number of digits at the start of `x`.
pub open spec fn lead_digits(x: Seq<char>) -> nat
    decreases x.len(),
{
    if x.len() > 0 && is_ascii_digit(x[0]) {
        1 + lead_digits(x.drop_first())
    } else {
        0
    }
}

/// The ISO 8601 form `x` (after its `P`) as tokens: each token is `T` (which
/// opens the time part) or a number followed by a unit letter, `H`, `M` and
/// `S` only in the time part, letters in either case. The value is the sum of
/// each number times its unit's seconds; `None` when `x` is no such sequence
/// of tokens. `in_time` says whether the time part is open at the start.
pub open spec fn iso_grammar(x: Seq<char>, in_time: bool) -> Option<int>
    decreases x.len(),
{
    if x.len() == 0 {
        Some(0)
    } else if x[0] == 'T' || x[0] == 't' {
        iso_grammar(x.drop_first(), true)
    } else {
        let k = lead_digits(x);
        if 0 < k && k < x.len() {
            if let Some((u, time_only)) = crate::duration::iso_unit(x[k as int]) {
                if time_only && !in_time {
                    None
                } else {
                    match iso_grammar(x.skip((k + 1) as int), in_time) {
                        Some(rest) => Some(digits_value(x.take(k as int)) * u + rest),
                        None => None,
                    }
                }
            } else {
                None
            }
        } else {
            None
        }
    }
}

proof fn lemma_lead_digits(x: Seq<char>)
    ensures
        lead_digits(x) <= x.len(),
        all_digits(x.take(lead_digits(x) as int)),
        lead_digits(x) < x.len() ==> !is_ascii_digit(x[lead_digits(x) as int]),
    decreases x.len(),
{
    if x.len() > 0 && is_ascii_digit(x[0]) {
        let t = x.drop_first();
        lemma_lead_digits(t);
        let k = lead_digits(x) as int;
        assert forall|j: int| 0 <= j < k implies is_ascii_digit(#[trigger] x.take(k)[j]) by {
            if j > 0 {
                assert(x.take(k)[j] == t.take(k - 1)[j - 1]);
            }
        }
        if k < x.len() {
            assert(x[k] == t[k - 1]);
        }
    }
}

proof fn lemma_iso_grammar_nonneg(x: Seq<char>, in_time: bool)
    ensures
        iso_grammar(x, in_time) matches Some(g) ==> g >= 0,
    decreases x.len(),
{
    if x.len() > 0 {
        if x[0] == 'T' || x[0] == 't' {
            lemma_iso_grammar_nonneg(x.drop_first(), true);
        } else {
            let k = lead_digits(x);
            lemma_lead_digits(x);
            if 0 < k < x.len() {
                lemma_iso_grammar_nonneg(x.skip((k + 1) as int), in_time);
                crate::text::lemma_digits_value_nonneg(x.take(k as int));
                if let Some((u, _)) = crate::duration::iso_unit(x[k as int]) {
                    let v = digits_value(x.take(k as int));
                    assert(v * u >= 0) by (nonlinear_arith)
                        requires
                            v >= 0,
                            u >= 1,
                    ;
                }
            }
        }
    }
}

/// A number token at `i`: the scan reads its digits, then its unit.
proof fn lemma_iso_token_scan(b: Seq<char>, i: nat, tot: int, it: bool)
    requires
        i < b.len(),
        iso_scan(b, i) == Ok::<IsoState, Option<TimeError>>((tot, None, it)),
        is_ascii_digit(b[i as int]),
    ensures
        ({
            let x = b.skip(i as int);
            let k = lead_digits(x);
            &&& 0 < k <= x.len()
            &&& iso_scan(b, i + k) == Ok::<IsoState, Option<TimeError>>(
                (tot, Some(i as int), it),
            )
            &&& b.subrange(i as int, (i + k) as int) == x.take(k as int)
            &&& all_digits(x.take(k as int))
            &&& i + k < b.len() ==> (b[(i + k) as int] == x[k as int] && !is_ascii_digit(x[k as int]))
        }),
{
    let x = b.skip(i as int);
    lemma_lead_digits(x);
    let k = lead_digits(x);
    assert(x[0] == b[i as int]);
    assert(b.subrange(i as int, (i + k) as int) =~= x.take(k as int));
    assert forall|j: int| i <= j < i + k implies is_ascii_digit(#[trigger] b[j]) by {
        assert(b[j] == x.take(k as int)[j - i]);
    }
    lemma_iso_scan_digits(b, i, (i + k) as nat, tot, it);
    if i + k < b.len() {
        assert(b[(i + k) as int] == x[k as int]);
    }
}

/// A sequence of tokens from position `i` on is scanned to its value.
proof fn lemma_grammar_to_scan(b: Seq<char>, i: nat, tot: int, it: bool, g: int)
    requires
        i <= b.len(),
        iso_scan(b, i) == Ok::<IsoState, Option<TimeError>>((tot, None, it)),
        iso_grammar(b.skip(i as int), it) == Some(g),
        tot >= 0,
        tot + g <= i64::MAX,
    ensures
        iso_scan(b, b.len()) matches Ok(st) && st.0 == tot + g && st.1 is None,
    decreases b.len() - i,
{
    let x = b.skip(i as int);
    lemma_iso_grammar_nonneg(x, it);
    if i == b.len() {
        assert(x.len() == 0);
    } else {
        assert(x[0] == b[i as int]);
        if x[0] == 'T' || x[0] == 't' {
            assert(x.drop_first() =~= b.skip((i + 1) as int));
            assert(iso_scan(b, i + 1) == crate::duration::iso_step(
                b,
                (tot, None, it),
                i as int,
            ));
            lemma_grammar_to_scan(b, i + 1, tot, true, g);
        } else {
            let k = lead_digits(x);
            lemma_lead_digits(x);
            assert(is_ascii_digit(x[0]));
            lemma_iso_token_scan(b, i, tot, it);
            let (u, time_only) = crate::duration::iso_unit(x[k as int])->0;
            let rest = iso_grammar(x.skip((k + 1) as int), it)->0;
            let v = digits_value(x.take(k as int));
            lemma_iso_grammar_nonneg(x.skip((k + 1) as int), it);
            crate::text::lemma_digits_value_nonneg(x.take(k as int));
            assert(x.skip((k + 1) as int) =~= b.skip((i + k + 1) as int));
            assert(v <= v * u && v * u >= 0) by (nonlinear_arith)
                requires
                    v >= 0,
                    u >= 1,
            ;
            lemma_parse_digits(x.take(k as int));
            assert(iso_scan(b, i + k + 1) == crate::duration::iso_step(
                b,
                (tot, Some(i as int), it),
                (i + k) as int,
            ));
            lemma_grammar_to_scan(b, i + k + 1, tot + v * u, it, rest);
        }
    }
}

/// A scan that ends well reads a sequence of tokens from position `i` on.
proof fn lemma_scan_to_grammar(b: Seq<char>, i: nat, tot: int, it: bool)
    requires
        i <= b.len(),
        iso_scan(b, i) == Ok::<IsoState, Option<TimeError>>((tot, None, it)),
        iso_scan(b, b.len()) matches Ok(st) && st.1 is None,
    ensures
        iso_grammar(b.skip(i as int), it) == Some(iso_scan(b, b.len())->Ok_0.0 - tot),
    decreases b.len() - i,
{
    let x = b.skip(i as int);
    if i == b.len() {
        assert(x.len() == 0);
    } else {
        lemma_iso_scan_grows(b, i + 1, b.len());
        assert(x[0] == b[i as int]);
        assert(iso_scan(b, i + 1) == crate::duration::iso_step(b, (tot, None, it), i as int));
        if x[0] == 'T' || x[0] == 't' {
            assert(x.drop_first() =~= b.skip((i + 1) as int));
            lemma_scan_to_grammar(b, i + 1, tot, true);
        } else {
            let k = lead_digits(x);
            lemma_iso_token_scan(b, i, tot, it);
            if i + k == b.len() {
                assert(false);
            }
            lemma_iso_scan_grows(b, i + k + 1, b.len());
            let c = x[k as int];
            assert(iso_scan(b, i + k + 1) == crate::duration::iso_step(
                b,
                (tot, Some(i as int), it),
                (i + k) as int,
            ));
            let (u, time_only) = crate::duration::iso_unit(c)->0;
            let v = digits_value(x.take(k as int));
            lemma_parse_digits_any(x.take(k as int));
            assert(x.skip((k + 1) as int) =~= b.skip((i + k + 1) as int));
            lemma_scan_to_grammar(b, i + k + 1, tot + v * u, it);
        }
    }
}

/// A number of digits that reads as an `i64` reads as its value.
proof fn lemma_parse_digits_any(n: Seq<char>)
    requires
        n.len() > 0,
        all_digits(n),
    ensures
        spec_parse_i64(n) matches Some(v) ==> v == digits_value(n),
{
    assert(is_ascii_digit(n[0]));
}

/// The ISO 8601 form (after its `P`) is exactly its grammar: it reads as `x`
/// seconds when it is a sequence of tokens (`iso_grammar`) worth `x > 0`; and
/// such a sequence worth a positive number of seconds in range reads as that.
pub proof fn law_iso_grammar(b: Seq<char>)
    ensures
        spec_iso_duration(b) matches Some(Ok(x)) ==> (iso_grammar(b, false) == Some(x as int) && x
            > 0),
        iso_grammar(b, false) matches Some(n) ==> (0 < n && in_delta_range(n) ==> spec_iso_duration(
            b,
        ) == Some(Ok::<i64, TimeError>(n as i64))),
{
    assert(b.skip(0) =~= b);
    assert(iso_scan(b, 0) == Ok::<IsoState, Option<TimeError>>((0, None, false)));
    if let Some(Ok(x)) = spec_iso_duration(b) {
        lemma_iso_scan_props(b, b.len());
        lemma_scan_to_grammar(b, 0, 0, false);
    }
    if let Some(n) = iso_grammar(b, false) {
        if 0 < n && in_delta_range(n) {
            lemma_grammar_to_scan(b, 0, 0, false, n);
        }
    }
}

// ── the ISO 8601 form as `parse_duration` reads it ──────────────────────────

/// `P` (or `p`) in front of `b` trims to itself with the trailing whitespace
/// of `b` cut off.
proof fn lemma_trim_after_p(c: char, b: Seq<char>)
    requires
        c == 'P' || c == 'p',
    ensures
        trim(seq![c] + b) == seq![c] + trim_end(b),
{
    lemma_trim_end_split(b);
    lemma_trim_end_last(b);
    let te = trim_end(b);
    let w = b.skip(te.len() as int);
    let x = seq![c] + te;
    assert(b =~= te + w);
    assert(seq![c] + b =~= x + w);
    lemma_trim_end_suffix(x, w);
    assert(!is_white_space(c));
    if te.len() > 0 {
        assert(x.last() == te.last());
    }
    assert(trim_end(x) == x);
    assert((x + w)[0] == c);
    assert(trim_start(x + w) == x + w);
}

/// `b` with something other than whitespace at its start keeps it when its
/// end is trimmed, and trimming the end of `a + b` trims that of `b`.
proof fn lemma_trim_end_after(a: Seq<char>, b: Seq<char>)
    requires
        b.len() > 0,
        !is_white_space(b[0]),
    ensures
        trim_end(b).len() > 0,
        trim_end(b)[0] == b[0],
        trim_end(a + b) == a + trim_end(b),
{
    lemma_trim_end_split(b);
    lemma_trim_end_last(b);
    let te = trim_end(b);
    let w = b.skip(te.len() as int);
    if te.len() == 0 {
        assert(w[0] == b[0]);
    }
    assert(te[0] == b[0]);
    assert(a + b =~= (a + te) + w);
    lemma_trim_end_suffix(a + te, w);
    assert((a + te).last() == te.last());
    assert(trim_end(a + te) == a + te);
}

/// `parse_duration` reads a string that starts with `P` (or `p`) as the ISO
/// 8601 form of the rest, less its trailing whitespace.
pub proof fn law_parse_duration_reads_iso(c: char, b: Seq<char>)
    requires
        c == 'P' || c == 'p',
    ensures
        spec_parse_duration(seq![c] + b) == spec_iso_duration(trim_end(b)),
{
    lemma_trim_after_p(c, b);
    assert((seq![c] + trim_end(b)).drop_first() =~= trim_end(b));
}

/// The ISO 8601 grammar as `parse_duration` reads it: `P` (or `p`) and then
/// `b`, which ends in other than whitespace, is `x` seconds exactly when `b` is
/// a sequence of tokens (`iso_grammar`) worth `x > 0` seconds, in range; on
/// every other such `b` it is an error.
pub proof fn law_parse_duration_iso_grammar(c: char, b: Seq<char>)
    requires
        c == 'P' || c == 'p',
        b.len() == 0 || !is_white_space(b.last()),
    ensures
        spec_duration_result(seq![c] + b) matches Ok(x) ==> (iso_grammar(b, false) == Some(
            x as int,
        ) && x > 0),
        iso_grammar(b, false) matches Some(n) ==> (0 < n && in_delta_range(n)
            ==> spec_duration_result(seq![c] + b) == Ok::<i64, TimeError>(n as i64)),
{
    law_parse_duration_reads_iso(c, b);
    assert(trim_end(b) == b);
    law_iso_grammar(b);
}

/// `UnknownSuffix`, as `parse_duration` reads the ISO 8601 form `P` (or `p`)
/// and then `b`: it comes only from a character of `b` that is no digit, `T`
/// or unit letter; when `b` has none, every error is `InvalidNumber`.
pub proof fn law_parse_duration_iso_unknown_suffix(c: char, b: Seq<char>)
    requires
        c == 'P' || c == 'p',
    ensures
        spec_duration_result(seq![c] + b) == Err::<i64, TimeError>(TimeError::UnknownSuffix)
            ==> exists|i: int| 0 <= i < b.len() && !is_iso_char(#[trigger] b[i]),
        (forall|i: int| 0 <= i < b.len() ==> is_iso_char(#[trigger] b[i])) ==> (
        spec_duration_result(seq![c] + b) matches Err(e) ==> e == TimeError::InvalidNumber),
{
    law_parse_duration_reads_iso(c, b);
    lemma_trim_end_split(b);
    let te = trim_end(b);
    law_iso_unknown_suffix(te);
    if spec_iso_duration(te) == Some(Err::<i64, TimeError>(TimeError::UnknownSuffix)) {
        let i = choose|i: int| 0 <= i < te.len() && !is_iso_char(#[trigger] te[i]);
        assert(b[i] == te[i]);
    }
    if forall|i: int| 0 <= i < b.len() ==> is_iso_char(#[trigger] b[i]) {
        assert forall|i: int| 0 <= i < te.len() implies is_iso_char(#[trigger] te[i]) by {
            assert(b[i] == te[i]);
        }
    }
}

/// The date and time parts add, as `parse_duration` reads the ISO 8601 form:
/// when `P` and `a` (with no `T`, ending in other than whitespace) is `d1`
/// seconds and `P` and `b` (starting with `T`) is `d2`, then `P`, `a` and `b`
/// is `d1 + d2`, if that is in range.
pub proof fn law_parse_duration_date_and_time_add(
    c: char,
    a: Seq<char>,
    b: Seq<char>,
    d1: i64,
    d2: i64,
)
    requires
        c == 'P' || c == 'p',
        forall|i: int| 0 <= i < a.len() ==> #[trigger] a[i] != 'T' && a[i] != 't',
        a.len() == 0 || !is_white_space(a.last()),
        b.len() > 0,
        b[0] == 'T' || b[0] == 't',
        spec_duration_result(seq![c] + a) == Ok::<i64, TimeError>(d1),
        spec_duration_result(seq![c] + b) == Ok::<i64, TimeError>(d2),
        in_delta_range(d1 + d2),
    ensures
        spec_duration_result(seq![c] + (a + b)) == Ok::<i64, TimeError>((d1 + d2) as i64),
{
    law_parse_duration_reads_iso(c, a);
    law_parse_duration_reads_iso(c, b);
    law_parse_duration_reads_iso(c, a + b);
    assert(trim_end(a) == a);
    assert(!is_white_space(b[0]));
    lemma_trim_end_after(a, b);
    law_iso_date_and_time_add(a, trim_end(b), d1, d2);
}

// ── ASCII case ───────────────────────────────────────────────────────────────

/// Lower-casing keeps every class of character that parsing looks at.
proof fn lemma_lower_char(c: char)
    ensures
        is_ascii_digit(ascii_lower_char(c)) == is_ascii_digit(c),
        is_white_space(ascii_lower_char(c)) == is_white_space(c),
        is_ascii_alpha(ascii_lower_char(c)) == is_ascii_alpha(c),
        ascii_lower_code(ascii_lower_char(c)) == ascii_lower_code(c),
        is_ascii_digit(c) ==> ascii_lower_char(c) == c,
        (ascii_lower_char(c) == '+') == (c == '+'),
        (ascii_lower_char(c) == '-') == (c == '-'),
        (ascii_lower_char(c) == 'P' || ascii_lower_char(c) == 'p') == (c == 'P' || c == 'p'),
        (ascii_lower_char(c) == 'T' || ascii_lower_char(c) == 't') == (c == 'T' || c == 't'),
        crate::duration::iso_unit(ascii_lower_char(c)) == crate::duration::iso_unit(c),
{
}

/// Lower-casing commutes with taking parts of a string.
proof fn lemma_lower_parts(s: Seq<char>)
    ensures
        ascii_lowercase(s).len() == s.len(),
        forall|i: int| 0 <= i < s.len() ==> #[trigger] ascii_lowercase(s)[i] == ascii_lower_char(
            s[i],
        ),
        forall|i: int, j: int|
            0 <= i <= j <= s.len() ==> #[trigger] ascii_lowercase(s).subrange(i, j)
                == ascii_lowercase(s.subrange(i, j)),
{
    assert forall|i: int, j: int| 0 <= i <= j <= s.len() implies #[trigger] ascii_lowercase(
        s,
    ).subrange(i, j) == ascii_lowercase(s.subrange(i, j)) by {
        assert(ascii_lowercase(s).subrange(i, j) =~= ascii_lowercase(s.subrange(i, j)));
    }
}

proof fn lemma_lower_trim_start(s: Seq<char>)
    ensures
        trim_start(ascii_lowercase(s)) == ascii_lowercase(trim_start(s)),
    decreases s.len(),
{
    lemma_lower_parts(s);
    if s.len() > 0 {
        lemma_lower_char(s[0]);
        if is_white_space(s[0]) {
            assert(ascii_lowercase(s).drop_first() =~= ascii_lowercase(s.drop_first()));
            lemma_lower_trim_start(s.drop_first());
        }
    }
}

proof fn lemma_lower_trim_end(s: Seq<char>)
    ensures
        trim_end(ascii_lowercase(s)) == ascii_lowercase(trim_end(s)),
    decreases s.len(),
{
    lemma_lower_parts(s);
    if s.len() > 0 {
        lemma_lower_char(s.last());
        if is_white_space(s.last()) {
            assert(ascii_lowercase(s).drop_last() =~= ascii_lowercase(s.drop_last()));
            lemma_lower_trim_end(s.drop_last());
        }
    }
}

proof fn lemma_lower_trim(s: Seq<char>)
    ensures
        trim(ascii_lowercase(s)) == ascii_lowercase(trim(s)),
{
    lemma_lower_trim_start(s);
    lemma_lower_trim_end(trim_start(s));
}

proof fn lemma_lower_all_digits(s: Seq<char>)
    ensures
        all_digits(ascii_lowercase(s)) == all_digits(s),
        all_digits(s) ==> ascii_lowercase(s) == s,
{
    lemma_lower_parts(s);
    if all_digits(s) {
        assert forall|i: int| 0 <= i < s.len() implies ascii_lowercase(s)[i] == s[i] by {
            lemma_lower_char(s[i]);
        }
        assert(ascii_lowercase(s) =~= s);
    }
    if all_digits(ascii_lowercase(s)) {
        assert forall|i: int| 0 <= i < s.len() implies is_ascii_digit(#[trigger] s[i]) by {
            lemma_lower_char(s[i]);
            assert(is_ascii_digit(ascii_lowercase(s)[i]));
        }
    }
}

proof fn lemma_lower_parse_i64(s: Seq<char>)
    ensures
        spec_parse_i64(ascii_lowercase(s)) == spec_parse_i64(s),
{
    lemma_lower_parts(s);
    if s.len() > 0 {
        lemma_lower_char(s[0]);
        assert(ascii_lowercase(s).drop_first() =~= ascii_lowercase(s.drop_first()));
        lemma_lower_all_digits(s.drop_first());
    }
    lemma_lower_all_digits(s);
}

proof fn lemma_lower_eq_ignore_case(w: Seq<char>, lit: Seq<char>)
    ensures
        crate::text::eq_ignore_ascii_case(ascii_lowercase(w), lit)
            == crate::text::eq_ignore_ascii_case(w, lit),
{
    let l = ascii_lowercase(w);
    lemma_lower_parts(w);
    if crate::text::eq_ignore_ascii_case(w, lit) {
        assert forall|i: int| 0 <= i < l.len() implies ascii_lower_code(#[trigger] l[i])
            == lit[i] as u32 by {
            lemma_lower_char(w[i]);
            assert(ascii_lower_code(w[i]) == lit[i] as u32);
        }
    }
    if crate::text::eq_ignore_ascii_case(l, lit) {
        assert forall|i: int| 0 <= i < w.len() implies ascii_lower_code(#[trigger] w[i])
            == lit[i] as u32 by {
            lemma_lower_char(w[i]);
            assert(ascii_lower_code(l[i]) == lit[i] as u32);
        }
    }
}

proof fn lemma_lower_unit(w: Seq<char>)
    ensures
        unit_seconds(ascii_lowercase(w)) == unit_seconds(w),
{
    lemma_lower_eq_ignore_case(w, seq!['d']);
    lemma_lower_eq_ignore_case(w, seq!['d', 'a', 'y']);
    lemma_lower_eq_ignore_case(w, seq!['d', 'a', 'y', 's']);
    lemma_lower_eq_ignore_case(w, seq!['h']);
    lemma_lower_eq_ignore_case(w, seq!['h', 'r']);
    lemma_lower_eq_ignore_case(w, seq!['h', 'o', 'u', 'r']);
    lemma_lower_eq_ignore_case(w, seq!['h', 'o', 'u', 'r', 's']);
    lemma_lower_eq_ignore_case(w, seq!['m']);
    lemma_lower_eq_ignore_case(w, seq!['m', 'i', 'n']);
    lemma_lower_eq_ignore_case(w, seq!['m', 'i', 'n', 'u', 't', 'e']);
    lemma_lower_eq_ignore_case(w, seq!['m', 'i', 'n', 'u', 't', 'e', 's']);
    lemma_lower_eq_ignore_case(w, seq!['s']);
    lemma_lower_eq_ignore_case(w, seq!['s', 'e', 'c']);
    lemma_lower_eq_ignore_case(w, seq!['s', 'e', 'c', 'o', 'n', 'd']);
    lemma_lower_eq_ignore_case(w, seq!['s', 'e', 'c', 'o', 'n', 'd', 's']);
}

proof fn lemma_lower_human(t: Seq<char>)
    ensures
        human_seconds(ascii_lowercase(t)) == human_seconds(t),
{
    let l = ascii_lowercase(t);
    lemma_lower_parts(t);
    assert forall|p: int| is_first_alpha(l, p) == is_first_alpha(t, p) by {
        if 0 <= p < t.len() {
            lemma_lower_char(t[p]);
            if is_first_alpha(t, p) {
                assert forall|q: int| 0 <= q < p implies !is_ascii_alpha(#[trigger] l[q]) by {
                    lemma_lower_char(t[q]);
                    assert(!is_ascii_alpha(t[q]));
                }
            }
            if is_first_alpha(l, p) {
                assert forall|q: int| 0 <= q < p implies !is_ascii_alpha(#[trigger] t[q]) by {
                    lemma_lower_char(t[q]);
                    assert(!is_ascii_alpha(l[q]));
                }
            }
        }
    }
    assert(first_alpha(l) == first_alpha(t));
    if let Some(p) = first_alpha(t) {
        assert(is_first_alpha(t, p));
        assert(l.take(p) == ascii_lowercase(t.take(p))) by {
            assert(l.take(p) =~= ascii_lowercase(t.take(p)));
        }
        assert(l.skip(p) == ascii_lowercase(t.skip(p))) by {
            assert(l.skip(p) =~= ascii_lowercase(t.skip(p)));
        }
        lemma_lower_trim(t.take(p));
        lemma_lower_trim(t.skip(p));
        lemma_lower_parse_i64(trim(t.take(p)));
        lemma_lower_unit(trim(t.skip(p)));
    }
}

/// A pending number of the scan starts before the characters scanned.
proof fn lemma_iso_scan_start(r: Seq<char>, n: nat)
    ensures
        iso_scan(r, n) matches Ok(st) ==> (st.1 matches Some(s) ==> 0 <= s < n),
    decreases n,
{
    if n > 0 {
        lemma_iso_scan_start(r, (n - 1) as nat);
    }
}

proof fn lemma_lower_iso_scan(r: Seq<char>, n: nat)
    requires
        n <= r.len(),
    ensures
        iso_scan(ascii_lowercase(r), n) == iso_scan(r, n),
    decreases n,
{
    if n > 0 {
        let l = ascii_lowercase(r);
        lemma_lower_iso_scan(r, (n - 1) as nat);
        lemma_iso_scan_start(r, (n - 1) as nat);
        lemma_lower_parts(r);
        let i = n - 1;
        lemma_lower_char(r[i]);
        assert(l[i] == ascii_lower_char(r[i]));
        if let Ok(st) = iso_scan(r, (n - 1) as nat) {
            if let Some(start) = st.1 {
                assert(l.subrange(start, i) == ascii_lowercase(r.subrange(start, i)));
                lemma_lower_parse_i64(r.subrange(start, i));
            }
            assert(crate::duration::iso_step(l, st, i) == crate::duration::iso_step(r, st, i));
        }
    }
}

/// Lower-casing an upper-cased string lower-cases the string.
proof fn lemma_lower_upper(s: Seq<char>)
    ensures
        ascii_lowercase(ascii_uppercase(s)) == ascii_lowercase(s),
{
    assert(ascii_lowercase(ascii_uppercase(s)) =~= ascii_lowercase(s));
}

/// ASCII case makes no difference to a duration: `"7D"` reads as `"7d"`,
/// `"p1dt2h"` as `"P1DT2H"`, in lower case and in upper case alike.
pub proof fn law_duration_ignores_ascii_case(s: Seq<char>)
    ensures
        spec_parse_duration(ascii_lowercase(s)) == spec_parse_duration(s),
        spec_parse_duration(ascii_uppercase(s)) == spec_parse_duration(s),
        spec_duration_result(ascii_lowercase(s)) == spec_duration_result(s),
        spec_duration_result(ascii_uppercase(s)) == spec_duration_result(s),
{
    lemma_duration_lower(s);
    lemma_duration_lower(ascii_uppercase(s));
    lemma_lower_upper(s);
}

proof fn lemma_duration_lower(s: Seq<char>)
    ensures
        spec_parse_duration(ascii_lowercase(s)) == spec_parse_duration(s),
{
    lemma_lower_trim(s);
    let t = trim(s);
    let l = ascii_lowercase(t);
    lemma_lower_parts(t);
    if t.len() > 0 {
        lemma_lower_char(t[0]);
        let r = t.drop_first();
        assert(l.drop_first() == ascii_lowercase(r)) by {
            assert(l.drop_first() =~= ascii_lowercase(r));
        }
        lemma_lower_parts(r);
        lemma_lower_iso_scan(r, r.len());
        lemma_lower_human(t);
    }
}

// ── errors ───────────────────────────────────────────────────────────────────

/// The ISO 8601 scan stops only with `InvalidNumber` or `UnknownSuffix`.
proof fn lemma_iso_scan_errors(r: Seq<char>, n: nat)
    ensures
        iso_scan(r, n) matches Err(Some(e)) ==> (e == TimeError::InvalidNumber || e
            == TimeError::UnknownSuffix),
    decreases n,
{
    if n > 0 {
        lemma_iso_scan_errors(r, (n - 1) as nat);
    }
}

/// A duration fails only with `EmptyInput` (exactly when it is blank),
/// `UnknownSuffix` or `InvalidNumber`; a human-readable one (not starting with
/// `P` or `p`) fails only with `UnknownSuffix`, unless it is out of range.
pub proof fn law_duration_errors(s: Seq<char>)
    ensures
        spec_parse_duration(s) matches Some(Err(e)) ==> (e == TimeError::EmptyInput || e
            == TimeError::UnknownSuffix || e == TimeError::InvalidNumber),
        spec_duration_result(s) matches Err(e) ==> (e == TimeError::EmptyInput || e
            == TimeError::UnknownSuffix || e == TimeError::InvalidNumber),
        (spec_duration_result(s) == Err::<i64, TimeError>(TimeError::EmptyInput)) <==> trim(
            s,
        ).len() == 0,
        trim(s).len() > 0 && trim(s)[0] != 'P' && trim(s)[0] != 'p' ==> (
        spec_parse_duration(s) matches Some(Err(e)) ==> e == TimeError::UnknownSuffix),
{
    let t = trim(s);
    if t.len() > 0 {
        lemma_iso_scan_errors(t.drop_first(), t.drop_first().len());
    }
}

/// A time fails only with `EmptyInput` (exactly when it is blank),
/// `InvalidNumber` (exactly when it is a duration out of range) or
/// `InvalidDate`: an unknown unit makes it an absolute time, and no absolute
/// format matches.
pub proof fn law_time_errors(now: (i64, u32), s: Seq<char>)
    ensures
        spec_parse_time(now, s) matches Err(e) ==> (e == TimeError::EmptyInput || e
            == TimeError::InvalidNumber || e == TimeError::InvalidDate),
        (spec_parse_time(now, s) == Err::<(i64, u32), TimeError>(TimeError::InvalidNumber)) <==> (
        trim(s).len() > 0 && (human_seconds(trim(s)) matches Some(d) && !in_delta_range(d))),
        (spec_parse_time(now, s) == Err::<(i64, u32), TimeError>(TimeError::EmptyInput)) <==> trim(
            s,
        ).len() == 0,
{
}

/// A filter fails with `MissingOperator` exactly when it does not start with
/// an operator, and otherwise only as its time does.
pub proof fn law_filter_errors(now: (i64, u32), s: Seq<char>)
    ensures
        (spec_parse_time_filter(now, s) == Err::<(TimeOp, (i64, u32)), TimeError>(
            TimeError::MissingOperator,
        )) <==> split_op(trim(s)) is None,
        spec_parse_time_filter(now, s) matches Err(e) ==> (e == TimeError::MissingOperator || e
            == TimeError::EmptyInput || e == TimeError::InvalidNumber || e
            == TimeError::InvalidDate),
{
    if let Some((op, rest)) = split_op(trim(s)) {
        law_time_errors(now, rest);
    }
}

// ── reading filters back ─────────────────────────────────────────────────────

/// A string with something other than whitespace at its end keeps it.
proof fn lemma_trim_end_last(s: Seq<char>)
    ensures
        trim_end(s).len() > 0 ==> !is_white_space(trim_end(s).last()),
    decreases s.len(),
{
    if s.len() > 0 && is_white_space(s.last()) {
        lemma_trim_end_last(s.drop_last());
    }
}

/// An operator's symbol in front of `t` trims to the symbol, `t` trimmed at
/// its end, and reads as that operator with that rest.
proof fn lemma_symbol_split(op: TimeOp, t: Seq<char>)
    requires
        t.len() == 0 || t[0] != '=',
    ensures
        trim(op_symbol(op) + t) == op_symbol(op) + trim_end(t),
        split_op(op_symbol(op) + trim_end(t)) == Some((op, trim_end(t))),
{
    let sym = op_symbol(op);
    let s = sym + t;
    lemma_trim_end_split(t);
    let te = trim_end(t);
    let w = t.skip(te.len() as int);
    assert(t =~= te + w);
    assert(s =~= (sym + te) + w);
    lemma_trim_end_suffix(sym + te, w);
    lemma_trim_end_last(t);
    let x = sym + te;
    assert(x.last() == if te.len() > 0 {
        te.last()
    } else {
        sym.last()
    });
    assert(trim_end(x) == x);
    assert(s[0] == sym[0]);
    assert(trim_start(s) == s);
    if te.len() > 0 {
        assert(te[0] == t[0]);
    }
    assert(x.skip(sym.len() as int) =~= te);
    if sym.len() == 1 && te.len() > 0 {
        assert(x[1] == te[0]);
    }
}

/// The operator's symbol in front of a time reads back as that operator and
/// that time, unless the time starts with `=` (which would join the symbol).
pub proof fn law_filter_operator_read_back(now: (i64, u32), op: TimeOp, t: Seq<char>)
    requires
        t.len() == 0 || t[0] != '=',
    ensures
        spec_parse_time_filter(now, op_symbol(op) + t) == match spec_parse_time(now, t) {
            Ok(x) => Ok::<(TimeOp, (i64, u32)), TimeError>((op, x)),
            Err(e) => Err(e),
        },
{
    lemma_symbol_split(op, t);
    lemma_trim_of_trim_end(t);
    assert(spec_parse_time(now, trim_end(t)) == spec_parse_time(now, t));
}

/// An operator's symbol in front of a time written as `%Y-%m-%d %H:%M:%S`
/// reads back as that operator and the instant that chrono parses the time to,
/// whatever the present.
pub proof fn law_datetime_text_read_back(
    now: (i64, u32),
    op: TimeOp,
    text: Seq<char>,
    u: (i64, u32),
)
    requires
        is_datetime_text(text),
        naive_datetime_parse(text, datetime_format()) == Some(u),
    ensures
        spec_parse_time_filter(now, op_symbol(op) + text) == Ok::<(TimeOp, (i64, u32)), TimeError>(
            (op, u),
        ),
{
    let n = text.len() as int;
    let y = text.take(n - 15);
    assert(y[0] == text[0]);
    assert(is_ascii_digit(text[n - 15 + 14]));
    assert forall|i: int| 0 <= i < n implies !is_ascii_alpha(#[trigger] text[i]) by {
        if i < n - 15 {
            assert(text[i] == y[i]);
            if i > 0 && (y[0] == '+' || y[0] == '-') && !all_digits(y) {
                assert(y.drop_first()[i - 1] == y[i]);
            }
        } else {
            let k = i - (n - 15);
            assert(text[n - 15 + k] == text[i]);
        }
    }
    law_filter_operator_read_back(now, op, text);
    lemma_trim_noop(text);
    assert(!exists|p: int| is_first_alpha(text, p));
    // A time with a `-` in it is no bare number.
    let signed = text[0] == '+' || text[0] == '-';
    let ds = if signed {
        text.drop_first()
    } else {
        text
    };
    if signed {
        assert(ds[n - 16] == text[n - 15]);
    } else {
        assert(ds[n - 15] == text[n - 15]);
    }
    assert(!all_digits(ds));
}

// ── the order of instants ───────────────────────────────────────────────────

/// Each operator compares instants in time order: by their seconds since the
/// Unix epoch, then by their nanoseconds; `value op threshold`.
pub proof fn law_ops_follow_time_order(value: (i64, u32), threshold: (i64, u32))
    ensures
        op_holds(TimeOp::Lt, value, threshold) <==> (value.0 < threshold.0 || (value.0
            == threshold.0 && value.1 < threshold.1)),
        op_holds(TimeOp::Le, value, threshold) <==> (value.0 < threshold.0 || (value.0
            == threshold.0 && value.1 <= threshold.1)),
        op_holds(TimeOp::Gt, value, threshold) <==> (value.0 > threshold.0 || (value.0
            == threshold.0 && value.1 > threshold.1)),
        op_holds(TimeOp::Ge, value, threshold) <==> (value.0 > threshold.0 || (value.0
            == threshold.0 && value.1 >= threshold.1)),
        op_holds(TimeOp::Eq, value, threshold) <==> (value.0 == threshold.0 && value.1
            == threshold.1),
{
}

// ── the units of the human-readable form ────────────────────────────────────

/// The seconds that `v` of a unit worth `u` seconds give as a duration:
/// `InvalidNumber` when they are out of range.
pub open spec fn amount_of(v: int, u: int) -> TimeResult<i64> {
    if in_delta_range(v * u) {
        Ok((v * u) as i64)
    } else {
        Err(TimeError::InvalidNumber)
    }
}

/// A word whose letters are those of `lit` (small ASCII letters) in either
/// case is made of ASCII letters.
proof fn lemma_spelled(w: Seq<char>, lit: Seq<char>)
    requires
        eq_ignore_ascii_case(w, lit),
        forall|i: int| 0 <= i < lit.len() ==> 'a' <= #[trigger] lit[i] <= 'z',
    ensures
        forall|i: int| 0 <= i < w.len() ==> is_ascii_alpha(#[trigger] w[i]),
{
    assert forall|i: int| 0 <= i < w.len() implies is_ascii_alpha(#[trigger] w[i]) by {
        let c = w[i];
        assert(ascii_lower_code(c) == lit[i] as u32);
        assert('a' <= lit[i] <= 'z');
        if !('A' <= c && c <= 'Z') {
            assert(c as u32 == lit[i] as u32);
            vstd::utf8::char_u32_cast(c, c as u32);
            vstd::utf8::char_u32_cast(lit[i], lit[i] as u32);
            assert(c == lit[i]);
        }
        assert(is_ascii_alpha(c));
    }
}

/// Digits, then whitespace, then a unit word read as that many of the unit.
proof fn lemma_number_and_word(n: Seq<char>, sp: Seq<char>, w: Seq<char>, u: int)
    requires
        n.len() > 0,
        all_digits(n),
        digits_value(n) <= i64::MAX,
        all_white_space(sp),
        w.len() > 0,
        forall|i: int| 0 <= i < w.len() ==> is_ascii_alpha(#[trigger] w[i]),
        unit_seconds(w) == Some(u),
    ensures
        spec_duration_result(n + sp + w) == amount_of(digits_value(n), u),
{
    let t = n + sp + w;
    let p = (n.len() + sp.len()) as int;
    assert(is_ascii_alpha(w[0]));
    assert(t[p] == w[0]);
    assert forall|q: int| 0 <= q < p implies !is_ascii_alpha(#[trigger] t[q]) by {
        if q < n.len() {
            assert(t[q] == n[q]);
            assert(is_ascii_digit(n[q]));
        } else {
            assert(t[q] == sp[q - n.len()]);
            assert(is_white_space(sp[q - n.len()]));
        }
    }
    assert(is_first_alpha(t, p));
    assert(first_alpha(t) == Some(p)) by {
        let c = choose|q: int| is_first_alpha(t, q);
        assert(is_first_alpha(t, c));
        if c < p {
            assert(!is_ascii_alpha(t[c]));
        } else if c > p {
            assert(!is_ascii_alpha(t[p]));
        }
    }
    assert(t.take(p) =~= n + sp);
    assert(t.skip(p) =~= w);
    assert(is_ascii_digit(n[0]) && is_ascii_digit(n.last()));
    assert(is_ascii_alpha(w.last()));
    lemma_trim_noop(n);
    lemma_trim_noop(w);
    lemma_trim_end_suffix(n, sp);
    assert(trim_start(n + sp) == n + sp) by {
        assert((n + sp)[0] == n[0]);
    }
    lemma_parse_digits(n);
    assert(t[0] == n[0]);
    assert(t.last() == w.last());
    lemma_trim_noop(t);
    crate::text::lemma_digits_value_nonneg(n);
}

/// Every spelling of a unit, in either ASCII case and after a number with or
/// without whitespace between, is worth that unit's seconds: `d`, `day`,
/// `days` a day of 86400 seconds; `h`, `hr`, `hour`, `hours` an hour of 3600;
/// `m`, `min`, `minute`, `minutes` a minute of 60; `s`, `sec`, `second`,
/// `seconds` one second.
pub proof fn law_unit_words(n: Seq<char>, sp: Seq<char>, w: Seq<char>)
    requires
        n.len() > 0,
        all_digits(n),
        digits_value(n) <= i64::MAX,
        all_white_space(sp),
    ensures
        eq_ignore_ascii_case(w, seq!['d']) || eq_ignore_ascii_case(w, seq!['d', 'a', 'y'])
            || eq_ignore_ascii_case(w, seq!['d', 'a', 'y', 's']) ==> spec_duration_result(
            n + sp + w,
        ) == amount_of(digits_value(n), 86_400),
        eq_ignore_ascii_case(w, seq!['h']) || eq_ignore_ascii_case(w, seq!['h', 'r'])
            || eq_ignore_ascii_case(w, seq!['h', 'o', 'u', 'r']) || eq_ignore_ascii_case(
            w,
            seq!['h', 'o', 'u', 'r', 's'],
        ) ==> spec_duration_result(n + sp + w) == amount_of(digits_value(n), 3_600),
        eq_ignore_ascii_case(w, seq!['m']) || eq_ignore_ascii_case(w, seq!['m', 'i', 'n'])
            || eq_ignore_ascii_case(w, seq!['m', 'i', 'n', 'u', 't', 'e'])
            || eq_ignore_ascii_case(w, seq!['m', 'i', 'n', 'u', 't', 'e', 's'])
            ==> spec_duration_result(n + sp + w) == amount_of(digits_value(n), 60),
        eq_ignore_ascii_case(w, seq!['s']) || eq_ignore_ascii_case(w, seq!['s', 'e', 'c'])
            || eq_ignore_ascii_case(w, seq!['s', 'e', 'c', 'o', 'n', 'd'])
            || eq_ignore_ascii_case(w, seq!['s', 'e', 'c', 'o', 'n', 'd', 's'])
            ==> spec_duration_result(n + sp + w) == amount_of(digits_value(n), 1),
{
    let words: Seq<Seq<char>> = seq![
        seq!['d'],
        seq!['d', 'a', 'y'],
        seq!['d', 'a', 'y', 's'],
        seq!['h'],
        seq!['h', 'r'],
        seq!['h', 'o', 'u', 'r'],
        seq!['h', 'o', 'u', 'r', 's'],
        seq!['m'],
        seq!['m', 'i', 'n'],
        seq!['m', 'i', 'n', 'u', 't', 'e'],
        seq!['m', 'i', 'n', 'u', 't', 'e', 's'],
        seq!['s'],
        seq!['s', 'e', 'c'],
        seq!['s', 'e', 'c', 'o', 'n', 'd'],
        seq!['s', 'e', 'c', 'o', 'n', 'd', 's'],
    ];
    let secs: Seq<int> = seq![
        86_400, 86_400, 86_400, 3_600, 3_600, 3_600, 3_600, 60, 60, 60, 60, 1, 1, 1, 1,
    ];
    assert forall|k: int| 0 <= k < 15 && #[trigger] eq_ignore_ascii_case(w, words[k]) implies
        spec_duration_result(n + sp + w) == amount_of(digits_value(n), secs[k]) by {
        let lit = words[k];
        assert(forall|i: int| 0 <= i < lit.len() ==> 'a' <= #[trigger] lit[i] <= 'z');
        lemma_spelled(w, lit);
        assert(w.len() == lit.len());
        assert(ascii_lower_code(w[0]) == lit[0] as u32);
        if lit.len() > 1 {
            assert(ascii_lower_code(w[1]) == lit[1] as u32);
        }
        if lit.len() > 2 {
            assert(ascii_lower_code(w[2]) == lit[2] as u32);
        }
        assert(unit_seconds(w) == Some(secs[k]));
        lemma_number_and_word(n, sp, w, secs[k]);
    }
    assert(words[0] == seq!['d']);
    assert(words[1] == seq!['d', 'a', 'y']);
    assert(words[2] == seq!['d', 'a', 'y', 's']);
    assert(words[3] == seq!['h']);
    assert(words[4] == seq!['h', 'r']);
    assert(words[5] == seq!['h', 'o', 'u', 'r']);
    assert(words[6] == seq!['h', 'o', 'u', 'r', 's']);
    assert(words[7] == seq!['m']);
    assert(words[8] == seq!['m', 'i', 'n']);
    assert(words[9] == seq!['m', 'i', 'n', 'u', 't', 'e']);
    assert(words[10] == seq!['m', 'i', 'n', 'u', 't', 'e', 's']);
    assert(words[11] == seq!['s']);
    assert(words[12] == seq!['s', 'e', 'c']);
    assert(words[13] == seq!['s', 'e', 'c', 'o', 'n', 'd']);
    assert(words[14] == seq!['s', 'e', 'c', 'o', 'n', 'd', 's']);
}

// ── absolute times ──────────────────────────────────────────────────────────

/// An absolute time is the instant that chrono reads from the text, taken as
/// UTC and unchanged, under the first of the forms `%Y-%m-%d %H:%M:%S`,
/// `%Y-%m-%d %H:%M` and `%Y-%m-%d` (at midnight) that reads it; a text that
/// none of them reads is `InvalidDate`.
pub proof fn law_absolute_is_chrono_reading(t: Seq<char>)
    ensures
        naive_datetime_parse(t, "%Y-%m-%d %H:%M:%S"@) matches Some(x) ==> spec_absolute(t) == Ok::<
            (i64, u32),
            TimeError,
        >(x),
        naive_datetime_parse(t, "%Y-%m-%d %H:%M:%S"@) is None ==> (naive_datetime_parse(
            t,
            "%Y-%m-%d %H:%M"@,
        ) matches Some(x) ==> spec_absolute(t) == Ok::<(i64, u32), TimeError>(x)),
        (naive_datetime_parse(t, "%Y-%m-%d %H:%M:%S"@) is None && naive_datetime_parse(
            t,
            "%Y-%m-%d %H:%M"@,
        ) is None) ==> (naive_date_parse(t, "%Y-%m-%d"@) matches Some(m) ==> spec_absolute(t)
            == Ok::<(i64, u32), TimeError>((m, 0u32))),
        (naive_datetime_parse(t, "%Y-%m-%d %H:%M:%S"@) is None && naive_datetime_parse(
            t,
            "%Y-%m-%d %H:%M"@,
        ) is None && naive_date_parse(t, "%Y-%m-%d"@) is None) ==> spec_absolute(t) == Err::<
            (i64, u32),
            TimeError,
        >(TimeError::InvalidDate),
{
}

/// A time with no ASCII letter and a `-` after its first character (a date)
/// is neither a relative time nor a bare zero: whatever the present, it reads
/// as the absolute time of its text.
pub proof fn law_dated_text_is_absolute(now: (i64, u32), t: Seq<char>, k: int)
    requires
        trim(t) == t,
        1 <= k < t.len(),
        t[k] == '-',
        forall|i: int| 0 <= i < t.len() ==> !is_ascii_alpha(#[trigger] t[i]),
    ensures
        spec_parse_time(now, t) == spec_absolute(t),
{
    assert(!exists|p: int| is_first_alpha(t, p));
    assert(human_seconds(t) is None);
    let signed = t[0] == '+' || t[0] == '-';
    let ds = if signed {
        t.drop_first()
    } else {
        t
    };
    if signed {
        assert(ds[k - 1] == t[k]);
    } else {
        assert(ds[k] == t[k]);
    }
    assert(!all_digits(ds));
    assert(spec_parse_i64(t) is None);
}

} // verus!
