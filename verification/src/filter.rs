//! Comparison operators and time filters, and the display of instants.

use vstd::prelude::*;
use vstd::string::*;
use crate::error::TimeError;
use crate::instant::{
    datetime_format, format_local, format_utc, four_digit_year, instant_lt, local_datetime_text,
    utc_format, UtcTime, NANOS_PER_SEC,
};
use crate::laws::law_datetime_text_read_back;
use crate::parse::spec_parse_time_filter;

verus! {

/// Time comparison operator.
#[derive(Debug, Clone, Copy, PartialEq, Eq, PartialOrd, Ord, Hash, Structural)]
pub enum TimeOp {
    /// Greater than (`>`)
    Gt,
    /// Greater than or equal to (`>=`)
    Ge,
    /// Less than (`<`)
    Lt,
    /// Less than or equal to (`<=`)
    Le,
    /// Equal to (`=`)
    Eq,
}

/// The symbol that displays an operator.
pub open spec fn op_symbol(op: TimeOp) -> Seq<char> {
    match op {
        TimeOp::Gt => seq!['>'],
        TimeOp::Ge => seq!['>', '='],
        TimeOp::Lt => seq!['<'],
        TimeOp::Le => seq!['<', '='],
        TimeOp::Eq => seq!['='],
    }
}

/// Whether `value op threshold` holds, instants being ordered in time.
pub open spec fn op_holds(op: TimeOp, value: (i64, u32), threshold: (i64, u32)) -> bool {
    match op {
        TimeOp::Gt => instant_lt(threshold, value),
        TimeOp::Ge => !instant_lt(value, threshold),
        TimeOp::Lt => instant_lt(value, threshold),
        TimeOp::Le => !instant_lt(threshold, value),
        TimeOp::Eq => value == threshold,
    }
}

impl TimeOp {
    /// All variants, in declaration order.
    pub const ALL: [TimeOp; 5] = [TimeOp::Gt, TimeOp::Ge, TimeOp::Lt, TimeOp::Le, TimeOp::Eq];

    /// Apply this operator to two instants: `value op threshold`.
    pub fn applies(self, value: UtcTime, threshold: UtcTime) -> (b: bool)
        ensures
            b == op_holds(self, value@, threshold@),
    {
        let (vs, vn) = (value.timestamp(), value.timestamp_subsec_nanos());
        let (ts, tn) = (threshold.timestamp(), threshold.timestamp_subsec_nanos());
        let before = vs < ts || (vs == ts && vn < tn);
        let after = ts < vs || (ts == vs && tn < vn);
        match self {
            TimeOp::Gt => after,
            TimeOp::Ge => !before,
            TimeOp::Lt => before,
            TimeOp::Le => !after,
            TimeOp::Eq => vs == ts && vn == tn,
        }
    }

    /// The operator's symbol, as its display text.
    pub fn to_string(&self) -> (r: String)
        ensures
            r@ == op_symbol(*self),
    {
        let r = match self {
            TimeOp::Gt => String::from_str(">"),
            TimeOp::Ge => String::from_str(">="),
            TimeOp::Lt => String::from_str("<"),
            TimeOp::Le => String::from_str("<="),
            TimeOp::Eq => String::from_str("="),
        };
        proof {
            reveal_strlit(">");
            reveal_strlit(">=");
            reveal_strlit("<");
            reveal_strlit("<=");
            reveal_strlit("=");
        }
        r
    }
}

/// A time filter: an operator and a threshold instant (e.g. `>=7d`,
/// `<2026-05-01`). Its view is the pair of the two.
#[derive(Debug, Clone, Copy, PartialEq, Eq, Hash)]
pub struct TimeFilter {
    op: TimeOp,
    time: UtcTime,
}

impl View for TimeFilter {
    type V = (TimeOp, (i64, u32));

    closed spec fn view(&self) -> (TimeOp, (i64, u32)) {
        (self.op, self.time@)
    }
}

impl TimeFilter {
    /// Create a new filter from an operator and threshold time.
    pub fn new(op: TimeOp, time: UtcTime) -> (f: TimeFilter)
        ensures
            f@ == (op, time@),
    {
        TimeFilter { op, time }
    }

    /// Get the comparison operator.
    pub fn op(self) -> (r: TimeOp)
        ensures
            r == self@.0,
    {
        self.op
    }

    /// Get the threshold time.
    pub fn time(self) -> (r: UtcTime)
        ensures
            r@ == self@.1,
    {
        self.time
    }

    /// Filter: `value > threshold`.
    pub fn gt(time: UtcTime) -> (f: TimeFilter)
        ensures
            f@ == (TimeOp::Gt, time@),
    {
        TimeFilter { op: TimeOp::Gt, time }
    }

    /// Filter: `value >= threshold`.
    pub fn ge(time: UtcTime) -> (f: TimeFilter)
        ensures
            f@ == (TimeOp::Ge, time@),
    {
        TimeFilter { op: TimeOp::Ge, time }
    }

    /// Filter: `value < threshold`.
    pub fn lt(time: UtcTime) -> (f: TimeFilter)
        ensures
            f@ == (TimeOp::Lt, time@),
    {
        TimeFilter { op: TimeOp::Lt, time }
    }

    /// Filter: `value <= threshold`.
    pub fn le(time: UtcTime) -> (f: TimeFilter)
        ensures
            f@ == (TimeOp::Le, time@),
    {
        TimeFilter { op: TimeOp::Le, time }
    }

    /// Filter: `value == threshold`.
    pub fn eq(time: UtcTime) -> (f: TimeFilter)
        ensures
            f@ == (TimeOp::Eq, time@),
    {
        TimeFilter { op: TimeOp::Eq, time }
    }

    /// Check whether `value` passes this filter.
    pub fn matches(self, value: UtcTime) -> (b: bool)
        ensures
            b == op_holds(self@.0, value@, self@.1),
    {
        self.op.applies(value, self.time)
    }

    /// The display text: the operator's symbol, then the threshold in the
    /// local time zone (see [`format_datetime`]).
    pub fn to_string(&self) -> (r: String)
        ensures
            r@.len() >= op_symbol(self@.0).len(),
            r@.take(op_symbol(self@.0).len() as int) == op_symbol(self@.0),
            local_datetime_text(self@.1, r@.skip(op_symbol(self@.0).len() as int)),
    {
        let mut r = self.op.to_string();
        let local = format_datetime(&self.time);
        r.append(local.as_str());
        assert(r@.take(op_symbol(self@.0).len() as int) =~= op_symbol(self@.0));
        assert(r@.skip(op_symbol(self@.0).len() as int) =~= local@);
        r
    }

    /// The text that stores the filter without loss of its time zone: the
    /// operator's symbol, then the threshold in UTC as `%Y-%m-%d %H:%M:%S`.
    /// For a threshold in the years 0 to 9999 that is no leap second, the text
    /// reads back, whatever the present, as the same operator and the
    /// threshold's whole second.
    pub fn to_utc_string(&self) -> (r: String)
        ensures
            r@ == op_symbol(self@.0) + utc_format(self@.1.0, self@.1.1, datetime_format()),
            (four_digit_year(self@.1.0 as int) && self@.1.1 < NANOS_PER_SEC) ==> forall|
                now: (i64, u32),
            |
                #[trigger] spec_parse_time_filter(now, r@) == Ok::<
                    (TimeOp, (i64, u32)),
                    TimeError,
                >((self@.0, (self@.1.0, 0u32))),
    {
        let mut r = self.op.to_string();
        let utc = format_utc(self.time, "%Y-%m-%d %H:%M:%S");
        r.append(utc.as_str());
        proof {
            if four_digit_year(self@.1.0 as int) && self@.1.1 < NANOS_PER_SEC {
                assert forall|now: (i64, u32)|
                    #[trigger] spec_parse_time_filter(now, r@) == Ok::<
                        (TimeOp, (i64, u32)),
                        TimeError,
                    >((self@.0, (self@.1.0, 0u32))) by {
                    law_datetime_text_read_back(now, self@.0, utc@, (self@.1.0, 0u32));
                }
            }
        }
        r
    }
}

/// Format an instant for display in the **local time zone**, as
/// `%Y-%m-%d %H:%M:%S`: a year, then `-MM-DD hh:mm:ss`.
pub fn format_datetime(dt: &UtcTime) -> (r: String)
    ensures
        local_datetime_text(dt@, r@),
{
    format_local(*dt, "%Y-%m-%d %H:%M:%S")
}

} // verus!
