//! Easy import of the crate's most common items.

pub use crate::{TimeError, TimeFilter, TimeOp, TimeResult, UtcTime};
pub use crate::{format_datetime, parse_duration, parse_time, parse_time_filter};
