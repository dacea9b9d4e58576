//! `timefilter`: human-readable time strings, time filters and durations.
//!
//! Handles strings like `">=7d"`, `"<2h"`, `"2024-05-01"`: parsing them into
//! instants ([`UtcTime`]) and applying comparison filters ([`TimeFilter`]).
//! Durations are parsed in a human-readable form (`"7d"`, `"2 hours"`) and in
//! the ISO 8601 form (`"P1DT12H"`).

pub mod duration;
pub mod error;
pub mod filter;
pub mod instant;
pub mod laws;
pub mod parse;
pub mod prelude;
pub mod text;

pub use duration::{parse_duration, Duration};
pub use error::{TimeError, TimeResult};
pub use filter::{format_datetime, TimeFilter, TimeOp};
pub use instant::UtcTime;
pub use parse::{parse_time, parse_time_at, parse_time_filter, parse_time_filter_at};
