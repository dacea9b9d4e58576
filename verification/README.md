# timefilter

Human-readable time strings, time filters and durations, verified with Verus.

- `parse_time` / `parse_time_at`: `"7d"`, `"2 hours"`, `"-1h"` (relative to the
  present) or `"2024-05-01"`, `"2024-05-01 10:00"`, `"2024-05-01 10:00:00"` (UTC).
- `parse_time_filter` / `parse_time_filter_at`: an operator (`>=`, `>`, `<=`,
  `<`, `=`) followed by a time, giving a `TimeFilter`.
- `parse_duration`: `"7d"`, `"30 min"`, or ISO 8601 `"P1DT12H"`.
- `TimeOp::applies`, `TimeFilter::matches`: comparisons of instants.

Layout:

- `src/text.rs`: whitespace trimming, ASCII helpers, `i64` parsing.
- `src/duration.rs`: durations in both forms, with their specifications.
- `src/instant.rs`: `UtcTime` and the calls into `chrono`.
- `src/parse.rs`: times and filters.
- `src/filter.rs`: `TimeOp`, `TimeFilter`, display.
- `src/error.rs`: `TimeError`.
- `src/laws.rs`: properties of the library as a whole.
- `app/lib.rs`: conversions to and from `chrono`, `Display`/`Error` for the
  error, and serde support for filters.
