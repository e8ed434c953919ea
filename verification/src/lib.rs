//! Timestamp differencing for semi-structured text logs.
//!
//! A log holds one calendar-date anchor (`YYYY/MM/DD`) and any number of
//! time-of-day stamps (`HH:MM:SS.mmm` followed by a signed four-digit UTC
//! offset).  The engine reconstructs an absolute instant for every stamp,
//! normalizes it to UTC, and folds the sequence into the stream of
//! non-negative millisecond gaps between consecutive instants, recording the
//! indices where a gap is exactly zero.

pub mod engine;
pub mod instant;
pub mod scan;

pub use engine::average_gap;
pub use engine::parse_join_dates;
pub use engine::ParseError;

