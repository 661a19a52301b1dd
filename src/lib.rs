//! Reads a millisecond UNIX timestamp out of noisy text and renders it as an
//! RFC 3339 date-time in UTC.

pub mod extract;
pub mod decimal;
pub mod error;
pub mod instant;
pub mod pipeline;

pub use decimal::{parse_i64, parse_timestamp_millis};
pub use error::UnmillisError;
pub use extract::{extract_numeral, not_ascii_digit};
pub use instant::{
    datetime_utc_from_timestamp_millis, rfc3339_from_timestamp_millis, split_timestamp_millis,
    UtcDateTime, MAX_TIMESTAMP_MILLIS, MAX_TIMESTAMP_SECS, MIN_TIMESTAMP_MILLIS,
    MIN_TIMESTAMP_SECS,
};
pub use pipeline::rfc3339_from_input;
