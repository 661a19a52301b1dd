//! From a raw argument to RFC 3339 text.

use vstd::prelude::*;

use crate::decimal::{i64_value, parse_timestamp_millis};
use crate::error::UnmillisError;
use crate::extract::numeral_of;
use crate::instant::{
    millis_in_range, nanos_of_millis, rfc3339_from_timestamp_millis, rfc3339_text,
    secs_of_millis,
};

verus! {

/// Reads the millisecond timestamp hidden in `val` and renders it as RFC 3339
/// text in UTC.
pub fn rfc3339_from_input(val: &str) -> (r: Result<String, UnmillisError>)
    ensures
        match i64_value(numeral_of(val@)) {
            None => match r {
                Err(UnmillisError::ParseFailure { numeral }) => numeral@ == numeral_of(val@),
                _ => false,
            },
            Some(m) => if millis_in_range(m as int) {
                r matches Ok(s) && s@ == rfc3339_text(
                    secs_of_millis(m as int),
                    nanos_of_millis(m as int),
                )
            } else {
                r == Err::<String, UnmillisError>(UnmillisError::OutOfRange { millis: m })
            },
        },
{
    let millis = parse_timestamp_millis(val)?;
    rfc3339_from_timestamp_millis(millis)
}

} // verus!
