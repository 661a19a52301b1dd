//! Why a conversion can fail.

use vstd::prelude::*;

verus! {

/// The ways in which a timestamp can be rejected.
#[derive(Debug)]
pub enum UnmillisError {
    /// No 64-bit integer could be read; holds what was left after trimming the noise.
    ParseFailure { numeral: String },
    /// The instant lies outside the range of the calendar; holds the milliseconds.
    OutOfRange { millis: i64 },
}

} // verus!
