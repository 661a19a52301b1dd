//! Splitting milliseconds into an instant, mapping it onto the calendar and
//! rendering it as RFC 3339 text.

use vstd::prelude::*;

use crate::error::UnmillisError;

verus! {

/// The first second that the calendar holds: -262143-01-01T00:00:00Z.
pub const MIN_TIMESTAMP_SECS: i64 = -8334601228800;

/// The last whole second that the calendar holds: +262142-12-31T23:59:59Z.
pub const MAX_TIMESTAMP_SECS: i64 = 8210266876799;

/// The first millisecond that the calendar holds.
pub const MIN_TIMESTAMP_MILLIS: i64 = -8334601228800000;

/// The last millisecond that the calendar holds.
pub const MAX_TIMESTAMP_MILLIS: i64 = 8210266876799999;

/// Whole seconds in `m` milliseconds, rounded toward negative infinity.
pub open spec fn secs_of_millis(m: int) -> int {
    m / 1000
}

/// Nanoseconds that remain past `secs_of_millis(m)`.
pub open spec fn nanos_of_millis(m: int) -> int {
    (m % 1000) * 1_000_000
}

/// The milliseconds since the epoch of an instant, leftover nanoseconds
/// truncated.
pub open spec fn instant_millis(secs: int, nanos: int) -> int {
    secs * 1000 + nanos / 1_000_000
}

/// An instant that the calendar can hold.
pub open spec fn instant_in_range(secs: int, nanos: int) -> bool {
    MIN_TIMESTAMP_SECS <= secs <= MAX_TIMESTAMP_SECS && 0 <= nanos < 1_000_000_000
}

/// A millisecond timestamp that the calendar can hold.
pub open spec fn millis_in_range(m: int) -> bool {
    MIN_TIMESTAMP_MILLIS <= m <= MAX_TIMESTAMP_MILLIS
}

/// The RFC 3339 text of an instant, offset `+00:00`.
pub uninterp spec fn rfc3339_text(secs: int, nanos: int) -> Seq<char>;

/// Relies on num_integer::div_mod_floor: the quotient rounded toward negative
/// infinity and the remainder that goes with it (of the divisor's sign).
#[verifier::external_body]
fn div_mod_floor_i64(x: i64, y: i64) -> (r: (i64, i64))
    requires
        y > 0,
    ensures
        r.0 == x as int / y as int,
        r.1 == x as int % y as int,
{
    num_integer::div_mod_floor(x, y)
}

/// Relies on chrono's DateTime::from_timestamp: it builds an instant exactly
/// when the seconds fall on a day from NaiveDate::MIN to NaiveDate::MAX, for
/// nanoseconds under one second.
#[verifier::external_body]
fn calendar_holds(secs: i64, nanos: u32) -> (r: bool)
    requires
        nanos < 1_000_000_000,
    ensures
        r == (MIN_TIMESTAMP_SECS <= secs <= MAX_TIMESTAMP_SECS),
{
    chrono::DateTime::from_timestamp(secs, nanos).is_some()
}

/// Relies on chrono's DateTime::to_rfc3339, applied to the instant that
/// DateTime::from_timestamp builds from the same seconds and nanoseconds: the
/// text depends on those two numbers alone.
#[verifier::external_body]
fn rfc3339_of(secs: i64, nanos: u32) -> (r: String)
    requires
        instant_in_range(secs as int, nanos as int),
    ensures
        r@ == rfc3339_text(secs as int, nanos as int),
{
    match chrono::DateTime::from_timestamp(secs, nanos) {
        Some(dt) => dt.to_rfc3339(),
        None => String::new(),
    }
}

/// Splits milliseconds into whole seconds, rounded toward negative infinity,
/// and the nanoseconds past them, which are never negative.
pub fn split_timestamp_millis(millis: i64) -> (r: (i64, u32))
    ensures
        r.0 == secs_of_millis(millis as int),
        r.1 == nanos_of_millis(millis as int),
        0 <= r.1 <= 999_000_000,
        r.1 % 1_000_000 == 0,
{
    let (secs, rem_millis) = div_mod_floor_i64(millis, 1000);
    assert(0 <= rem_millis < 1000);
    let nanos = (rem_millis * 1_000_000) as u32;
    (secs, nanos)
}

/// An instant in UTC that the calendar can hold.
pub struct UtcDateTime {
    secs: i64,
    nanos: u32,
}

impl View for UtcDateTime {
    /// Seconds since the epoch and nanoseconds past them.
    type V = (int, int);

    closed spec fn view(&self) -> (int, int) {
        (self.secs as int, self.nanos as int)
    }
}

impl UtcDateTime {
    #[verifier::type_invariant]
    spec fn inv(self) -> bool {
        instant_in_range(self.secs as int, self.nanos as int)
    }

    /// Seconds since the epoch.
    pub fn timestamp(&self) -> (r: i64)
        ensures
            r == self@.0,
    {
        self.secs
    }

    /// Nanoseconds past `timestamp()`.
    pub fn timestamp_subsec_nanos(&self) -> (r: u32)
        ensures
            r == self@.1,
    {
        self.nanos
    }

    /// Milliseconds since the epoch.
    pub fn timestamp_millis(&self) -> (r: i64)
        ensures
            r == instant_millis(self@.0, self@.1),
    {
        proof {
            use_type_invariant(self);
        }
        self.secs * 1000 + (self.nanos / 1_000_000) as i64
    }

    /// The RFC 3339 text of this instant, with offset `+00:00`.
    pub fn to_rfc3339(&self) -> (r: String)
        ensures
            r@ == rfc3339_text(self@.0, self@.1),
    {
        proof {
            use_type_invariant(self);
        }
        rfc3339_of(self.secs, self.nanos)
    }
}

proof fn lemma_split_in_range(m: int)
    ensures
        millis_in_range(m) <==> instant_in_range(secs_of_millis(m), nanos_of_millis(m)),
{
    assert(0 <= m % 1000 < 1000);
    assert(m == secs_of_millis(m) * 1000 + m % 1000);
}

/// Maps milliseconds since the epoch onto the calendar, in UTC.
pub fn datetime_utc_from_timestamp_millis(millis: i64) -> (r: Result<UtcDateTime, UnmillisError>)
    ensures
        match r {
            Ok(dt) => millis_in_range(millis as int) && dt@ == (
                secs_of_millis(millis as int),
                nanos_of_millis(millis as int),
            ),
            Err(e) => !millis_in_range(millis as int) && e == (UnmillisError::OutOfRange {
                millis,
            }),
        },
{
    let (secs, nanos) = split_timestamp_millis(millis);
    proof {
        lemma_split_in_range(millis as int);
    }
    if calendar_holds(secs, nanos) {
        Ok(UtcDateTime { secs, nanos })
    } else {
        Err(UnmillisError::OutOfRange { millis })
    }
}

/// The RFC 3339 text of the instant `millis` milliseconds after the epoch.
pub fn rfc3339_from_timestamp_millis(millis: i64) -> (r: Result<String, UnmillisError>)
    ensures
        match r {
            Ok(s) => millis_in_range(millis as int) && s@ == rfc3339_text(
                secs_of_millis(millis as int),
                nanos_of_millis(millis as int),
            ),
            Err(e) => !millis_in_range(millis as int) && e == (UnmillisError::OutOfRange {
                millis,
            }),
        },
{
    match datetime_utc_from_timestamp_millis(millis) {
        Ok(dt) => Ok(dt.to_rfc3339()),
        Err(e) => Err(e),
    }
}

/// Splitting a timestamp that the calendar holds gives an instant that it
/// holds, and reading that instant back in milliseconds gives the timestamp.
pub proof fn lemma_round_trip(m: int)
    requires
        millis_in_range(m),
    ensures
        instant_in_range(secs_of_millis(m), nanos_of_millis(m)),
        instant_millis(secs_of_millis(m), nanos_of_millis(m)) == m,
{
    lemma_split_in_range(m);
    assert(nanos_of_millis(m) / 1_000_000 == m % 1000);
}

/// The extreme timestamps are held, and one millisecond beyond either is not.
pub proof fn lemma_range_boundaries()
    ensures
        millis_in_range(MIN_TIMESTAMP_MILLIS as int),
        millis_in_range(MAX_TIMESTAMP_MILLIS as int),
        !millis_in_range(MIN_TIMESTAMP_MILLIS - 1),
        !millis_in_range(MAX_TIMESTAMP_MILLIS + 1),
        secs_of_millis(MIN_TIMESTAMP_MILLIS as int) == MIN_TIMESTAMP_SECS,
        secs_of_millis(MAX_TIMESTAMP_MILLIS as int) == MAX_TIMESTAMP_SECS,
{
}

} // verus!
