//! Calendar dates and times, as the `time` crate computes them.

use vstd::prelude::*;

verus! {

/// A date and time with an offset from UTC.
#[verifier::external_type_specification]
#[verifier::external_body]
pub struct ExOffsetDateTime(time::OffsetDateTime);

/// A component of a date or time outside its range.
#[verifier::external_type_specification]
#[verifier::external_body]
pub struct ExComponentRange(time::error::ComponentRange);

/// The first second that `OffsetDateTime` can hold: -9999-01-01 00:00:00 UTC.
pub const MIN_UNIX_TIMESTAMP: i64 = -377705116800;

/// The last second that `OffsetDateTime` can hold: 9999-12-31 23:59:59 UTC.
pub const MAX_UNIX_TIMESTAMP: i64 = 253402300799;

/// Relies on `time::OffsetDateTime::from_unix_timestamp`, which fails exactly
/// when the timestamp falls outside the years -9999 to 9999.
#[verifier::external_body]
pub(crate) fn from_unix_timestamp(timestamp: i64) -> (r: Result<time::OffsetDateTime, time::error::ComponentRange>)
    ensures
        r is Ok <==> MIN_UNIX_TIMESTAMP <= timestamp <= MAX_UNIX_TIMESTAMP,
{
    time::OffsetDateTime::from_unix_timestamp(timestamp)
}

} // verus!
