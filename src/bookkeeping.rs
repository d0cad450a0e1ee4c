use vstd::prelude::*;
use crate::status::{ErrorModel, MigrationError};

verus! {

/// The earliest Unix timestamp, in seconds, that a `time::OffsetDateTime` can hold
/// (the first second of year -9999, UTC).
pub const EARLIEST_TIMESTAMP: i64 = -377_705_116_800;

/// The latest Unix timestamp, in seconds, that a `time::OffsetDateTime` can hold
/// (the last second of year 9999, UTC).
pub const LATEST_TIMESTAMP: i64 = 253_402_300_799;

/// Relies on `time::OffsetDateTime::from_unix_timestamp`: it returns `Ok` exactly when
/// the timestamp lies between the first second of `Date::MIN` and the last second of
/// `Date::MAX`, which without the `large-dates` feature are the years -9999 and 9999.
#[verifier::external_body]
fn is_representable_timestamp(seconds: i64) -> (r: bool)
    ensures
        r == (EARLIEST_TIMESTAMP <= seconds <= LATEST_TIMESTAMP),
{
    time::OffsetDateTime::from_unix_timestamp(seconds).is_ok()
}

/// The `run_on` value recorded for a code step, from the clock reading `now_secs`
/// (seconds since the Unix epoch). The reading is taken as a signed timestamp, as a
/// wrapping conversion gives it; one that no date-time can hold is a clock error.
pub fn run_on_timestamp(now_secs: u64) -> (r: Result<i64, MigrationError>)
    ensures
        EARLIEST_TIMESTAMP <= (now_secs as i64) <= LATEST_TIMESTAMP ==> r == Ok::<
            i64,
            MigrationError,
        >(now_secs as i64),
        !(EARLIEST_TIMESTAMP <= (now_secs as i64) <= LATEST_TIMESTAMP) ==> (r matches Err(e)
            && e@ == ErrorModel::ClockError(now_secs)),
{
    let seconds = now_secs as i64;
    if is_representable_timestamp(seconds) {
        Ok(seconds)
    } else {
        Err(MigrationError::ClockError(now_secs))
    }
}

/// Whether a code step is recorded, from the row that counts its records: a missing
/// row or a count of zero means it is not.
pub fn recorded_from_count(count: Option<i64>) -> (r: bool)
    ensures
        r == (count matches Some(n) && n != 0),
{
    match count {
        Some(n) => n != 0,
        None => false,
    }
}

} // verus!
