//! The time of day.

use std::time::{Duration, SystemTime, UNIX_EPOCH};

use vstd::prelude::*;

verus! {

/// A reading of the clock of the system.
#[verifier::external_type_specification]
#[verifier::external_body]
pub struct ExSystemTime(SystemTime);

/// `SystemTime::now`. Nothing is claimed of the reading.
#[verifier::external_body]
fn read_clock() -> (reading: SystemTime) {
    SystemTime::now()
}

/// `SystemTime::duration_since` the start of the epoch; none if the reading is of
/// before that. Nothing more is claimed of the time.
#[verifier::external_body]
fn since_epoch(reading: SystemTime) -> (passed: Option<Duration>) {
    match reading.duration_since(UNIX_EPOCH) {
        Ok(passed) => Some(passed),
        Err(_) => None,
    }
}

/// `Duration::as_millis`, the whole milliseconds of a time. Nothing is claimed of
/// the number.
#[verifier::external_body]
fn whole_millis(passed: Duration) -> (millis: u128) {
    passed.as_millis()
}

/// What a number of milliseconds counts as: none as zero, and too many as the
/// most there can be.
pub open spec fn counted(millis: Option<u128>) -> u64 {
    match millis {
        None => 0,
        Some(millis) => if millis <= u64::MAX {
            millis as u64
        } else {
            u64::MAX
        },
    }
}

/// What a number of milliseconds counts as.
pub fn count_millis(millis: Option<u128>) -> (count: u64)
    ensures
        count == counted(millis),
{
    match millis {
        None => 0,
        Some(millis) => if millis <= u64::MAX as u128 {
            millis as u64
        } else {
            u64::MAX
        },
    }
}

/// The number of milliseconds since the start of the epoch, as
/// [`count_millis`] counts what the clock shows.
pub fn unix_millis() -> (millis: u64)
    ensures
        exists|shown: Option<u128>| millis == #[trigger] counted(shown),
{
    match since_epoch(read_clock()) {
        Some(passed) => count_millis(Some(whole_millis(passed))),
        None => count_millis(None),
    }
}

} // verus!
