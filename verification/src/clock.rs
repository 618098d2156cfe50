//! Timestamps for the debug log: milliseconds since the Unix epoch,
//! rendered in decimal.

use std::time::{Duration, SystemTime, SystemTimeError};
use vstd::prelude::*;
use crate::text::{decimal, decimal_string};

verus! {

#[verifier::external_type_specification]
#[verifier::external_body]
pub struct ExSystemTime(SystemTime);

#[verifier::external_type_specification]
#[verifier::external_body]
pub struct ExSystemTimeError(SystemTimeError);

/// Calls `SystemTime::now`.  The clock's reading is not stated.
#[verifier::external_body]
fn system_time_now() -> SystemTime {
    SystemTime::now()
}

/// Calls `SystemTime::duration_since` with `UNIX_EPOCH`: the time elapsed
/// since the epoch, or an error for a time before it.  Nothing is stated of
/// either outcome.
#[verifier::external_body]
fn since_unix_epoch(t: &SystemTime) -> Result<Duration, SystemTimeError> {
    t.duration_since(std::time::UNIX_EPOCH)
}

/// Calls `Duration::as_millis`: the whole milliseconds in a duration.  A
/// `Duration` is opaque here, so nothing is stated of the number.
#[verifier::external_body]
fn duration_millis(d: &Duration) -> u128 {
    d.as_millis()
}

/// The decimal text of a millisecond count, as the log writes it.
pub fn millis_text(millis: u128) -> (r: String)
    ensures
        r@ == decimal(millis as nat),
{
    decimal_string(millis)
}

/// The log's text for a clock reading: the milliseconds since the Unix
/// epoch in decimal for a reading at or after the epoch (`Some`), and the
/// empty text for one before it (`None`).
pub fn clock_text(reading: Option<u128>) -> (r: String)
    ensures
        match reading {
            Some(m) => r@ == decimal(m as nat),
            None => r@ == Seq::<char>::empty(),
        },
{
    match reading {
        Some(m) => millis_text(m),
        None => String::new(),
    }
}

/// The clock's reading as milliseconds since the Unix epoch, or `None`
/// when it reads a time before the epoch.
fn clock_reading() -> Option<u128> {
    let now = system_time_now();
    match since_unix_epoch(&now) {
        Ok(d) => Some(duration_millis(&d)),
        Err(_) => None,
    }
}

/// A timestamp from a clock reading: its milliseconds, or 0 for a
/// reading before the epoch.
pub fn stamp_of(reading: Option<u128>) -> (r: u128)
    ensures
        r == match reading {
            Some(m) => m,
            None => 0,
        },
{
    match reading {
        Some(m) => m,
        None => 0,
    }
}

/// The current time as milliseconds since the Unix epoch, or 0 when the
/// clock reads a time before the epoch: the `stamp_of` the clock's
/// reading, which nothing here pins down.
pub fn clock_stamp() -> u128 {
    stamp_of(clock_reading())
}

/// The current time as milliseconds since the Unix epoch in decimal, or
/// the empty string when the clock reads a time before the epoch: the
/// `clock_text` of the clock's reading.
pub fn chrono_now() -> (r: String)
    ensures
        r@ == Seq::<char>::empty() || exists|m: nat| r@ == decimal(m),
{
    let reading = clock_reading();
    let r = clock_text(reading);
    proof {
        if let Some(m) = reading {
            assert(r@ == decimal(m as nat));
        }
    }
    r
}

} // verus!
