//! The time of day.

use vstd::prelude::*;

verus! {

/// `SystemTime::elapsed` of the start of the Unix epoch, in whole seconds, or
/// nothing where the clock stands before it. Nothing is claimed of the result.
#[verifier::external_body]
fn seconds_since_epoch() -> (r: Option<u64>) {
    std::time::UNIX_EPOCH.elapsed().ok().map(|since| since.as_secs())
}

/// What a reading of the clock gives to those who cannot do without a time.
pub fn reading_or_zero(reading: Option<u64>) -> (r: u64)
    ensures
        r == (match reading {
            Some(seconds) => seconds,
            None => 0,
        }),
{
    match reading {
        Some(seconds) => seconds,
        None => 0,
    }
}

/// The seconds since the start of the Unix epoch, or zero where the clock
/// stands before it.
pub fn current_unix_timestamp() -> u64 {
    reading_or_zero(seconds_since_epoch())
}

/// What a reading of the clock gives to those who need a true time.
pub fn reading_or_error(reading: Option<u64>) -> (r: Result<u64, String>)
    ensures
        match reading {
            Some(seconds) => r == Ok::<u64, String>(seconds),
            None => r matches Err(error) && error@ == "system clock is before unix epoch"@,
        },
{
    match reading {
        Some(seconds) => Ok(seconds),
        None => Err("system clock is before unix epoch".to_string()),
    }
}

/// The seconds since the start of the Unix epoch.
pub fn unix_timestamp() -> (r: Result<u64, String>)
    ensures
        r matches Err(error) ==> error@ == "system clock is before unix epoch"@,
{
    reading_or_error(seconds_since_epoch())
}

} // verus!
