//! The wall clock, read as seconds since the unix epoch.

use vstd::prelude::*;

verus! {

/// Relies on std::time::SystemTime::now for the seconds since the unix
/// epoch. Nothing can be promised of the clock's value; handlers take the
/// reading as an argument and are verified for every value of it.
#[verifier::external_body]
pub fn unix_epoch_timestamp_u32() -> u32 {
    match std::time::SystemTime::now().duration_since(std::time::UNIX_EPOCH) {
        Ok(d) => u32::try_from(d.as_secs()).unwrap_or(u32::MAX),
        Err(_) => 0,
    }
}

} // verus!
