//! The host clock.

use vstd::prelude::*;

verus! {

/// Relies on std::time::SystemTime::now / duration_since / as_secs: the
/// seconds since the Unix epoch, or 0 should the clock read before the
/// epoch. The clock decides the value, so nothing is promised of the
/// result; the store operations take the timestamp as an argument and are
/// verified for every value of it.
#[verifier::external_body]
pub fn get_timestamp() -> u64 {
    match std::time::SystemTime::now().duration_since(std::time::UNIX_EPOCH) {
        Ok(d) => d.as_secs(),
        Err(_) => 0,
    }
}

} // verus!
