//! Wall-clock access for the convenience entry points.

use vstd::prelude::*;

verus! {

/// Relies on `std::time::SystemTime::now`: the current time, rendered as
/// whole seconds since the Unix epoch, or 0 if the clock reads before the
/// epoch.  Nothing is assumed of the value: every caller is verified for
/// all possible readings.
#[verifier::external_body]
pub fn timestamp_now() -> u64 {
    match std::time::SystemTime::now().duration_since(std::time::UNIX_EPOCH) {
        Ok(d) => d.as_secs(),
        Err(_) => 0,
    }
}

} // verus!
