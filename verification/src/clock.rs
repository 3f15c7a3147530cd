//! Wall-clock readings.  Nothing can be promised of the time a call
//! returns, so these carry no contract; verified code treats the values
//! as arbitrary instants.

use vstd::prelude::*;

verus! {

/// Milliseconds since the Unix epoch.
///
/// Relies on SystemTime::now; the reading is converted to milliseconds and
/// clamped at zero for clocks set before the epoch.
#[verifier::external_body]
pub fn now_unix_millis() -> u64 {
    match std::time::SystemTime::now().duration_since(std::time::UNIX_EPOCH) {
        Ok(d) => {
            let ms = d.as_millis();
            if ms > u64::MAX as u128 { u64::MAX } else { ms as u64 }
        },
        Err(_) => 0,
    }
}

/// Microseconds since the Unix epoch, used as a monotonic-enough instant
/// for rate windows.
///
/// Relies on SystemTime::now; the reading is converted to microseconds and
/// clamped at zero for clocks set before the epoch.
#[verifier::external_body]
pub fn now_unix_micros() -> u64 {
    match std::time::SystemTime::now().duration_since(std::time::UNIX_EPOCH) {
        Ok(d) => {
            let us = d.as_micros();
            if us > u64::MAX as u128 { u64::MAX } else { us as u64 }
        },
        Err(_) => 0,
    }
}

} // verus!
