//! Wall-clock access. The result depends on the machine's clock, so nothing
//! is promised of it; callers treat it as an arbitrary stamp.

use vstd::prelude::*;

verus! {

/// Relies on std::time::SystemTime::now for the current time; the value is
/// converted to whole milliseconds since the Unix epoch, saturated to `u64`
/// (zero if the clock reads before the epoch). The result depends on the
/// machine's clock, so no contract constrains it.
#[verifier::external_body]
pub fn now_millis() -> u64 {
    match std::time::SystemTime::now().duration_since(std::time::UNIX_EPOCH) {
        Ok(d) => {
            let ms = d.as_millis();
            if ms > u64::MAX as u128 {
                u64::MAX
            } else {
                ms as u64
            }
        },
        Err(_) => 0,
    }
}

} // verus!
