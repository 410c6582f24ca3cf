//! Wall-clock time.

use vstd::prelude::*;

verus! {

/// Current wall-clock time in milliseconds since the Unix epoch.
///
/// Reads `std::time::SystemTime::now`; nothing is claimed of the value, which
/// is zero for a clock set before the epoch.
#[verifier::external_body]
pub fn timestamp_ms() -> (r: u64)
{
    std::time::SystemTime::now().duration_since(std::time::UNIX_EPOCH).unwrap_or_default().as_millis() as u64
}

} // verus!
