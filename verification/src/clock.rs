use vstd::prelude::*;

verus! {

/// Calls `std::time::SystemTime::elapsed` on the Unix epoch and reads the duration in
/// milliseconds (0 if the clock is before the epoch). Nothing is claimed of the result:
/// it is the time.
#[verifier::external_body]
pub(crate) fn now_ms() -> u64 {
    std::time::UNIX_EPOCH.elapsed().map(|d| d.as_millis() as u64).unwrap_or(0)
}

} // verus!
