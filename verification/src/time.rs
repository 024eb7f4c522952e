use vstd::prelude::*;

verus! {

/// Relies on std::time::SystemTime::now: the wall clock, read as whole
/// milliseconds since the Unix epoch.  Nothing is promised of the value:
/// every caller must hold for every reading.
#[verifier::external_body]
pub(crate) fn now_unix_millis() -> u64 {
    match std::time::SystemTime::now().duration_since(std::time::UNIX_EPOCH) {
        Ok(elapsed) => u64::try_from(elapsed.as_millis()).unwrap_or(u64::MAX),
        Err(_) => 0,
    }
}

} // verus!
