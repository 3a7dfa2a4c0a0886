//! Access to the wall clock, kept behind one trusted boundary.

use vstd::prelude::*;

verus! {

/// Relies on std::time::SystemTime::now: seconds since the Unix epoch, or 0
/// should the clock sit before it. Nothing is assumed of the value; callers
/// state what holds of every reading.
#[verifier::external_body]
pub(crate) fn now_seconds() -> (r: u64)
{
    std::time::SystemTime::now()
        .duration_since(std::time::SystemTime::UNIX_EPOCH)
        .map_or(0, |d| d.as_secs())
}

} // verus!
