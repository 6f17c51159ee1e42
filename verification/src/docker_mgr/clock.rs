//! The monotonic clock the manager measures idleness with. Points in time
//! are nanoseconds since an origin that is fixed when the manager is made.

use vstd::prelude::*;

verus! {

/// A reading of tokio's monotonic clock. Only its distance to a later
/// reading is ever used.
#[verifier::external_type_specification]
#[verifier::external_body]
pub struct ExInstant(tokio::time::Instant);

/// Nanoseconds in one second.
pub const NANOS_PER_SECOND: u64 = 1_000_000_000;

/// Reads the clock, through `tokio::time::Instant::now`, to serve as the
/// origin of a timeline. Nothing is claimed of the reading.
#[verifier::external_body]
pub(crate) fn clock_origin() -> tokio::time::Instant {
    tokio::time::Instant::now()
}

/// The time that has passed since `origin`, in nanoseconds, through
/// `tokio::time::Instant::elapsed`: zero where the origin lies in the
/// future. Two readings may differ, so nothing is claimed of the number.
#[verifier::external_body]
pub(crate) fn nanos_since(origin: &tokio::time::Instant) -> u128 {
    origin.elapsed().as_nanos()
}

} // verus!
