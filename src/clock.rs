use vstd::prelude::*;

verus! {

/// Identifier of a secret, a store or a testament: a 128-bit value.
pub type UUID = u128;

/// Relies on std's `SystemTime::elapsed`, measured from the Unix epoch: the
/// wall-clock time in nanoseconds, or 0 when the clock stands before the epoch.
/// Nothing is known of the value; callers keep their timestamps monotonic themselves.
#[verifier::external_body]
fn wall_clock_nanos() -> (r: u64) {
    match std::time::UNIX_EPOCH.elapsed() {
        Ok(d) => d.as_nanos() as u64,
        Err(_) => 0,
    }
}

/// Relies on `uuid::Uuid::new_v4` and `Uuid::as_u128`: a random version-4
/// identifier, as its 128-bit value. Nothing is known of the value.
#[verifier::external_body]
fn random_uuid() -> (r: u128) {
    uuid::Uuid::new_v4().as_u128()
}

/// The current wall-clock time in nanoseconds since the Unix epoch.
pub fn get_current_time() -> (r: u64) {
    wall_clock_nanos()
}

/// A fresh random identifier.
pub fn new_uuid() -> (r: UUID) {
    random_uuid()
}

/// The later of two timestamps: a modification date never moves backwards,
/// even when the wall clock does.
pub fn later_of(a: u64, b: u64) -> (r: u64)
    ensures
        r == spec_later_of(a, b),
{
    if a >= b {
        a
    } else {
        b
    }
}

pub open spec fn spec_later_of(a: u64, b: u64) -> u64 {
    if a >= b {
        a
    } else {
        b
    }
}

} // verus!
