//! The two clocks: wall-clock time, which only seeds nonces, and the
//! monotonic clock, by which a Data packet ages.
//!
//! What a clock returns cannot be predicted, so the contracts here promise
//! nothing about the values read.

use std::time::{Instant, SystemTime, UNIX_EPOCH};
use vstd::prelude::*;

verus! {

/// `std::time::Instant`: a reading of the monotonic clock, carried as an
/// opaque value.
#[verifier::external_type_specification]
#[verifier::external_body]
pub struct ExInstant(std::time::Instant);

/// `Instant::clone`: a copy of the reading. Nothing is claimed of it.
pub assume_specification[ <Instant as Clone>::clone ](i: &Instant) -> (c: Instant);

/// `SystemTime::now`, as milliseconds since the Unix epoch; zero where the
/// clock stands before the epoch.
#[verifier::external_body]
pub(crate) fn unix_millis() -> (ms: u128) {
    SystemTime::now().duration_since(UNIX_EPOCH).map(|d| d.as_millis()).unwrap_or(0)
}

/// `Instant::now`: the present reading of the monotonic clock.
#[verifier::external_body]
pub(crate) fn instant_now() -> (now: Instant) {
    Instant::now()
}

/// `Instant::elapsed`, in nanoseconds: the time that has passed since the reading.
#[verifier::external_body]
pub(crate) fn elapsed_nanos(since: &Instant) -> (ns: u128) {
    since.elapsed().as_nanos()
}

/// Whether a packet that has lived `elapsed_ns` nanoseconds has outlived a
/// time-to-live of `ttl_ms` milliseconds.
pub fn expired_after(elapsed_ns: u128, ttl_ms: u32) -> (b: bool)
    ensures
        b == (elapsed_ns > ttl_ms as int * 1_000_000),
{
    elapsed_ns > (ttl_ms as u128) * 1_000_000
}

/// The nonce that a wall-clock reading of `ms` milliseconds seeds.
pub fn nonce_from_millis(ms: u128) -> (nonce: u32)
    ensures
        nonce as int == ms as int % 0xFFFF_FFFF,
{
    (ms % 0xFFFF_FFFFu128) as u32
}

} // verus!
