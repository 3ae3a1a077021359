//! Clock readings. What the clock says depends on the machine and the
//! moment, so the functions here promise nothing about their results;
//! the logic that consumes a reading takes it as an argument.

use vstd::prelude::*;

verus! {

/// `std::time::Instant`, carried through opaquely.
#[verifier::external_type_specification]
#[verifier::external_body]
pub struct ExInstant(std::time::Instant);

/// `Instant::now()`: a monotonic clock reading. Nothing is stated about
/// its value.
#[verifier::external_body]
pub(crate) fn instant_now() -> std::time::Instant {
    std::time::Instant::now()
}

/// `Instant::elapsed()`, in whole seconds. Nothing is stated about the
/// value: it depends on when it is called.
#[verifier::external_body]
pub(crate) fn elapsed_secs(start: &std::time::Instant) -> u64 {
    start.elapsed().as_secs()
}

/// `Instant::elapsed()`, in whole milliseconds (cut to 64 bits). Nothing
/// is stated about the value.
#[verifier::external_body]
pub(crate) fn elapsed_millis(start: &std::time::Instant) -> u64 {
    start.elapsed().as_millis() as u64
}

/// `std::time::SystemTime`, carried through opaquely.
#[verifier::external_type_specification]
#[verifier::external_body]
pub struct ExSystemTime(std::time::SystemTime);

/// `SystemTime::now()`: a wall-clock reading. Nothing is stated about its
/// value.
#[verifier::external_body]
fn system_now() -> std::time::SystemTime {
    std::time::SystemTime::now()
}

/// `SystemTime::duration_since(UNIX_EPOCH)` in whole seconds; `None` when
/// the reading is earlier than the epoch. Nothing is stated about the
/// value, which the opaque reading determines.
#[verifier::external_body]
fn secs_since_epoch(t: &std::time::SystemTime) -> Option<u64> {
    t.duration_since(std::time::UNIX_EPOCH).ok().map(|d| d.as_secs())
}

/// Seconds since the Unix epoch by the system clock, or `None` when the
/// clock reads earlier than the epoch.
pub(crate) fn unix_now_secs_checked() -> Option<u64> {
    secs_since_epoch(&system_now())
}

/// Seconds since the Unix epoch by the system clock, or 0 when the clock
/// reads earlier than the epoch.
pub(crate) fn unix_now_secs() -> u64 {
    match unix_now_secs_checked() {
        Some(s) => s,
        None => 0,
    }
}

} // verus!
