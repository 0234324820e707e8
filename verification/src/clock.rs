//! Wall time in milliseconds after the Unix epoch.
use std::time::Duration;
use vstd::prelude::*;

verus! {

/// `SystemTime::elapsed` on the Unix epoch: the time since then, or nothing while
/// the system clock stands before it. Nothing is claimed of the reading.
#[verifier::external_body]
fn since_epoch() -> (elapsed: Option<Duration>) {
    std::time::UNIX_EPOCH.elapsed().ok()
}

/// `Duration::as_millis`: the whole milliseconds of a duration. Nothing is claimed
/// of the number, since nothing is known of what a duration holds.
pub assume_specification[ Duration::as_millis ](duration: &Duration) -> u128;

/// A clock reading as the store keeps it: nothing counts as the epoch itself.
pub fn clock_ms(elapsed: Option<u128>) -> (ms: i64)
    ensures
        elapsed is None ==> ms == 0,
        elapsed matches Some(elapsed) ==> ms == elapsed as i64,
        elapsed matches Some(elapsed) ==> elapsed <= i64::MAX ==> ms as int == elapsed as int,
{
    match elapsed {
        Some(elapsed) => #[verifier::truncate] (elapsed as i64),
        None => 0,
    }
}

/// The wall time now. The reading is the machine's own; what becomes of it is said
/// of `clock_ms`.
pub fn wall_ms() -> i64 {
    match since_epoch() {
        Some(elapsed) => clock_ms(Some(elapsed.as_millis())),
        None => clock_ms(None),
    }
}

} // verus!
