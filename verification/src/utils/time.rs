//! Wall-clock time in seconds since the Unix epoch.
use vstd::prelude::*;

verus! {

/// The current time in whole seconds since the Unix epoch, from the
/// standard library's `SystemTime` (0 when the clock reads before the epoch,
/// so the call never panics).
///
/// Trusted, with nothing stated: the value depends on the machine's clock.
#[verifier::external_body]
pub fn current_timestamp() -> u64 {
    std::time::SystemTime::now().duration_since(std::time::UNIX_EPOCH).unwrap_or_default().as_secs()
}

/// The duration of `secs` whole seconds.
pub uninterp spec fn duration_from_secs(secs: u64) -> core::time::Duration;

/// `Duration::from_secs`.
///
/// Trusted: the duration depends on the number of seconds alone.
pub assume_specification[ core::time::Duration::from_secs ](secs: u64) -> (d: core::time::Duration)
    ensures
        d == duration_from_secs(secs),
;

/// `Duration::as_secs`.
///
/// Trusted: a duration made of `n` whole seconds has `n` whole seconds.
pub assume_specification[ core::time::Duration::as_secs ](d: &core::time::Duration) -> (r: u64)
    ensures
        forall|n: u64| *d == #[trigger] duration_from_secs(n) ==> r == n,
;

} // verus!
