//! Wall-clock readings for the simulator's timing diagnostics.
//!
//! Time is non-deterministic, so nothing is stated about the values these
//! functions return; the simulator's contracts are silent about the
//! accumulated duration.

use vstd::prelude::*;

verus! {

/// Declares std::time::Instant so values of it can be carried through
/// verified code; Verus sees nothing inside them.
#[verifier::external_type_specification]
#[verifier::external_body]
pub struct ExInstant(std::time::Instant);

/// Relies on std::time::Duration::new for the zero duration; with both
/// arguments zero it cannot panic.
#[verifier::external_body]
pub(crate) fn duration_zero() -> std::time::Duration {
    std::time::Duration::new(0, 0)
}

/// Relies on std::time::Instant::now to read the monotonic clock.
#[verifier::external_body]
pub(crate) fn instant_now() -> std::time::Instant {
    std::time::Instant::now()
}

/// Relies on std::time::Instant::duration_since, which returns the zero
/// duration when the other instant is later instead of panicking.
#[verifier::external_body]
pub(crate) fn elapsed_between(
    start: &std::time::Instant,
    end: &std::time::Instant,
) -> std::time::Duration {
    end.duration_since(*start)
}

/// Relies on std::time::Duration::saturating_add, which saturates at the
/// maximum duration instead of panicking.
#[verifier::external_body]
pub(crate) fn duration_add(
    total: &std::time::Duration,
    delta: &std::time::Duration,
) -> std::time::Duration {
    total.saturating_add(*delta)
}

} // verus!
