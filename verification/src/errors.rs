//! The error kinds visible from the runtime core.

use vstd::prelude::*;

verus! {

/// Every failure the core can report.
///
/// `TimedOut` and `Cancelled` are ordinary user-visible results, carried
/// inside `Result` values; `DuplicateName` reports a reactor
/// registration under a name that is already pending; `HostPollFailure`
/// is a host-poll call that cannot be retried and ends the run loop.
#[derive(Clone, Copy, Debug, PartialEq, Eq, Structural)]
pub enum RuntimeError {
    /// A timeout deadline fired before the inner computation completed.
    TimedOut,
    /// The awaited task was cancelled through its join handle.
    Cancelled,
    /// A reactor registration under a name that is already pending.
    DuplicateName,
    /// The host's batched poll failed and cannot be retried.
    HostPollFailure,
    /// The iteration budget given to the run loop ran out before
    /// quiescence.
    Exhausted,
}

} // verus!
