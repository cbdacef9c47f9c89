//! Reaping terminated children.
//!
//! A reap pass waits, without blocking, for any child again and again. Each
//! outcome of that wait is handed to [`next_reap_action`], which says whether
//! an exit code is to be reported, whether to wait again, or whether the pass
//! is over. A child killed by a signal is reported with the exit code
//! `128 + signal`.
use vstd::prelude::*;

verus! {

/// What one non-blocking wait for any child reported.
#[derive(Debug, Clone, Copy, PartialEq, Eq, Structural)]
pub enum WaitOutcome {
    /// The child exited with this status.
    Exited { pid: i32, status: i32 },
    /// The child was terminated by this signal.
    Signaled { pid: i32, signal: i32 },
    /// A child changed state in another way (stopped, continued, traced).
    OtherChange,
    /// Children exist, but none has a pending state change.
    StillAlive,
    /// There are no children at all.
    NoChildren,
    /// The wait failed with this error number.
    Failed(i32),
}

/// What a reap pass does next.
#[derive(Debug, Clone, Copy, PartialEq, Eq, Structural)]
pub enum ReapAction {
    /// Report that process `pid` ended with exit code `code`, then wait again.
    Report { pid: i32, code: i32 },
    /// Nothing to report: wait again.
    WaitAgain,
    /// Nothing is left to collect: the pass is over.
    Stop,
    /// The wait failed with this error number: log it; the pass is over.
    StopOnError(i32),
}

/// The exit code reported for a child terminated by signal `signal`.
pub open spec fn signal_exit_code(signal: int) -> int {
    128 + signal
}

/// Whether a wait outcome can be handed to [`next_reap_action`]: a signal
/// number leaves room for its exit code in an `i32`.
pub open spec fn outcome_in_range(o: WaitOutcome) -> bool {
    o matches WaitOutcome::Signaled { signal, .. } ==> signal <= i32::MAX - 128
}

/// The exit code reported for a child terminated by signal `signal`.
pub fn exit_code_of_signal(signal: i32) -> (r: i32)
    requires
        signal <= i32::MAX - 128,
    ensures
        r == signal_exit_code(signal as int),
{
    128 + signal
}

/// The step a reap pass takes on one wait outcome: an exited child is
/// reported with its status, a signalled one with `128 + signal`; a state
/// change of another kind is skipped; no children, or none with a pending
/// change, ends the pass; any other failure ends it with the error.
pub fn next_reap_action(o: WaitOutcome) -> (r: ReapAction)
    requires
        outcome_in_range(o),
    ensures
        match o {
            WaitOutcome::Exited { pid, status } => r == ReapAction::Report { pid, code: status },
            WaitOutcome::Signaled { pid, signal } => r == ReapAction::Report {
                pid,
                code: signal_exit_code(signal as int) as i32,
            },
            WaitOutcome::OtherChange => r == ReapAction::WaitAgain,
            WaitOutcome::StillAlive => r == ReapAction::Stop,
            WaitOutcome::NoChildren => r == ReapAction::Stop,
            WaitOutcome::Failed(e) => r == ReapAction::StopOnError(e),
        },
{
    match o {
        WaitOutcome::Exited { pid, status } => ReapAction::Report { pid, code: status },
        WaitOutcome::Signaled { pid, signal } => ReapAction::Report {
            pid,
            code: exit_code_of_signal(signal),
        },
        WaitOutcome::OtherChange => ReapAction::WaitAgain,
        WaitOutcome::StillAlive => ReapAction::Stop,
        WaitOutcome::NoChildren => ReapAction::Stop,
        WaitOutcome::Failed(e) => ReapAction::StopOnError(e),
    }
}

} // verus!
