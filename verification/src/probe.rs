//! One bind, connect or accept attempt and how it is judged.

use vstd::prelude::*;

verus! {

/// What a scan tries on each port.
#[derive(Clone, Copy, Debug, PartialEq, Eq, Structural)]
pub enum Mode {
    /// Bind a listener to the port, then wait for a peer on each listener.
    Listen,
    /// Connect to the port, giving up after `timeout_ms` milliseconds.
    Connect { timeout_ms: u64 },
}

/// How one attempt ended, as the driver saw it.
#[derive(Clone, Copy, Debug, PartialEq, Eq, Structural)]
pub enum Attempt {
    /// The bind, connect or accept went through.
    Completed,
    /// The operating system reported an error.
    Errored,
    /// The time allowed for a connect ran out.
    TimedOut,
}

/// The verdict on one attempt.
#[derive(Clone, Copy, Debug, PartialEq, Eq, Structural)]
pub enum ProbeOutcome {
    Success,
    Failure,
}

/// Judges an attempt: only a completed one is a success. An error and an
/// expired timeout are the same failure.
pub fn classify(attempt: Attempt) -> (outcome: ProbeOutcome)
    ensures
        outcome == if attempt == Attempt::Completed {
            ProbeOutcome::Success
        } else {
            ProbeOutcome::Failure
        },
{
    match attempt {
        Attempt::Completed => ProbeOutcome::Success,
        Attempt::Errored => ProbeOutcome::Failure,
        Attempt::TimedOut => ProbeOutcome::Failure,
    }
}

} // verus!
