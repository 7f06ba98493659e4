//! Error taxonomy for registry, session and pipeline failures.

use vstd::prelude::*;

verus! {

/// Failures surfaced by registry and session operations, plus the two
/// fatal media-engine failures that are propagated to every session
/// attached to the failing entry.
#[derive(Clone, Copy, Debug, PartialEq, Eq, Structural)]
pub enum MediaError {
    /// No descriptor is registered for the requested path.
    UnknownPath,
    /// `register` was called with a path that is already registered.
    DuplicatePath,
    /// One more session would exceed the descriptor's client limit.
    CapacityExceeded,
    /// The pipeline failed while it was still preparing.
    PipelineStartFailed,
    /// The pipeline failed after it had reached playback.
    PipelineError,
}

/// Why a session was closed. Every error that reaches the protocol
/// boundary maps to a session closure carrying one of these codes.
#[derive(Clone, Copy, Debug, PartialEq, Eq, Structural)]
pub enum CloseReason {
    /// The client asked for the session to end.
    Teardown,
    /// No keep-alive arrived within the configured window.
    Timeout,
    /// The session's bounded delivery queue overflowed.
    SlowConsumer,
    /// The session's transport reported an error or was closed.
    TransportError,
    /// The entry's pipeline failed while preparing.
    PipelineStartFailed,
    /// The entry's pipeline failed during playback.
    PipelineError,
}

} // verus!
