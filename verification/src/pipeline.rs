//! Model of one running media pipeline instance.
//!
//! The engine that actually encodes and muxes bytes is an external
//! collaborator; the handle records the state the dispatcher has
//! driven it to (or has been told about), and every transition is
//! applied under the dispatcher's serialization.

use vstd::prelude::*;

verus! {

/// Lifecycle state of a pipeline instance, as last applied by the
/// dispatcher.
#[derive(Clone, Copy, Debug, PartialEq, Eq, Structural)]
pub enum PipelineState {
    /// Created but preparation has not been requested yet.
    Unprepared,
    /// Asynchronous preparation is in flight.
    Preparing,
    /// Producing samples.
    Playing,
    /// Prepared but held (exclusive entries only).
    Paused,
    /// The engine reported a fatal failure.
    Error,
}

/// Handle over one pipeline instance. Exclusively owned by one media
/// entry; no other component mutates it.
#[derive(Clone, Copy, Debug, PartialEq, Eq, Structural)]
pub struct PipelineHandle {
    /// Identifier the surrounding process uses to address the engine
    /// object that backs this handle.
    pub id: u64,
    pub state: PipelineState,
}

} // verus!
