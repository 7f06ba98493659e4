//! Per-client session state.

use vstd::prelude::*;

verus! {

/// Playback state of one client session.
#[derive(Clone, Copy, Debug, PartialEq, Eq, Structural)]
pub enum PlayState {
    /// Attached, waiting for the entry's pipeline to become live.
    Init,
    /// The pipeline is live; the client has not asked to play yet.
    Ready,
    /// Samples are being delivered to the session's transport.
    Playing,
    /// Delivery is suspended at the client's request.
    Paused,
    /// Detached; the slot is kept only so identifiers stay stable.
    Closed,
}

/// One client session. A session is bound to exactly one media entry
/// for its whole life; closing it detaches from that entry exactly
/// once (the `Closed` state is the idempotence guard).
#[derive(Clone, Copy, Debug, PartialEq, Eq, Structural)]
pub struct Session {
    /// Index of the bound media entry.
    pub entry: usize,
    /// Opaque handle into the transport collaborator.
    pub transport: u64,
    pub play_state: PlayState,
    /// Time of the last keep-alive or creation, in dispatcher ticks.
    pub last_activity: u64,
    /// Number of samples queued towards this session's transport.
    /// Bounded by the dispatcher's queue capacity; overflow closes
    /// the session rather than stalling a shared pipeline.
    pub queue_len: usize,
}

impl Session {
    /// Whether this session currently holds a reference on entry `e`.
    pub open spec fn is_bound_to(self, e: int) -> bool {
        self.play_state != PlayState::Closed && self.entry == e
    }
}

} // verus!
