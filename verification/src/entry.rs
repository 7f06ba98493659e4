//! The shared/exclusive lifecycle state machine wrapping one pipeline
//! instance plus its reference count of attached sessions.
//!
//! The methods here are the raw transitions; the dispatcher composes
//! them with the session table and the mount registry so that the
//! global invariants (one live entry per shared path, refcount equal
//! to the number of bound sessions) hold between events.

use vstd::prelude::*;
use crate::pipeline::{PipelineHandle, PipelineState};

verus! {

/// Lifecycle state of one media entry.
#[derive(Clone, Copy, Debug, PartialEq, Eq, Structural)]
pub enum EntryState {
    /// Created, no session has attached yet; no pipeline exists.
    Empty,
    /// First session attached; pipeline preparation is in flight.
    Starting,
    /// The pipeline is producing; sessions may play.
    Live,
    /// The last session detached; the pipeline keeps running until
    /// the grace deadline so quick reconnects avoid a restart.
    Draining { deadline: u64 },
    /// Torn down or failed. Terminal.
    Gone,
}

/// One media entry: the pipeline lifecycle for one resolution of a
/// mount path (shared across sessions, or exclusive to one).
#[derive(Clone, Copy, Debug)]
pub struct MediaEntry {
    /// Index of the mount this entry was resolved from.
    pub mount: usize,
    /// Copy of the descriptor's `shared` flag (immutable).
    pub shared: bool,
    /// Copy of the descriptor's `max_clients` limit (immutable).
    pub max_clients: Option<usize>,
    /// Number of sessions currently bound to this entry.
    pub refcount: usize,
    /// Dispatcher time at which this entry was created.
    pub created_at: u64,
    pub state: EntryState,
    /// The owned pipeline instance: absent before the first attach
    /// and after a clean teardown; kept with state `Error` when the
    /// engine failed, as the record of the failure.
    pub pipeline: Option<PipelineHandle>,
}

impl MediaEntry {
    /// State/refcount/pipeline coherence for one entry in isolation.
    pub open spec fn wf(self) -> bool {
        match self.state {
            EntryState::Empty => self.refcount == 0 && self.pipeline is None,
            EntryState::Starting => self.refcount >= 1 && (match self.pipeline {
                Some(p) => p.state == PipelineState::Preparing,
                None => false,
            }),
            EntryState::Live => self.refcount >= 1 && (match self.pipeline {
                Some(p) => p.state == PipelineState::Playing || (p.state == PipelineState::Paused
                    && !self.shared),
                None => false,
            }),
            EntryState::Draining { .. } => self.refcount == 0 && self.shared && (match self
                .pipeline {
                Some(p) => p.state == PipelineState::Playing,
                None => false,
            }),
            EntryState::Gone => self.refcount == 0 && (match self.pipeline {
                Some(p) => p.state == PipelineState::Error,
                None => true,
            }),
        }
    }

    pub open spec fn is_gone(self) -> bool {
        self.state == EntryState::Gone
    }

    /// The immutable identity fields: everything but the lifecycle.
    pub open spec fn same_identity(self, other: MediaEntry) -> bool {
        &&& self.mount == other.mount
        &&& self.shared == other.shared
        &&& self.max_clients == other.max_clients
        &&& self.created_at == other.created_at
    }

    /// A fresh entry for mount `mount`: no sessions, no pipeline.
    pub fn new(mount: usize, shared: bool, max_clients: Option<usize>, created_at: u64) -> (e:
        MediaEntry)
        ensures
            e == (MediaEntry {
                mount,
                shared,
                max_clients,
                refcount: 0,
                created_at,
                state: EntryState::Empty,
                pipeline: None,
            }),
    {
        MediaEntry {
            mount,
            shared,
            max_clients,
            refcount: 0,
            created_at,
            state: EntryState::Empty,
            pipeline: None,
        }
    }

    /// One more session takes a reference. The first attach creates
    /// the pipeline (as `pipeline_id`) and begins preparation; an
    /// attach during the grace period revives the entry, so a drained
    /// entry that is attached in time never tears down.
    pub fn attach(&mut self, pipeline_id: u64) -> (prepare: bool)
        requires
            old(self).state != EntryState::Gone,
            old(self).refcount < usize::MAX,
        ensures
            final(self).refcount == old(self).refcount + 1,
            final(self).same_identity(*old(self)),
            prepare == (old(self).state == EntryState::Empty),
            old(self).state == EntryState::Empty ==> final(self).state == EntryState::Starting
                && final(self).pipeline == Some(
                PipelineHandle { id: pipeline_id, state: PipelineState::Preparing },
            ),
            old(self).state == EntryState::Starting || old(self).state == EntryState::Live
                ==> final(self).state == old(self).state && final(self).pipeline == old(
                self,
            ).pipeline,
            (old(self).state matches EntryState::Draining { .. }) ==> final(self).state
                == EntryState::Live && final(self).pipeline == old(self).pipeline,
    {
        self.refcount = self.refcount + 1;
        match self.state {
            EntryState::Empty => {
                self.pipeline = Some(
                    PipelineHandle { id: pipeline_id, state: PipelineState::Preparing },
                );
                self.state = EntryState::Starting;
                true
            },
            EntryState::Draining { .. } => {
                self.state = EntryState::Live;
                false
            },
            _ => false,
        }
    }

    /// One session drops its reference. Must be called exactly once
    /// per successful attach; the caller guards against double
    /// detach. The teardown decision on a zero refcount belongs to
    /// the dispatcher, not to this transition.
    pub fn detach(&mut self)
        requires
            old(self).refcount >= 1,
            old(self).state == EntryState::Starting || old(self).state == EntryState::Live,
        ensures
            final(self).refcount == old(self).refcount - 1,
            final(self).same_identity(*old(self)),
            final(self).state == old(self).state,
            final(self).pipeline == old(self).pipeline,
    {
        self.refcount = self.refcount - 1;
    }

    /// Several sessions drop their references in one event (the
    /// dispatcher reconciles the session table around this call).
    pub fn detach_many(&mut self, k: usize)
        requires
            old(self).refcount >= k,
            old(self).state == EntryState::Starting || old(self).state == EntryState::Live,
        ensures
            final(self).refcount == old(self).refcount - k,
            final(self).same_identity(*old(self)),
            final(self).state == old(self).state,
            final(self).pipeline == old(self).pipeline,
    {
        self.refcount = self.refcount - k;
    }

    /// Last reference gone on a shared live entry: keep the pipeline
    /// running until `deadline`, awaiting a quick reconnect.
    pub fn begin_drain(&mut self, deadline: u64)
        requires
            old(self).refcount == 0,
            old(self).state == EntryState::Live,
            old(self).shared,
        ensures
            final(self).state == (EntryState::Draining { deadline }),
            final(self).refcount == 0,
            final(self).same_identity(*old(self)),
            final(self).pipeline == old(self).pipeline,
    {
        self.state = EntryState::Draining { deadline };
    }

    /// Stop the pipeline and release the handle. Terminal.
    pub fn release(&mut self)
        requires
            old(self).refcount == 0,
            old(self).state != EntryState::Empty,
            old(self).state != EntryState::Gone,
        ensures
            final(self).state == EntryState::Gone,
            final(self).refcount == 0,
            final(self).pipeline is None,
            final(self).same_identity(*old(self)),
    {
        self.state = EntryState::Gone;
        self.pipeline = None;
    }

    /// The engine reported a fatal failure: the entry dies, keeping
    /// the poisoned handle as the record. The dispatcher closes every
    /// bound session in the same event, so the refcount drops to zero
    /// here and the session table is reconciled around this call.
    pub fn fail(&mut self)
        requires
            old(self).state == EntryState::Starting || old(self).state == EntryState::Live || (old(
                self,
            ).state matches EntryState::Draining { .. }),
            old(self).pipeline is Some,
        ensures
            final(self).state == EntryState::Gone,
            final(self).refcount == 0,
            final(self).pipeline == Some(
                PipelineHandle {
                    id: old(self).pipeline->Some_0.id,
                    state: PipelineState::Error,
                },
            ),
            final(self).same_identity(*old(self)),
    {
        let id = match self.pipeline {
            Some(p) => p.id,
            None => 0,
        };
        self.pipeline = Some(PipelineHandle { id, state: PipelineState::Error });
        self.refcount = 0;
        self.state = EntryState::Gone;
    }

    /// The engine reported readiness: the entry goes live and the
    /// pipeline is started.
    pub fn go_live(&mut self)
        requires
            old(self).state == EntryState::Starting,
            old(self).pipeline is Some,
        ensures
            final(self).state == EntryState::Live,
            final(self).refcount == old(self).refcount,
            final(self).pipeline == Some(
                PipelineHandle {
                    id: old(self).pipeline->Some_0.id,
                    state: PipelineState::Playing,
                },
            ),
            final(self).same_identity(*old(self)),
    {
        let id = match self.pipeline {
            Some(p) => p.id,
            None => 0,
        };
        self.pipeline = Some(PipelineHandle { id, state: PipelineState::Playing });
        self.state = EntryState::Live;
    }

    /// Hold an exclusive entry's pipeline (client pause). A shared
    /// pipeline is never paused on behalf of one client.
    pub fn hold(&mut self)
        requires
            old(self).state == EntryState::Live,
            old(self).pipeline is Some,
            !old(self).shared,
        ensures
            final(self).state == EntryState::Live,
            final(self).refcount == old(self).refcount,
            final(self).pipeline == Some(
                PipelineHandle {
                    id: old(self).pipeline->Some_0.id,
                    state: PipelineState::Paused,
                },
            ),
            final(self).same_identity(*old(self)),
    {
        let id = match self.pipeline {
            Some(p) => p.id,
            None => 0,
        };
        self.pipeline = Some(PipelineHandle { id, state: PipelineState::Paused });
    }

    /// Resume an exclusive entry's pipeline (client play).
    pub fn unhold(&mut self)
        requires
            old(self).state == EntryState::Live,
            old(self).pipeline is Some,
        ensures
            final(self).state == EntryState::Live,
            final(self).refcount == old(self).refcount,
            final(self).pipeline == Some(
                PipelineHandle {
                    id: old(self).pipeline->Some_0.id,
                    state: PipelineState::Playing,
                },
            ),
            final(self).same_identity(*old(self)),
    {
        let id = match self.pipeline {
            Some(p) => p.id,
            None => 0,
        };
        self.pipeline = Some(PipelineHandle { id, state: PipelineState::Playing });
    }
}

} // verus!
