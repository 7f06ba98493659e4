//! The single serialization point for registry mutation, entry state
//! transitions and session bookkeeping.
//!
//! The surrounding process runs one event loop: it feeds every
//! external notification (client requests, media-engine callbacks,
//! timer ticks) into these methods one at a time and carries out the
//! returned [`Action`]s. Because every mutation happens inside one
//! such call, the well-formedness predicate [`Dispatcher::wf`] holds
//! between any two events, with no locks anywhere.

use vstd::prelude::*;
use crate::counting::{
    count_bound, lemma_count_bound_congruence, lemma_count_bound_le_len,
    lemma_count_bound_positive, lemma_count_bound_push, lemma_count_bound_update,
    lemma_count_bound_zero,
};
use crate::pipeline::{PipelineHandle, PipelineState};
use crate::descriptor::MediaDescriptor;
use crate::entry::{EntryState, MediaEntry};
use crate::errors::{CloseReason, MediaError};
use crate::registry::{Mount, MountRegistry};
use crate::session::{PlayState, Session};

verus! {

/// Tunables the dispatcher is composed with.
#[derive(Clone, Copy, Debug)]
pub struct Config {
    /// Delay, in ticks, between the last detach from a shared entry
    /// and the teardown of its pipeline; `None` tears down at once.
    pub grace_period: Option<u64>,
    /// Sessions with no activity for more than this many ticks are
    /// closed with reason `Timeout`.
    pub keepalive: u64,
    /// Bound on each session's sample delivery queue.
    pub queue_capacity: usize,
}

/// What the surrounding process must do after an event was applied.
/// Pipeline operations address the engine object behind the entry's
/// pipeline handle; transport operations address the session's
/// transport collaborator.
#[derive(Clone, Copy, Debug, PartialEq, Eq, Structural)]
pub enum Action {
    /// Create the engine pipeline for this entry (from its mount's
    /// launch description) and begin asynchronous preparation.
    Prepare { entry: usize },
    /// Start (or resume) the entry's pipeline.
    Start { entry: usize },
    /// Pause the entry's pipeline (exclusive entries only).
    Pause { entry: usize },
    /// Stop the entry's pipeline and dispose of the engine object.
    Stop { entry: usize },
    /// Forward the sample just produced to this session's transport.
    Deliver { session: usize, transport: u64 },
    /// Tell the client the session ended, and close its transport.
    CloseTransport { session: usize, transport: u64, reason: CloseReason },
}

/// Whether `a` stops entry `e`'s pipeline.
pub open spec fn is_stop_for(a: Action, e: int) -> bool {
    a matches Action::Stop { entry } && entry == e
}

/// How many of `actions` stop entry `e`'s pipeline.
pub open spec fn count_stops(actions: Seq<Action>, e: int) -> nat
    decreases actions.len(),
{
    if actions.len() == 0 {
        0
    } else {
        count_stops(actions.drop_last(), e) + if is_stop_for(actions.last(), e) {
            1nat
        } else {
            0nat
        }
    }
}

pub proof fn lemma_count_stops_push(actions: Seq<Action>, a: Action, e: int)
    ensures
        count_stops(actions.push(a), e) == count_stops(actions, e) + if is_stop_for(a, e) {
            1nat
        } else {
            0nat
        },
{
    assert(actions.push(a).drop_last() =~= actions);
}

pub proof fn lemma_count_stops_concat(a: Seq<Action>, b: Seq<Action>, e: int)
    ensures
        count_stops(a + b, e) == count_stops(a, e) + count_stops(b, e),
    decreases b.len(),
{
    if b.len() == 0 {
        assert(a + b =~= a);
    } else {
        assert((a + b).drop_last() =~= a + b.drop_last());
        assert((a + b).last() == b.last());
        lemma_count_stops_concat(a, b.drop_last(), e);
    }
}

/// Teardown discipline: an event stops an entry's pipeline exactly
/// once, exactly when it took that entry to `Gone`, and entries that
/// were already `Gone` are never touched again. Together with its
/// presence on every mutating event this yields: over any run, each
/// pipeline is stopped exactly once, at the moment its entry dies.
pub open spec fn teardown_disciplined(
    pre: Dispatcher,
    post: Dispatcher,
    actions: Seq<Action>,
) -> bool {
    &&& post.entries@.len() >= pre.entries@.len()
    &&& forall|e: int|
        0 <= e < pre.entries@.len() && pre.entries@[e].is_gone()
            ==> #[trigger] post.entries@[e] == pre.entries@[e]
    &&& forall|e: int|
        0 <= e < post.entries@.len() ==> #[trigger] count_stops(actions, e) == (
        if e < pre.entries@.len() && !pre.entries@[e].is_gone() && post.entries@[e].is_gone() {
            1nat
        } else {
            0nat
        })
}

/// The session as it is left once closed: detached and with its
/// delivery queue dropped; the remaining fields are kept as a record.
pub open spec fn closed_session(s: Session) -> Session {
    Session { play_state: PlayState::Closed, queue_len: 0, ..s }
}

/// When the grace period would overrun the clock it is capped, which
/// only ever lengthens the grace.
pub open spec fn grace_deadline(now: u64, grace: u64) -> u64 {
    if now + grace <= u64::MAX {
        (now + grace) as u64
    } else {
        u64::MAX
    }
}

/// The exact effect of closing session `sid` with `reason`: nothing
/// on an already-closed session; otherwise the session is closed, its
/// transport is told, and the bound entry loses one reference. A last
/// detach from a shared live entry with a grace period starts the
/// drain timer; any other last detach stops the pipeline at once and
/// clears the mount's live slot, so the next request starts afresh.
pub open spec fn close_effect(
    pre: Dispatcher,
    post: Dispatcher,
    sid: int,
    reason: CloseReason,
    actions: Seq<Action>,
) -> bool {
    let s = pre.sessions@[sid];
    let e = s.entry as int;
    let ent = pre.entries@[e];
    if s.play_state == PlayState::Closed {
        post == pre && actions.len() == 0
    } else {
        &&& post.sessions@ == pre.sessions@.update(sid, closed_session(s))
        &&& actions.len() >= 1 && actions[0] == Action::CloseTransport {
            session: sid as usize,
            transport: s.transport,
            reason,
        }
        &&& post.entries@[e].refcount == ent.refcount - 1
        &&& post.entries@[e].same_identity(ent)
        &&& forall|i: int|
            0 <= i < pre.entries@.len() && i != e ==> #[trigger] post.entries@[i]
                == pre.entries@[i]
        &&& if ent.refcount == 1 {
            if ent.state == EntryState::Live && ent.shared && pre.config.grace_period is Some {
                // drain: the pipeline keeps running until the deadline
                &&& post.entries@[e].state == (EntryState::Draining {
                    deadline: grace_deadline(pre.now, pre.config.grace_period->Some_0),
                })
                &&& post.entries@[e].pipeline == ent.pipeline
                &&& post.registry == pre.registry
                &&& actions.len() == 1
            } else {
                // immediate teardown: stopped once, slot cleared
                &&& post.entries@[e].state == EntryState::Gone
                &&& post.entries@[e].pipeline is None
                &&& (ent.shared ==> post.registry.mounts@ == pre.registry.mounts@.update(
                    ent.mount as int,
                    Mount {
                        descriptor: pre.registry.mounts@[ent.mount as int].descriptor,
                        live: None,
                    },
                ))
                &&& (!ent.shared ==> post.registry == pre.registry)
                &&& actions =~= seq![
                    Action::CloseTransport { session: sid as usize, transport: s.transport, reason },
                    Action::Stop { entry: s.entry },
                ]
            }
        } else {
            // other sessions remain: the entry lives on untouched
            &&& post.entries@[e].state == ent.state
            &&& post.entries@[e].pipeline == ent.pipeline
            &&& post.registry == pre.registry
            &&& actions.len() == 1
        }
    }
}

/// The dispatcher: mount registry, entry table and session table,
/// plus the logical clock all timers are measured against. Entry and
/// session identifiers are indices into the tables; dead slots are
/// kept so identifiers stay stable.
#[derive(Debug)]
pub struct Dispatcher {
    pub registry: MountRegistry,
    pub entries: Vec<MediaEntry>,
    pub sessions: Vec<Session>,
    pub config: Config,
    /// Logical time, advanced by timer ticks; never moves backwards.
    pub now: u64,
    /// Source of fresh pipeline identifiers.
    pub next_pipeline_id: u64,
}

impl Dispatcher {
    /// Everything entry `e` must satisfy: its own state coherence,
    /// agreement with its descriptor, the central refcount law
    /// (refcount equals the number of bound sessions), and — for a
    /// live shared entry — being the one its mount points at.
    pub open spec fn entry_ok(self, e: int) -> bool {
        let ent = self.entries@[e];
        &&& ent.wf()
        &&& (ent.mount as int) < self.registry.mounts@.len()
        &&& ent.shared == self.registry.mounts@[ent.mount as int].descriptor.shared
        &&& ent.max_clients == self.registry.mounts@[ent.mount as int].descriptor.max_clients
        &&& ent.refcount == count_bound(self.sessions@, e)
        &&& ent.created_at <= self.now
        &&& (ent.shared && !ent.is_gone() ==> self.registry.mounts@[ent.mount as int].live
            == Some(e as usize))
    }

    /// A mount's live slot, when filled, names a non-dead entry of
    /// this very mount, and only shared descriptors use the slot. The
    /// slot being a single option is what makes a second live entry
    /// for the same shared path impossible.
    pub open spec fn mount_ok(self, m: int) -> bool {
        match self.registry.mounts@[m].live {
            Some(e) => {
                &&& (e as int) < self.entries@.len()
                &&& self.entries@[e as int].mount == m
                &&& self.registry.mounts@[m].descriptor.shared
                &&& !self.entries@[e as int].is_gone()
            },
            None => true,
        }
    }

    /// A session that is not closed is bound to a real entry whose
    /// state matches the session's: waiting sessions sit on starting
    /// entries, playable ones on live entries. Its delivery queue
    /// respects the configured bound and its activity stamp never
    /// lies in the future.
    pub open spec fn session_ok(self, s: int) -> bool {
        let ses = self.sessions@[s];
        ses.play_state != PlayState::Closed ==> {
            &&& (ses.entry as int) < self.entries@.len()
            &&& (ses.play_state == PlayState::Init ==> self.entries@[ses.entry as int].state
                == EntryState::Starting)
            &&& ((ses.play_state == PlayState::Ready || ses.play_state == PlayState::Playing
                || ses.play_state == PlayState::Paused) ==> self.entries@[ses.entry as int].state
                == EntryState::Live)
            &&& ses.queue_len <= self.config.queue_capacity
            &&& ses.last_activity <= self.now
        }
    }

    /// The global invariant, re-established by every event.
    pub open spec fn wf(self) -> bool {
        &&& self.registry.paths_unique()
        &&& forall|m: int| 0 <= m < self.registry.mounts@.len() ==> #[trigger] self.mount_ok(m)
        &&& forall|e: int| 0 <= e < self.entries@.len() ==> #[trigger] self.entry_ok(e)
        &&& forall|s: int| 0 <= s < self.sessions@.len() ==> #[trigger] self.session_ok(s)
    }

    /// A fresh dispatcher with no mounts, entries or sessions.
    pub fn new(config: Config) -> (d: Dispatcher)
        ensures
            d.wf(),
            d.registry.mounts@.len() == 0,
            d.entries@.len() == 0,
            d.sessions@.len() == 0,
            d.config == config,
            d.now == 0,
    {
        Dispatcher {
            registry: MountRegistry::new(),
            entries: Vec::new(),
            sessions: Vec::new(),
            config,
            now: 0,
            next_pipeline_id: 0,
        }
    }

    /// Register a descriptor under its path; used once per mount
    /// point at startup. Fails with `DuplicatePath` if and only if
    /// the path is already registered, and changes nothing then.
    pub fn register(&mut self, descriptor: MediaDescriptor) -> (r: Result<(), MediaError>)
        requires
            old(self).wf(),
        ensures
            final(self).wf(),
            final(self).entries@ == old(self).entries@,
            final(self).sessions@ == old(self).sessions@,
            final(self).config == old(self).config,
            final(self).now == old(self).now,
            match r {
                Ok(()) => !old(self).registry.has_path(descriptor.path@) && final(self).registry.mounts@ == old(self).registry.mounts@.push(
                    Mount { descriptor, live: None },
                ),
                Err(err) => err == MediaError::DuplicatePath && old(self).registry.has_path(
                    descriptor.path@,
                ) && *final(self) == *old(self),
            },
    {
        let ghost pre = *self;
        let r = self.registry.register(descriptor);
        proof {
            if r is Ok {
                assert forall|m: int|
                    0 <= m < self.registry.mounts@.len() implies self.mount_ok(m) by {
                    if m < pre.registry.mounts@.len() {
                        assert(pre.mount_ok(m));
                        assert(self.registry.mounts@[m] == pre.registry.mounts@[m]);
                    }
                }
                assert forall|e: int| 0 <= e < self.entries@.len() implies self.entry_ok(e) by {
                    assert(pre.entry_ok(e));
                    let mi = pre.entries@[e].mount as int;
                    assert(self.registry.mounts@[mi] == pre.registry.mounts@[mi]);
                }
                assert forall|s: int| 0 <= s < self.sessions@.len() implies self.session_ok(s) by {
                    assert(pre.session_ok(s));
                }
            }
        }
        r
    }

    /// Resolve a path to a media entry. For a shared descriptor this
    /// returns the existing live entry if there is one — every caller
    /// that resolves before that entry dies observes the identical
    /// instance — and otherwise creates a fresh entry and installs it
    /// as the path's live entry in the same step. For a non-shared
    /// descriptor every call creates a fresh, private entry. Fails
    /// with `UnknownPath` when nothing is mounted at `path`, and with
    /// `CapacityExceeded` when one more session would push the entry
    /// past its descriptor's client limit.
    pub fn resolve_or_create(&mut self, path: &str) -> (r: Result<usize, MediaError>)
        requires
            old(self).wf(),
        ensures
            final(self).wf(),
            final(self).sessions@ == old(self).sessions@,
            final(self).config == old(self).config,
            final(self).now == old(self).now,
            final(self).registry.mounts@.len() == old(self).registry.mounts@.len(),
            forall|m: int|
                0 <= m < old(self).registry.mounts@.len()
                    ==> #[trigger] final(self).registry.mounts@[m].descriptor == old(self).registry.mounts@[m].descriptor,
            forall|e: int|
                0 <= e < old(self).entries@.len() ==> #[trigger] final(self).entries@[e] == old(self).entries@[e],
            match r {
                Err(MediaError::UnknownPath) => !old(self).registry.has_path(path@) && *final(self)
                    == *old(self),
                Err(MediaError::CapacityExceeded) => {
                    let m = old(self).registry.index_of(path@);
                    let d = old(self).registry.mounts@[m].descriptor;
                    &&& old(self).registry.has_path(path@)
                    &&& *final(self) == *old(self)
                    &&& (d.max_clients matches Some(mc) && (if d.shared && old(self).registry.mounts@[m].live is Some {
                        old(self).entries@[old(self).registry.mounts@[m].live->Some_0 as int].refcount + 1 > mc
                    } else {
                        1 > mc
                    }))
                },
                Ok(e) => {
                    let m = old(self).registry.index_of(path@);
                    let d = old(self).registry.mounts@[m].descriptor;
                    &&& old(self).registry.has_path(path@)
                    &&& (e as int) < final(self).entries@.len()
                    &&& final(self).entries@[e as int].mount == m
                    &&& final(self).entries@[e as int].shared == d.shared
                    &&& !final(self).entries@[e as int].is_gone()
                    &&& (d.max_clients matches Some(mc) ==> final(self).entries@[e as int].refcount
                        + 1 <= mc)
                    &&& if d.shared && old(self).registry.mounts@[m].live is Some {
                        // the installed live entry is handed out unchanged
                        &&& old(self).registry.mounts@[m].live == Some(e)
                        &&& *final(self) == *old(self)
                    } else {
                        // a fresh entry, installed as live when shared
                        &&& e == old(self).entries@.len()
                        &&& final(self).entries@ == old(self).entries@.push(
                            MediaEntry {
                                mount: m as usize,
                                shared: d.shared,
                                max_clients: d.max_clients,
                                refcount: 0,
                                created_at: old(self).now,
                                state: EntryState::Empty,
                                pipeline: None,
                            },
                        )
                        &&& (d.shared ==> final(self).registry.mounts@ == old(self).registry.mounts@.update(m, Mount { descriptor: d, live: Some(e) }))
                        &&& (!d.shared ==> final(self).registry.mounts@ == old(self).registry.mounts@)
                    }
                },
                _ => false,
            },
    {
        let ghost pre = *self;
        let key: String = path.to_owned();
        let m: usize = match self.registry.find(&key) {
            None => {
                return Err(MediaError::UnknownPath);
            },
            Some(m) => m,
        };
        let shared = self.registry.mounts[m].descriptor.shared;
        let max_clients = self.registry.mounts[m].descriptor.max_clients;
        if shared {
            match self.registry.mounts[m].live {
                Some(e) => {
                    proof {
                        assert(pre.mount_ok(m as int));
                    }
                    let rc = self.entries[e].refcount;
                    match max_clients {
                        Some(mc) => {
                            if rc >= mc {
                                return Err(MediaError::CapacityExceeded);
                            }
                        },
                        None => {},
                    }
                    proof {
                        assert(pre.entry_ok(e as int));
                    }
                    return Ok(e);
                },
                None => {},
            }
        }
        match max_clients {
            Some(mc) => {
                if mc == 0 {
                    return Err(MediaError::CapacityExceeded);
                }
            },
            None => {},
        }
        let e = self.entries.len();
        self.entries.push(MediaEntry::new(m, shared, max_clients, self.now));
        if shared {
            self.registry.set_live(m, Some(e));
        }
        proof {
            let ghost post = *self;
            lemma_count_bound_zero(post.sessions@, e as int);
            assert forall|s: int| 0 <= s < post.sessions@.len() implies post.session_ok(s) by {
                assert(pre.session_ok(s));
            }
            assert forall|j: int|
                0 <= j < post.sessions@.len() implies !(#[trigger] post.sessions@[j]).is_bound_to(
                e as int,
            ) by {
                assert(pre.session_ok(j));
            }
            assert(count_bound(post.sessions@, e as int) == 0);
            assert forall|i: int| 0 <= i < post.entries@.len() implies post.entry_ok(i) by {
                if i < pre.entries@.len() {
                    assert(pre.entry_ok(i));
                    let mi = pre.entries@[i].mount as int;
                    assert(post.registry.mounts@[mi].descriptor == pre.registry.mounts@[
                        mi].descriptor);
                    if pre.entries@[i].shared && !pre.entries@[i].is_gone() {
                        if mi == m as int {
                            // the slot held this entry, so it was not empty
                            assert(pre.registry.mounts@[mi].live == Some(i as usize));
                        }
                        assert(post.registry.mounts@[mi].live == pre.registry.mounts@[mi].live);
                    }
                } else {
                    assert(post.entries@[i] == MediaEntry {
                        mount: m,
                        shared,
                        max_clients,
                        refcount: 0,
                        created_at: pre.now,
                        state: EntryState::Empty,
                        pipeline: None,
                    });
                }
            }
            assert forall|i: int|
                0 <= i < post.registry.mounts@.len() implies post.mount_ok(i) by {
                assert(pre.mount_ok(i));
                if i != m as int {
                    assert(post.registry.mounts@[i] == pre.registry.mounts@[i]);
                }
            }
        }
        Ok(e)
    }

    /// Resolve `path`, attach to the resulting entry and create a
    /// session bound to it — one atomic step under the dispatcher's
    /// serialization, which is what makes racing clients of a shared
    /// path end up on one single entry. The first attach of an entry
    /// asks the surrounding process to prepare the pipeline; the new
    /// session then waits in `Init` until the engine reports ready
    /// (or failure) asynchronously. An attach that lands during an
    /// entry's grace period revives it: the entry is live again and
    /// nothing is torn down.
    pub fn create_session(&mut self, path: &str, transport: u64) -> (r: (
        Result<usize, MediaError>,
        Vec<Action>,
    ))
        requires
            old(self).wf(),
        ensures
            final(self).wf(),
            final(self).config == old(self).config,
            final(self).now == old(self).now,
            final(self).registry.mounts@.len() == old(self).registry.mounts@.len(),
            forall|m: int|
                0 <= m < old(self).registry.mounts@.len()
                    ==> #[trigger] final(self).registry.mounts@[m].descriptor == old(self).registry.mounts@[m].descriptor,
            teardown_disciplined(*old(self), *final(self), r.1@),
            match r.0 {
                Err(MediaError::UnknownPath) => !old(self).registry.has_path(path@) && *final(self)
                    == *old(self) && r.1@.len() == 0,
                Err(MediaError::CapacityExceeded) => {
                    let m = old(self).registry.index_of(path@);
                    let d = old(self).registry.mounts@[m].descriptor;
                    &&& old(self).registry.has_path(path@)
                    &&& *final(self) == *old(self)
                    &&& r.1@.len() == 0
                    &&& (d.max_clients matches Some(mc) && (if d.shared && old(self).registry.mounts@[m].live is Some {
                        old(self).entries@[old(self).registry.mounts@[m].live->Some_0 as int].refcount + 1 > mc
                    } else {
                        1 > mc
                    }))
                },
                Ok(sid) => {
                    let m = old(self).registry.index_of(path@);
                    let d = old(self).registry.mounts@[m].descriptor;
                    let s = final(self).sessions@[sid as int];
                    let e = s.entry as int;
                    let fresh = !(d.shared && old(self).registry.mounts@[m].live is Some);
                    let pre_state = if fresh {
                        EntryState::Empty
                    } else {
                        old(self).entries@[e].state
                    };
                    &&& old(self).registry.has_path(path@)
                    // the new session
                    &&& sid == old(self).sessions@.len()
                    &&& final(self).sessions@.len() == old(self).sessions@.len() + 1
                    &&& forall|j: int|
                        0 <= j < old(self).sessions@.len()
                            ==> #[trigger] final(self).sessions@[j] == old(self).sessions@[j]
                    &&& s.transport == transport
                    &&& s.last_activity == old(self).now
                    &&& s.queue_len == 0
                    &&& s.play_state == (if final(self).entries@[e].state == EntryState::Live {
                        PlayState::Ready
                    } else {
                        PlayState::Init
                    })
                    // the entry it is bound to
                    &&& e < final(self).entries@.len()
                    &&& final(self).entries@[e].mount == m
                    &&& final(self).entries@[e].shared == d.shared
                    &&& (if fresh {
                        // a fresh entry, installed as live when shared
                        &&& e == old(self).entries@.len()
                        &&& final(self).entries@[e].refcount == 1
                        &&& final(self).entries@[e].state == EntryState::Starting
                        &&& final(self).entries@[e].created_at == old(self).now
                        &&& (d.shared ==> final(self).registry.mounts@[m].live == Some(s.entry))
                    } else {
                        // every racing caller observes this same entry
                        &&& old(self).registry.mounts@[m].live == Some(s.entry)
                        &&& final(self).entries@[e].refcount == old(self).entries@[e].refcount + 1
                        &&& final(self).registry.mounts@ == old(self).registry.mounts@
                    })
                    // a drained entry is revived, never torn down
                    &&& ((pre_state matches EntryState::Draining { .. }) ==> final(self).entries@[e].state == EntryState::Live)
                    &&& (pre_state == EntryState::Live ==> final(self).entries@[e].state
                        == EntryState::Live)
                    &&& (pre_state == EntryState::Starting ==> final(self).entries@[e].state
                        == EntryState::Starting)
                    // the client limit is honoured
                    &&& (d.max_clients matches Some(mc) ==> final(self).entries@[e].refcount <= mc)
                    // entries other than the bound one are untouched
                    &&& forall|i: int|
                        0 <= i < old(self).entries@.len() && i != e
                            ==> #[trigger] final(self).entries@[i] == old(self).entries@[i]
                    // pipeline preparation starts exactly on first attach
                    &&& (pre_state == EntryState::Empty ==> r.1@ =~= seq![
                        Action::Prepare { entry: s.entry },
                    ])
                    &&& (pre_state != EntryState::Empty ==> r.1@.len() == 0)
                },
                _ => false,
            },
    {
        let ghost pre = *self;
        let mut actions: Vec<Action> = Vec::new();
        let e: usize = match self.resolve_or_create(path) {
            Err(err) => {
                return (Err(err), actions);
            },
            Ok(e) => e,
        };
        let ghost mid = *self;
        proof {
            assert(mid.entry_ok(e as int));
            lemma_count_bound_le_len(mid.sessions@, e as int);
        }
        let st = self.entries[e].state;
        let ps = match st {
            EntryState::Live => PlayState::Ready,
            EntryState::Draining { .. } => PlayState::Ready,
            _ => PlayState::Init,
        };
        let sid = self.sessions.len();
        let now = self.now;
        self.sessions.push(
            Session { entry: e, transport, play_state: ps, last_activity: now, queue_len: 0 },
        );
        let pid = self.next_pipeline_id;
        proof {
            // the session table still fits in a usize, so the entry's
            // refcount (bounded by it) can grow by one
            assert(self.sessions.len() == mid.sessions@.len() + 1);
        }
        let mut ent = self.entries[e];
        let prepare = ent.attach(pid);
        self.entries[e] = ent;
        if prepare {
            self.next_pipeline_id = if pid < u64::MAX {
                pid + 1
            } else {
                pid
            };
            actions.push(Action::Prepare { entry: e });
        }
        proof {
            let post = *self;
            let ei = e as int;
            let new_s = post.sessions@[sid as int];
            // counting: the new session adds one reference to e, none
            // to any other entry
            lemma_count_bound_push(mid.sessions@, new_s, ei);
            assert forall|i: int| 0 <= i < post.entries@.len() implies post.entry_ok(i) by {
                assert(mid.entry_ok(i));
                lemma_count_bound_push(mid.sessions@, new_s, i);
                if i != ei {
                    assert(post.entries@[i] == mid.entries@[i]);
                }
            }
            // sessions bound to e before the attach force the entry to
            // have been starting or live, so its state did not change
            // under them; all other sessions see untouched entries
            if st == EntryState::Empty || (st matches EntryState::Draining { .. }) {
                lemma_count_bound_zero(mid.sessions@, ei);
            }
            assert forall|s: int| 0 <= s < post.sessions@.len() implies post.session_ok(s) by {
                if s < mid.sessions@.len() {
                    assert(mid.session_ok(s));
                    if mid.sessions@[s].is_bound_to(ei) {
                        lemma_count_bound_positive(mid.sessions@, s, ei);
                    }
                }
            }
            assert forall|m: int|
                0 <= m < post.registry.mounts@.len() implies post.mount_ok(m) by {
                assert(mid.mount_ok(m));
            }
            // nothing was stopped and nothing died
            assert forall|i: int|
                0 <= i < post.entries@.len() implies #[trigger] count_stops(actions@, i) == 0 by {
                if prepare {
                    lemma_count_stops_push(Seq::<Action>::empty(), Action::Prepare { entry: e }, i);
                    assert(actions@.drop_last() =~= Seq::<Action>::empty());
                }
            }
            assert(teardown_disciplined(pre, post, actions@));
        }
        (Ok(sid), actions)
    }

    /// Close session `sid` with `reason`: detach from the bound entry
    /// (exactly once — closing is the idempotence guard), notify the
    /// transport, and, if this was the entry's last session, either
    /// start the grace drain or tear the pipeline down at once and
    /// clear the mount's live slot. Idempotent on a closed session.
    pub fn close_session(&mut self, sid: usize, reason: CloseReason) -> (actions: Vec<Action>)
        requires
            old(self).wf(),
            sid < old(self).sessions@.len(),
        ensures
            final(self).wf(),
            final(self).config == old(self).config,
            final(self).now == old(self).now,
            final(self).sessions@.len() == old(self).sessions@.len(),
            final(self).entries@.len() == old(self).entries@.len(),
            final(self).registry.mounts@.len() == old(self).registry.mounts@.len(),
            forall|m: int|
                0 <= m < old(self).registry.mounts@.len()
                    ==> #[trigger] final(self).registry.mounts@[m].descriptor == old(self).registry.mounts@[m].descriptor,
            teardown_disciplined(*old(self), *final(self), actions@),
            close_effect(*old(self), *final(self), sid as int, reason, actions@),
    {
        let ghost pre = *self;
        let mut actions: Vec<Action> = Vec::new();
        let s = self.sessions[sid];
        if s.play_state == PlayState::Closed {
            proof {
                assert forall|i: int|
                    0 <= i < pre.entries@.len() implies #[trigger] count_stops(actions@, i)
                    == 0 by {}
            }
            return actions;
        }
        proof {
            assert(pre.session_ok(sid as int));
            assert(pre.entry_ok(s.entry as int));
            lemma_count_bound_positive(pre.sessions@, sid as int, s.entry as int);
        }
        let e = s.entry;
        self.sessions[sid] = Session {
            entry: s.entry,
            transport: s.transport,
            play_state: PlayState::Closed,
            last_activity: s.last_activity,
            queue_len: 0,
        };
        actions.push(
            Action::CloseTransport { session: sid, transport: s.transport, reason },
        );
        let mut ent = self.entries[e];
        ent.detach();
        let mut stopped = false;
        if ent.refcount == 0 {
            let mut drained = false;
            if ent.shared && ent.state == EntryState::Live {
                match self.config.grace_period {
                    Some(g) => {
                        let now = self.now;
                        let deadline = if g <= u64::MAX - now {
                            now + g
                        } else {
                            u64::MAX
                        };
                        ent.begin_drain(deadline);
                        drained = true;
                    },
                    None => {},
                }
            }
            if !drained {
                ent.release();
                stopped = true;
                actions.push(Action::Stop { entry: e });
                if ent.shared {
                    proof {
                        // this entry was the one in its mount's slot
                        assert(pre.entry_ok(e as int));
                    }
                    self.registry.set_live(ent.mount, None);
                }
            }
        }
        self.entries[e] = ent;
        proof {
            let post = *self;
            let ei = e as int;
            let cs = closed_session(s);
            lemma_count_bound_update(pre.sessions@, sid as int, cs, ei);
            assert forall|i: int| 0 <= i < post.entries@.len() implies post.entry_ok(i) by {
                assert(pre.entry_ok(i));
                lemma_count_bound_update(pre.sessions@, sid as int, cs, i);
                if i != ei {
                    assert(post.entries@[i] == pre.entries@[i]);
                    if pre.entries@[i].shared && !pre.entries@[i].is_gone() {
                        let mi = pre.entries@[i].mount as int;
                        if mi == ent.mount as int && stopped && ent.shared {
                            // the slot held e, so no other live shared
                            // entry can sit on the same mount
                            assert(pre.entries.len() == pre.entries@.len());
                            assert(pre.registry.mounts@[mi].live == Some(i as usize));
                            assert(pre.registry.mounts@[mi].live == Some(e));
                            assert(i as usize == e && i == ei);
                            assert(false);
                        }
                    }
                }
            }
            if ent.refcount == 0 {
                lemma_count_bound_zero(post.sessions@, ei);
            }
            assert forall|j: int| 0 <= j < post.sessions@.len() implies post.session_ok(j) by {
                assert(pre.session_ok(j));
                if j != sid as int && post.sessions@[j].is_bound_to(ei) {
                    lemma_count_bound_positive(post.sessions@, j, ei);
                }
            }
            assert forall|m: int|
                0 <= m < post.registry.mounts@.len() implies post.mount_ok(m) by {
                assert(pre.mount_ok(m));
                if stopped && ent.shared && m == ent.mount as int {
                    assert(post.registry.mounts@[m].live is None);
                }
            }
            assert forall|i: int|
                0 <= i < post.entries@.len() implies #[trigger] count_stops(actions@, i) == (
                if !pre.entries@[i].is_gone() && post.entries@[i].is_gone() {
                    1nat
                } else {
                    0nat
                }) by {
                let first = Action::CloseTransport { session: sid, transport: s.transport, reason };
                lemma_count_stops_push(Seq::<Action>::empty(), first, i);
                assert(seq![first].drop_last() =~= Seq::<Action>::empty());
                if stopped {
                    lemma_count_stops_push(seq![first], Action::Stop { entry: e }, i);
                    assert(actions@ =~= seq![first].push(Action::Stop { entry: e }));
                } else {
                    assert(actions@ =~= seq![first]);
                }
            }
            assert(teardown_disciplined(pre, post, actions@));
            assert(post.sessions@ == pre.sessions@.update(sid as int, cs));
        }
        actions
    }

    /// The engine reports entry `e`'s pipeline prepared: the entry
    /// goes live, the pipeline is started, and every session that was
    /// waiting on it becomes ready. A notification that arrives after
    /// the entry has moved on (it was torn down, failed, or was never
    /// starting) is stale and changes nothing — engine callbacks are
    /// marshaled into the event loop, so they can trail the state.
    pub fn on_pipeline_ready(&mut self, e: usize) -> (actions: Vec<Action>)
        requires
            old(self).wf(),
            e < old(self).entries@.len(),
        ensures
            final(self).wf(),
            final(self).config == old(self).config,
            final(self).now == old(self).now,
            final(self).entries@.len() == old(self).entries@.len(),
            final(self).sessions@.len() == old(self).sessions@.len(),
            teardown_disciplined(*old(self), *final(self), actions@),
            if old(self).entries@[e as int].state == EntryState::Starting {
                let ent = old(self).entries@[e as int];
                &&& final(self).entries@[e as int].state == EntryState::Live
                &&& final(self).entries@[e as int].refcount == ent.refcount
                &&& final(self).entries@[e as int].pipeline == Some(
                    PipelineHandle { id: ent.pipeline->Some_0.id, state: PipelineState::Playing },
                )
                &&& final(self).entries@[e as int].same_identity(ent)
                &&& forall|i: int|
                    0 <= i < old(self).entries@.len() && i != e as int
                        ==> #[trigger] final(self).entries@[i] == old(self).entries@[i]
                &&& final(self).registry == old(self).registry
                &&& forall|j: int|
                    0 <= j < old(self).sessions@.len() ==> #[trigger] final(self).sessions@[j] == (
                    if old(self).sessions@[j].is_bound_to(e as int) {
                        Session { play_state: PlayState::Ready, ..old(self).sessions@[j] }
                    } else {
                        old(self).sessions@[j]
                    })
                &&& actions@ =~= seq![Action::Start { entry: e }]
            } else {
                *final(self) == *old(self) && actions@.len() == 0
            },
    {
        let ghost pre = *self;
        let mut actions: Vec<Action> = Vec::new();
        let st = self.entries[e].state;
        if st != EntryState::Starting {
            proof {
                assert forall|i: int|
                    0 <= i < pre.entries@.len() implies #[trigger] count_stops(actions@, i)
                    == 0 by {}
            }
            return actions;
        }
        proof {
            assert(pre.entry_ok(e as int));
        }
        let mut ent = self.entries[e];
        ent.go_live();
        self.entries[e] = ent;
        let n = self.sessions.len();
        let ghost mid = *self;
        for j in 0..n
            invariant
                n == self.sessions@.len(),
                self.sessions@.len() == pre.sessions@.len(),
                self.entries@ == mid.entries@,
                self.registry == pre.registry,
                self.config == pre.config,
                self.now == pre.now,
                self.next_pipeline_id == pre.next_pipeline_id,
                forall|k: int|
                    0 <= k < j ==> #[trigger] self.sessions@[k] == (if pre.sessions@[k].is_bound_to(
                        e as int,
                    ) {
                        Session { play_state: PlayState::Ready, ..pre.sessions@[k] }
                    } else {
                        pre.sessions@[k]
                    }),
                forall|k: int| j <= k < n ==> #[trigger] self.sessions@[k] == pre.sessions@[k],
                forall|k: int|
                    0 <= k < pre.sessions@.len() ==> pre.session_ok(k),
        {
            let s = self.sessions[j];
            if s.play_state != PlayState::Closed && s.entry == e {
                self.sessions[j] = Session {
                    entry: s.entry,
                    transport: s.transport,
                    play_state: PlayState::Ready,
                    last_activity: s.last_activity,
                    queue_len: s.queue_len,
                };
            }
        }
        actions.push(Action::Start { entry: e });
        proof {
            let post = *self;
            let ei = e as int;
            assert forall|i: int|
                0 <= i < post.entries@.len() implies count_bound(post.sessions@, i) == count_bound(
                pre.sessions@,
                i,
            ) by {
                assert forall|k: int|
                    0 <= k < pre.sessions@.len() implies pre.sessions@[k].is_bound_to(i)
                        == post.sessions@[k].is_bound_to(i) by {}
                lemma_count_bound_congruence(post.sessions@, pre.sessions@, i);
            }
            assert forall|i: int| 0 <= i < post.entries@.len() implies post.entry_ok(i) by {
                assert(pre.entry_ok(i));
            }
            assert forall|k: int| 0 <= k < post.sessions@.len() implies post.session_ok(k) by {
                assert(pre.session_ok(k));
            }
            assert forall|m: int|
                0 <= m < post.registry.mounts@.len() implies post.mount_ok(m) by {
                assert(pre.mount_ok(m));
            }
            assert forall|i: int|
                0 <= i < post.entries@.len() implies #[trigger] count_stops(actions@, i) == 0 by {
                lemma_count_stops_push(Seq::<Action>::empty(), Action::Start { entry: e }, i);
                assert(actions@.drop_last() =~= Seq::<Action>::empty());
            }
            assert(teardown_disciplined(pre, post, actions@));
        }
        actions
    }

    /// The engine reports a fatal failure of entry `e`'s pipeline:
    /// every bound session is forcibly closed — with reason
    /// `PipelineStartFailed` when the pipeline never became live,
    /// `PipelineError` otherwise — the entry dies keeping the
    /// poisoned handle as its record, the engine object is disposed
    /// of, and the mount's live slot is cleared so that the next
    /// request begins a fresh cycle. A stale notification (the entry
    /// is already gone, or never started) changes nothing.
    pub fn on_pipeline_error(&mut self, e: usize) -> (actions: Vec<Action>)
        requires
            old(self).wf(),
            e < old(self).entries@.len(),
        ensures
            final(self).wf(),
            final(self).config == old(self).config,
            final(self).now == old(self).now,
            final(self).entries@.len() == old(self).entries@.len(),
            final(self).sessions@.len() == old(self).sessions@.len(),
            final(self).registry.mounts@.len() == old(self).registry.mounts@.len(),
            forall|m: int|
                0 <= m < old(self).registry.mounts@.len()
                    ==> #[trigger] final(self).registry.mounts@[m].descriptor == old(self).registry.mounts@[m].descriptor,
            teardown_disciplined(*old(self), *final(self), actions@),
            if old(self).entries@[e as int].state == EntryState::Starting || old(self).entries@[e as int].state == EntryState::Live || (old(self).entries@[e as int].state matches EntryState::Draining { .. }) {
                let ent = old(self).entries@[e as int];
                let reason = if ent.state == EntryState::Starting {
                    CloseReason::PipelineStartFailed
                } else {
                    CloseReason::PipelineError
                };
                &&& final(self).entries@[e as int].state == EntryState::Gone
                &&& final(self).entries@[e as int].refcount == 0
                &&& final(self).entries@[e as int].pipeline == Some(
                    PipelineHandle { id: ent.pipeline->Some_0.id, state: PipelineState::Error },
                )
                &&& final(self).entries@[e as int].same_identity(ent)
                &&& forall|i: int|
                    0 <= i < old(self).entries@.len() && i != e as int
                        ==> #[trigger] final(self).entries@[i] == old(self).entries@[i]
                &&& (ent.shared ==> final(self).registry.mounts@ == old(self).registry.mounts@.update(
                    ent.mount as int,
                    Mount {
                        descriptor: old(self).registry.mounts@[ent.mount as int].descriptor,
                        live: None,
                    },
                ))
                &&& (!ent.shared ==> final(self).registry == old(self).registry)
                &&& forall|j: int|
                    0 <= j < old(self).sessions@.len() ==> #[trigger] final(self).sessions@[j] == (
                    if old(self).sessions@[j].is_bound_to(e as int) {
                        closed_session(old(self).sessions@[j])
                    } else {
                        old(self).sessions@[j]
                    })
                &&& forall|j: int|
                    0 <= j < old(self).sessions@.len() && (#[trigger] old(self).sessions@[j]).is_bound_to(
                        e as int,
                    ) ==> actions@.contains(
                        Action::CloseTransport {
                            session: j as usize,
                            transport: old(self).sessions@[j].transport,
                            reason,
                        },
                    )
            } else {
                *final(self) == *old(self) && actions@.len() == 0
            },
    {
        let ghost pre = *self;
        let mut actions: Vec<Action> = Vec::new();
        let st = self.entries[e].state;
        let active = match st {
            EntryState::Starting => true,
            EntryState::Live => true,
            EntryState::Draining { .. } => true,
            _ => false,
        };
        if !active {
            proof {
                assert forall|i: int|
                    0 <= i < pre.entries@.len() implies #[trigger] count_stops(actions@, i)
                    == 0 by {}
            }
            return actions;
        }
        let reason = if st == EntryState::Starting {
            CloseReason::PipelineStartFailed
        } else {
            CloseReason::PipelineError
        };
        proof {
            assert(pre.entry_ok(e as int));
        }
        let n = self.sessions.len();
        for j in 0..n
            invariant
                n == self.sessions@.len(),
                self.sessions@.len() == pre.sessions@.len(),
                (e as int) < pre.entries@.len(),
                self.entries@ == pre.entries@,
                self.registry == pre.registry,
                self.config == pre.config,
                self.now == pre.now,
                self.next_pipeline_id == pre.next_pipeline_id,
                forall|k: int|
                    0 <= k < j ==> #[trigger] self.sessions@[k] == (if pre.sessions@[k].is_bound_to(
                        e as int,
                    ) {
                        closed_session(pre.sessions@[k])
                    } else {
                        pre.sessions@[k]
                    }),
                forall|k: int| j <= k < n ==> #[trigger] self.sessions@[k] == pre.sessions@[k],
                forall|i: int| #[trigger] count_stops(actions@, i) == 0,
                forall|k: int|
                    0 <= k < j && (#[trigger] pre.sessions@[k]).is_bound_to(e as int)
                        ==> actions@.contains(
                        Action::CloseTransport {
                            session: k as usize,
                            transport: pre.sessions@[k].transport,
                            reason,
                        },
                    ),
        {
            let s = self.sessions[j];
            if s.play_state != PlayState::Closed && s.entry == e {
                self.sessions[j] = Session {
                    entry: s.entry,
                    transport: s.transport,
                    play_state: PlayState::Closed,
                    last_activity: s.last_activity,
                    queue_len: 0,
                };
                let a = Action::CloseTransport { session: j, transport: s.transport, reason };
                let ghost before = actions@;
                actions.push(a);
                proof {
                    assert forall|i: int| #[trigger] count_stops(actions@, i) == 0 by {
                        lemma_count_stops_push(before, a, i);
                    }
                    assert(actions@[actions@.len() - 1] == a);
                    assert forall|k: int|
                        0 <= k < j + 1 && (#[trigger] pre.sessions@[k]).is_bound_to(e as int) implies actions@.contains(
                        Action::CloseTransport {
                            session: k as usize,
                            transport: pre.sessions@[k].transport,
                            reason,
                        },
                    ) by {
                        let x = Action::CloseTransport {
                            session: k as usize,
                            transport: pre.sessions@[k].transport,
                            reason,
                        };
                        if k < j {
                            let w = choose|w: int| 0 <= w < before.len() && before[w] == x;
                            assert(actions@[w] == x);
                        } else {
                            assert(actions@[actions@.len() - 1] == x);
                        }
                    }
                }
            }
        }
        let mut ent = self.entries[e];
        ent.fail();
        self.entries[e] = ent;
        if ent.shared {
            self.registry.set_live(ent.mount, None);
        }
        let ghost before_stop = actions@;
        actions.push(Action::Stop { entry: e });
        proof {
            let post = *self;
            let ei = e as int;
            // no session remains bound to the dead entry
            assert forall|k: int|
                0 <= k < post.sessions@.len() implies !(#[trigger] post.sessions@[k]).is_bound_to(
                ei,
            ) by {}
            lemma_count_bound_zero(post.sessions@, ei);
            assert forall|i: int| 0 <= i < post.entries@.len() implies post.entry_ok(i) by {
                assert(pre.entry_ok(i));
                if i != ei {
                    assert forall|k: int|
                        0 <= k < pre.sessions@.len() implies pre.sessions@[k].is_bound_to(i)
                            == post.sessions@[k].is_bound_to(i) by {}
                    lemma_count_bound_congruence(post.sessions@, pre.sessions@, i);
                    if pre.entries@[i].shared && !pre.entries@[i].is_gone() && ent.shared
                        && pre.entries@[i].mount == ent.mount {
                        assert(pre.entries.len() == pre.entries@.len());
                        assert(pre.registry.mounts@[ent.mount as int].live == Some(i as usize));
                        assert(pre.registry.mounts@[ent.mount as int].live == Some(e));
                        assert(false);
                    }
                }
            }
            assert forall|k: int| 0 <= k < post.sessions@.len() implies post.session_ok(k) by {
                assert(pre.session_ok(k));
            }
            assert forall|m: int|
                0 <= m < post.registry.mounts@.len() implies post.mount_ok(m) by {
                assert(pre.mount_ok(m));
                match pre.registry.mounts@[m].live {
                    Some(x) => {
                        if x == e && !(ent.shared && m == ent.mount as int) {
                            // only e's own (shared) mount points at e
                            assert(pre.entries@[e as int].mount == m);
                            assert(pre.registry.mounts@[m].descriptor.shared);
                            assert(ent.shared && m == ent.mount as int);
                        }
                    },
                    None => {},
                }
            }
            assert forall|i: int|
                0 <= i < post.entries@.len() implies #[trigger] count_stops(actions@, i) == (
                if !pre.entries@[i].is_gone() && post.entries@[i].is_gone() {
                    1nat
                } else {
                    0nat
                }) by {
                lemma_count_stops_push(before_stop, Action::Stop { entry: e }, i);
            }
            assert(teardown_disciplined(pre, post, actions@));
            // the close notices survive the final push
            assert forall|j: int|
                0 <= j < pre.sessions@.len() && (#[trigger] pre.sessions@[j]).is_bound_to(ei) implies actions@.contains(
                Action::CloseTransport {
                    session: j as usize,
                    transport: pre.sessions@[j].transport,
                    reason,
                },
            ) by {
                let x = Action::CloseTransport {
                    session: j as usize,
                    transport: pre.sessions@[j].transport,
                    reason,
                };
                let w = choose|w: int| 0 <= w < before_stop.len() && before_stop[w] == x;
                assert(actions@[w] == x);
            }
        }
        actions
    }

    /// The engine produced one sample on entry `e`'s pipeline:
    /// forward it to every playing session bound to the entry. Each
    /// session has its own bounded queue, so delivery to one sibling
    /// never waits on another: every playing session with queue room
    /// is served in this very event, whatever the others' queues look
    /// like. A session whose queue is already full is closed with
    /// `SlowConsumer` instead of stalling the shared pipeline; if
    /// those closures drop the entry's last references, the entry is
    /// settled like any other last detach. Samples for entries that
    /// are not live are dropped.
    pub fn on_sample(&mut self, e: usize) -> (actions: Vec<Action>)
        requires
            old(self).wf(),
            e < old(self).entries@.len(),
        ensures
            final(self).wf(),
            final(self).config == old(self).config,
            final(self).now == old(self).now,
            final(self).entries@.len() == old(self).entries@.len(),
            final(self).sessions@.len() == old(self).sessions@.len(),
            final(self).registry.mounts@.len() == old(self).registry.mounts@.len(),
            forall|m: int|
                0 <= m < old(self).registry.mounts@.len()
                    ==> #[trigger] final(self).registry.mounts@[m].descriptor == old(self).registry.mounts@[m].descriptor,
            teardown_disciplined(*old(self), *final(self), actions@),
            if old(self).entries@[e as int].state == EntryState::Live {
                let cap = old(self).config.queue_capacity;
                &&& forall|j: int|
                    0 <= j < old(self).sessions@.len() ==> #[trigger] final(self).sessions@[j] == (
                    {
                        let s = old(self).sessions@[j];
                        if s.is_bound_to(e as int) && s.play_state == PlayState::Playing {
                            if s.queue_len < cap {
                                Session { queue_len: (s.queue_len + 1) as usize, ..s }
                            } else {
                                closed_session(s)
                            }
                        } else {
                            s
                        }
                    })
                &&& forall|j: int|
                    0 <= j < old(self).sessions@.len() && (#[trigger] old(self).sessions@[j]).is_bound_to(
                        e as int,
                    ) && old(self).sessions@[j].play_state == PlayState::Playing ==> (if old(self).sessions@[j].queue_len
                        < cap {
                        actions@.contains(
                            Action::Deliver {
                                session: j as usize,
                                transport: old(self).sessions@[j].transport,
                            },
                        )
                    } else {
                        actions@.contains(
                            Action::CloseTransport {
                                session: j as usize,
                                transport: old(self).sessions@[j].transport,
                                reason: CloseReason::SlowConsumer,
                            },
                        )
                    })
                &&& forall|i: int|
                    0 <= i < old(self).entries@.len() && i != e as int
                        ==> #[trigger] final(self).entries@[i] == old(self).entries@[i]
                &&& final(self).entries@[e as int].same_identity(old(self).entries@[e as int])
                &&& {
                    let rc = count_bound(final(self).sessions@, e as int);
                    let ent = old(self).entries@[e as int];
                    &&& final(self).entries@[e as int].refcount == rc
                    &&& if rc > 0 {
                        // siblings remain: the entry is untouched
                        &&& final(self).entries@[e as int].state == EntryState::Live
                        &&& final(self).entries@[e as int].pipeline == ent.pipeline
                        &&& final(self).registry == old(self).registry
                    } else if ent.shared && old(self).config.grace_period is Some {
                        &&& final(self).entries@[e as int].state == (EntryState::Draining {
                            deadline: grace_deadline(old(self).now, old(self).config.grace_period->Some_0),
                        })
                        &&& final(self).entries@[e as int].pipeline == ent.pipeline
                        &&& final(self).registry == old(self).registry
                    } else {
                        &&& final(self).entries@[e as int].state == EntryState::Gone
                        &&& final(self).entries@[e as int].pipeline is None
                    }
                }
            } else {
                *final(self) == *old(self) && actions@.len() == 0
            },
    {
        let ghost pre = *self;
        let mut actions: Vec<Action> = Vec::new();
        let st = self.entries[e].state;
        if st != EntryState::Live {
            proof {
                assert forall|i: int|
                    0 <= i < pre.entries@.len() implies #[trigger] count_stops(actions@, i)
                    == 0 by {}
            }
            return actions;
        }
        proof {
            assert(pre.entry_ok(e as int));
        }
        let cap = self.config.queue_capacity;
        let n = self.sessions.len();
        let mut closed: usize = 0;
        for j in 0..n
            invariant
                pre.wf(),
                n == self.sessions@.len(),
                self.sessions@.len() == pre.sessions@.len(),
                (e as int) < pre.entries@.len(),
                cap == pre.config.queue_capacity,
                self.entries@ == pre.entries@,
                self.registry == pre.registry,
                self.config == pre.config,
                self.now == pre.now,
                self.next_pipeline_id == pre.next_pipeline_id,
                closed <= j,
                count_bound(self.sessions@, e as int) + closed == count_bound(
                    pre.sessions@,
                    e as int,
                ),
                forall|i: int|
                    i != e as int ==> #[trigger] count_bound(self.sessions@, i) == count_bound(
                        pre.sessions@,
                        i,
                    ),
                forall|k: int|
                    0 <= k < j ==> #[trigger] self.sessions@[k] == ({
                        let s = pre.sessions@[k];
                        if s.is_bound_to(e as int) && s.play_state == PlayState::Playing {
                            if s.queue_len < cap {
                                Session { queue_len: (s.queue_len + 1) as usize, ..s }
                            } else {
                                closed_session(s)
                            }
                        } else {
                            s
                        }
                    }),
                forall|k: int| j <= k < n ==> #[trigger] self.sessions@[k] == pre.sessions@[k],
                forall|i: int| #[trigger] count_stops(actions@, i) == 0,
                forall|k: int|
                    0 <= k < j && (#[trigger] pre.sessions@[k]).is_bound_to(e as int)
                        && pre.sessions@[k].play_state == PlayState::Playing ==> (if pre.sessions@[k].queue_len < cap {
                        actions@.contains(
                            Action::Deliver {
                                session: k as usize,
                                transport: pre.sessions@[k].transport,
                            },
                        )
                    } else {
                        actions@.contains(
                            Action::CloseTransport {
                                session: k as usize,
                                transport: pre.sessions@[k].transport,
                                reason: CloseReason::SlowConsumer,
                            },
                        )
                    }),
        {
            let s = self.sessions[j];
            if s.play_state == PlayState::Playing && s.entry == e {
                proof {
                    // the queue bound comes from the session invariant
                    assert(pre.session_ok(j as int));
                    assert(pre.sessions@[j as int] == s);
                }
                let ghost before_s = self.sessions@;
                let ghost before_a = actions@;
                if s.queue_len < cap {
                    let bumped = Session {
                        entry: s.entry,
                        transport: s.transport,
                        play_state: s.play_state,
                        last_activity: s.last_activity,
                        queue_len: s.queue_len + 1,
                    };
                    self.sessions[j] = bumped;
                    let a = Action::Deliver { session: j, transport: s.transport };
                    actions.push(a);
                    proof {
                        assert forall|i: int|
                            #[trigger] count_bound(self.sessions@, i) + (if i == e as int {
                                closed as int
                            } else {
                                0int
                            }) == count_bound(pre.sessions@, i) + 0int by {
                            lemma_count_bound_update(before_s, j as int, bumped, i);
                        }
                        assert forall|i: int| #[trigger] count_stops(actions@, i) == 0 by {
                            lemma_count_stops_push(before_a, a, i);
                        }
                        assert(actions@[actions@.len() - 1] == a);
                    }
                } else {
                    let closed_s = Session {
                        entry: s.entry,
                        transport: s.transport,
                        play_state: PlayState::Closed,
                        last_activity: s.last_activity,
                        queue_len: 0,
                    };
                    self.sessions[j] = closed_s;
                    let a = Action::CloseTransport {
                        session: j,
                        transport: s.transport,
                        reason: CloseReason::SlowConsumer,
                    };
                    actions.push(a);
                    closed = closed + 1;
                    proof {
                        assert forall|i: int|
                            i != e as int implies #[trigger] count_bound(self.sessions@, i)
                            == count_bound(pre.sessions@, i) by {
                            lemma_count_bound_update(before_s, j as int, closed_s, i);
                        }
                        lemma_count_bound_update(before_s, j as int, closed_s, e as int);
                        assert forall|i: int| #[trigger] count_stops(actions@, i) == 0 by {
                            lemma_count_stops_push(before_a, a, i);
                        }
                        assert(actions@[actions@.len() - 1] == a);
                    }
                }
                proof {
                    assert forall|k: int|
                        0 <= k < j + 1 && (#[trigger] pre.sessions@[k]).is_bound_to(e as int)
                            && pre.sessions@[k].play_state == PlayState::Playing implies (
                    if pre.sessions@[k].queue_len < cap {
                        actions@.contains(
                            Action::Deliver {
                                session: k as usize,
                                transport: pre.sessions@[k].transport,
                            },
                        )
                    } else {
                        actions@.contains(
                            Action::CloseTransport {
                                session: k as usize,
                                transport: pre.sessions@[k].transport,
                                reason: CloseReason::SlowConsumer,
                            },
                        )
                    }) by {
                        if k < j {
                            if pre.sessions@[k].queue_len < cap {
                                let x = Action::Deliver {
                                    session: k as usize,
                                    transport: pre.sessions@[k].transport,
                                };
                                let w = choose|w: int|
                                    0 <= w < before_a.len() && before_a[w] == x;
                                assert(actions@[w] == x);
                            } else {
                                let x = Action::CloseTransport {
                                    session: k as usize,
                                    transport: pre.sessions@[k].transport,
                                    reason: CloseReason::SlowConsumer,
                                };
                                let w = choose|w: int|
                                    0 <= w < before_a.len() && before_a[w] == x;
                                assert(actions@[w] == x);
                            }
                        }
                    }
                }
            }
        }
        let mut ent = self.entries[e];
        let mut stopped = false;
        if closed > 0 {
            proof {
                lemma_count_bound_le_len(self.sessions@, e as int);
            }
            ent.detach_many(closed);
            if ent.refcount == 0 {
                let mut drained = false;
                if ent.shared {
                    match self.config.grace_period {
                        Some(g) => {
                            let now = self.now;
                            let deadline = if g <= u64::MAX - now {
                                now + g
                            } else {
                                u64::MAX
                            };
                            ent.begin_drain(deadline);
                            drained = true;
                        },
                        None => {},
                    }
                }
                if !drained {
                    ent.release();
                    stopped = true;
                    if ent.shared {
                        self.registry.set_live(ent.mount, None);
                    }
                }
            }
        }
        self.entries[e] = ent;
        let ghost before_stop = actions@;
        if stopped {
            actions.push(Action::Stop { entry: e });
        }
        proof {
            let post = *self;
            let ei = e as int;
            if ent.refcount == 0 {
                lemma_count_bound_zero(post.sessions@, ei);
            }
            assert forall|i: int| 0 <= i < post.entries@.len() implies post.entry_ok(i) by {
                assert(pre.entry_ok(i));
                if i != ei {
                    assert(post.entries@[i] == pre.entries@[i]);
                    if pre.entries@[i].shared && !pre.entries@[i].is_gone() && stopped
                        && ent.shared && pre.entries@[i].mount == ent.mount {
                        assert(pre.entries.len() == pre.entries@.len());
                        assert(pre.registry.mounts@[ent.mount as int].live == Some(i as usize));
                        assert(pre.registry.mounts@[ent.mount as int].live == Some(e));
                        assert(i as usize == e && i == ei);
                        assert(false);
                    }
                }
            }
            assert forall|k: int| 0 <= k < post.sessions@.len() implies post.session_ok(k) by {
                assert(pre.session_ok(k));
                if post.sessions@[k].is_bound_to(ei) {
                    lemma_count_bound_positive(post.sessions@, k, ei);
                }
            }
            assert forall|m: int|
                0 <= m < post.registry.mounts@.len() implies post.mount_ok(m) by {
                assert(pre.mount_ok(m));
                if stopped && ent.shared && m == ent.mount as int {
                    assert(post.registry.mounts@[m].live is None);
                }
            }
            assert forall|i: int|
                0 <= i < post.entries@.len() implies #[trigger] count_stops(actions@, i) == (
                if !pre.entries@[i].is_gone() && post.entries@[i].is_gone() {
                    1nat
                } else {
                    0nat
                }) by {
                if stopped {
                    lemma_count_stops_push(before_stop, Action::Stop { entry: e }, i);
                }
            }
            assert(teardown_disciplined(pre, post, actions@));
            if stopped {
                assert forall|k: int|
                    0 <= k < pre.sessions@.len() && (#[trigger] pre.sessions@[k]).is_bound_to(ei)
                        && pre.sessions@[k].play_state == PlayState::Playing implies (
                if pre.sessions@[k].queue_len < pre.config.queue_capacity {
                    actions@.contains(
                        Action::Deliver { session: k as usize, transport: pre.sessions@[k].transport },
                    )
                } else {
                    actions@.contains(
                        Action::CloseTransport {
                            session: k as usize,
                            transport: pre.sessions@[k].transport,
                            reason: CloseReason::SlowConsumer,
                        },
                    )
                }) by {
                    if pre.sessions@[k].queue_len < pre.config.queue_capacity {
                        let x = Action::Deliver {
                            session: k as usize,
                            transport: pre.sessions@[k].transport,
                        };
                        let w = choose|w: int| 0 <= w < before_stop.len() && before_stop[w] == x;
                        assert(actions@[w] == x);
                    } else {
                        let x = Action::CloseTransport {
                            session: k as usize,
                            transport: pre.sessions@[k].transport,
                            reason: CloseReason::SlowConsumer,
                        };
                        let w = choose|w: int| 0 <= w < before_stop.len() && before_stop[w] == x;
                        assert(actions@[w] == x);
                    }
                }
            }
        }
        actions
    }

    /// Advance the logical clock to `now` and fire both kinds of
    /// timer. Sessions whose keep-alive window has lapsed are closed
    /// with `Timeout` (through the ordinary close path, so a last
    /// detach drains or tears down as usual). Draining entries whose
    /// grace deadline has passed are torn down: the pipeline stopped
    /// exactly once, the handle released and the mount's live slot
    /// cleared, so a later request creates a fresh entry. A draining
    /// entry whose deadline is still ahead is left completely alone.
    pub fn tick(&mut self, now: u64) -> (actions: Vec<Action>)
        requires
            old(self).wf(),
            now >= old(self).now,
        ensures
            final(self).wf(),
            final(self).now == now,
            final(self).config == old(self).config,
            final(self).entries@.len() == old(self).entries@.len(),
            final(self).sessions@.len() == old(self).sessions@.len(),
            final(self).registry.mounts@.len() == old(self).registry.mounts@.len(),
            forall|m: int|
                0 <= m < old(self).registry.mounts@.len()
                    ==> #[trigger] final(self).registry.mounts@[m].descriptor == old(self).registry.mounts@[m].descriptor,
            teardown_disciplined(*old(self), *final(self), actions@),
            // keep-alive sweep: exactly the lapsed sessions close
            forall|s: int|
                0 <= s < old(self).sessions@.len() ==> #[trigger] final(self).sessions@[s] == (
                if old(self).sessions@[s].play_state != PlayState::Closed && old(self).sessions@[s].last_activity + old(self).config.keepalive < now {
                    closed_session(old(self).sessions@[s])
                } else {
                    old(self).sessions@[s]
                }),
            forall|s: int|
                0 <= s < old(self).sessions@.len() && (#[trigger] old(self).sessions@[s]).play_state
                    != PlayState::Closed && old(self).sessions@[s].last_activity + old(self).config.keepalive
                    < now ==> actions@.contains(
                    Action::CloseTransport {
                        session: s as usize,
                        transport: old(self).sessions@[s].transport,
                        reason: CloseReason::Timeout,
                    },
                ),
            // grace sweep: an unexpired drain is untouched, an
            // expired one is gone with its handle released
            forall|e: int|
                0 <= e < old(self).entries@.len() ==> (match (#[trigger] old(self).entries@[e]).state {
                    EntryState::Draining { deadline } => {
                        &&& (deadline > now ==> final(self).entries@[e] == old(self).entries@[e])
                        &&& (deadline <= now ==> final(self).entries@[e].state == EntryState::Gone
                            && final(self).entries@[e].pipeline is None && final(self).entries@[e].same_identity(old(self).entries@[e]))
                    },
                    _ => true,
                }),
    {
        let ghost pre0 = *self;
        self.now = now;
        let ghost pre = *self;
        proof {
            assert forall|s: int| 0 <= s < pre.sessions@.len() implies pre.session_ok(s) by {
                assert(pre0.session_ok(s));
            }
            assert forall|i: int| 0 <= i < pre.entries@.len() implies pre.entry_ok(i) by {
                assert(pre0.entry_ok(i));
            }
            assert forall|m: int|
                0 <= m < pre.registry.mounts@.len() implies pre.mount_ok(m) by {
                assert(pre0.mount_ok(m));
            }
            assert(pre.wf());
        }
        let mut actions: Vec<Action> = Vec::new();
        let keepalive = self.config.keepalive;
        let n = self.sessions.len();
        for j in 0..n
            invariant
                pre.wf(),
                self.wf(),
                n == pre.sessions@.len(),
                self.sessions@.len() == pre.sessions@.len(),
                self.entries@.len() == pre.entries@.len(),
                self.registry.mounts@.len() == pre.registry.mounts@.len(),
                self.config == pre.config,
                self.now == now,
                keepalive == pre.config.keepalive,
                now == pre.now,
                forall|m: int|
                    0 <= m < pre.registry.mounts@.len()
                        ==> #[trigger] self.registry.mounts@[m].descriptor == pre.registry.mounts@[m].descriptor,
                forall|k: int|
                    0 <= k < j ==> #[trigger] self.sessions@[k] == (if pre.sessions@[k].play_state
                        != PlayState::Closed && pre.sessions@[k].last_activity + keepalive < now {
                        closed_session(pre.sessions@[k])
                    } else {
                        pre.sessions@[k]
                    }),
                forall|k: int| j <= k < n ==> #[trigger] self.sessions@[k] == pre.sessions@[k],
                forall|i: int|
                    0 <= i < pre.entries@.len() && pre.entries@[i].is_gone()
                        ==> #[trigger] self.entries@[i] == pre.entries@[i],
                forall|i: int|
                    0 <= i < pre.entries@.len() && (pre.entries@[i].state matches
                        EntryState::Draining { .. }) ==> #[trigger] self.entries@[i]
                        == pre.entries@[i],
                forall|i: int|
                    0 <= i < pre.entries@.len() ==> #[trigger] count_stops(actions@, i) == (
                    if !pre.entries@[i].is_gone() && self.entries@[i].is_gone() {
                        1nat
                    } else {
                        0nat
                    }),
                forall|k: int|
                    0 <= k < j && (#[trigger] pre.sessions@[k]).play_state != PlayState::Closed
                        && pre.sessions@[k].last_activity + keepalive < now ==> actions@.contains(
                        Action::CloseTransport {
                            session: k as usize,
                            transport: pre.sessions@[k].transport,
                            reason: CloseReason::Timeout,
                        },
                    ),
        {
            let s = self.sessions[j];
            proof {
                // an open session's activity stamp never lies ahead
                // of the clock, so the age computation cannot wrap
                assert(self.session_ok(j as int));
            }
            if s.play_state != PlayState::Closed && now - s.last_activity > keepalive {
                let ghost before_a = actions@;
                let ghost before_d = *self;
                let mut delta = self.close_session(j, CloseReason::Timeout);
                let ghost delta_view = delta@;
                actions.append(&mut delta);
                proof {
                    assert(actions@ == before_a + delta_view);
                    // the closed session's entry was starting or live,
                    // so entries that were gone or draining at the
                    // start of the tick are still untouched
                    let eb = before_d.sessions@[j as int].entry as int;
                    assert(before_d.session_ok(j as int));
                    assert forall|i: int|
                        0 <= i < pre.entries@.len() && (pre.entries@[i].state matches
                            EntryState::Draining { .. }) implies #[trigger] self.entries@[i]
                        == pre.entries@[i] by {
                        assert(before_d.entries@[i] == pre.entries@[i]);
                        if i == eb {
                            assert(false);
                        }
                    }
                    assert forall|i: int|
                        0 <= i < pre.entries@.len() && pre.entries@[i].is_gone() implies #[trigger] self.entries@[i]
                        == pre.entries@[i] by {
                        assert(before_d.entries@[i] == pre.entries@[i]);
                        if i == eb {
                            assert(false);
                        }
                    }
                    assert forall|i: int|
                        0 <= i < pre.entries@.len() implies #[trigger] count_stops(actions@, i)
                        == (if !pre.entries@[i].is_gone() && self.entries@[i].is_gone() {
                            1nat
                        } else {
                            0nat
                        }) by {
                        lemma_count_stops_concat(before_a, delta_view, i);
                    }
                    let x = Action::CloseTransport {
                        session: j as usize,
                        transport: s.transport,
                        reason: CloseReason::Timeout,
                    };
                    assert(delta_view[0] == x);
                    assert(actions@[before_a.len() as int] == x);
                    assert forall|k: int|
                        0 <= k < j + 1 && (#[trigger] pre.sessions@[k]).play_state
                            != PlayState::Closed && pre.sessions@[k].last_activity + keepalive
                            < now implies actions@.contains(
                        Action::CloseTransport {
                            session: k as usize,
                            transport: pre.sessions@[k].transport,
                            reason: CloseReason::Timeout,
                        },
                    ) by {
                        let y = Action::CloseTransport {
                            session: k as usize,
                            transport: pre.sessions@[k].transport,
                            reason: CloseReason::Timeout,
                        };
                        if k < j {
                            let w = choose|w: int| 0 <= w < before_a.len() && before_a[w] == y;
                            assert(actions@[w] == y);
                        } else {
                            assert(actions@[before_a.len() as int] == y);
                        }
                    }
                }
            }
        }
        // grace sweep over the entries as the keep-alive sweep left
        // them: entries that were already draining when the tick
        // began, plus any drains the closures above have just begun
        let ghost mid = *self;
        let ne = self.entries.len();
        for i in 0..ne
            invariant
                pre.wf(),
                mid.wf(),
                self.wf(),
                ne == mid.entries@.len(),
                self.entries@.len() == mid.entries@.len(),
                mid.entries@.len() == pre.entries@.len(),
                self.sessions@ == mid.sessions@,
                self.registry.mounts@.len() == mid.registry.mounts@.len(),
                mid.registry.mounts@.len() == pre.registry.mounts@.len(),
                self.config == pre.config,
                self.now == now,
                now == pre.now,
                forall|m: int|
                    0 <= m < pre.registry.mounts@.len()
                        ==> #[trigger] self.registry.mounts@[m].descriptor == pre.registry.mounts@[m].descriptor,
                forall|k: int|
                    0 <= k < i ==> #[trigger] self.entries@[k] == (match mid.entries@[k].state {
                        EntryState::Draining { deadline } => if deadline <= now {
                            MediaEntry {
                                state: EntryState::Gone,
                                pipeline: None,
                                ..mid.entries@[k]
                            }
                        } else {
                            mid.entries@[k]
                        },
                        _ => mid.entries@[k],
                    }),
                forall|k: int| i <= k < ne ==> #[trigger] self.entries@[k] == mid.entries@[k],
                forall|k: int|
                    0 <= k < pre.entries@.len() && pre.entries@[k].is_gone()
                        ==> #[trigger] mid.entries@[k] == pre.entries@[k],
                forall|k: int|
                    0 <= k < pre.entries@.len() && (pre.entries@[k].state matches
                        EntryState::Draining { .. }) ==> #[trigger] mid.entries@[k]
                        == pre.entries@[k],
                forall|k: int|
                    0 <= k < pre.entries@.len() ==> #[trigger] count_stops(actions@, k) == (
                    if !pre.entries@[k].is_gone() && self.entries@[k].is_gone() {
                        1nat
                    } else {
                        0nat
                    }),
                forall|k: int|
                    0 <= k < pre.sessions@.len() && (#[trigger] pre.sessions@[k]).play_state
                        != PlayState::Closed && pre.sessions@[k].last_activity + keepalive < now
                        ==> actions@.contains(
                        Action::CloseTransport {
                            session: k as usize,
                            transport: pre.sessions@[k].transport,
                            reason: CloseReason::Timeout,
                        },
                    ),
        {
            let ent0 = self.entries[i];
            let expired = match ent0.state {
                EntryState::Draining { deadline } => deadline <= now,
                _ => false,
            };
            if expired {
                proof {
                    assert(self.entry_ok(i as int));
                }
                let ghost before_d = *self;
                let ghost before_a = actions@;
                let mut ent = ent0;
                ent.release();
                self.entries[i] = ent;
                self.registry.set_live(ent.mount, None);
                actions.push(Action::Stop { entry: i });
                proof {
                    let post = *self;
                    let ei = i as int;
                    lemma_count_bound_zero(post.sessions@, ei);
                    assert forall|k: int|
                        0 <= k < post.entries@.len() implies post.entry_ok(k) by {
                        assert(before_d.entry_ok(k));
                        if k != ei {
                            assert(post.entries@[k] == before_d.entries@[k]);
                            if before_d.entries@[k].shared && !before_d.entries@[k].is_gone()
                                && before_d.entries@[k].mount == ent.mount {
                                assert(before_d.entries.len() == before_d.entries@.len());
                                assert(before_d.registry.mounts@[ent.mount as int].live == Some(
                                    k as usize,
                                ));
                                assert(before_d.registry.mounts@[ent.mount as int].live == Some(
                                    i,
                                ));
                                assert(k as usize == i && k == ei);
                                assert(false);
                            }
                        }
                    }
                    assert forall|k: int|
                        0 <= k < post.sessions@.len() implies post.session_ok(k) by {
                        assert(before_d.session_ok(k));
                        if post.sessions@[k].is_bound_to(ei) {
                            lemma_count_bound_positive(post.sessions@, k, ei);
                        }
                    }
                    assert forall|m: int|
                        0 <= m < post.registry.mounts@.len() implies post.mount_ok(m) by {
                        assert(before_d.mount_ok(m));
                        if m == ent.mount as int {
                            assert(post.registry.mounts@[m].live is None);
                        }
                    }
                    assert forall|k: int|
                        0 <= k < pre.entries@.len() implies #[trigger] count_stops(actions@, k)
                        == (if !pre.entries@[k].is_gone() && post.entries@[k].is_gone() {
                            1nat
                        } else {
                            0nat
                        }) by {
                        lemma_count_stops_push(before_a, Action::Stop { entry: i }, k);
                    }
                    assert forall|k: int|
                        0 <= k < pre.sessions@.len() && (#[trigger] pre.sessions@[k]).play_state
                            != PlayState::Closed && pre.sessions@[k].last_activity + keepalive
                            < now implies actions@.contains(
                        Action::CloseTransport {
                            session: k as usize,
                            transport: pre.sessions@[k].transport,
                            reason: CloseReason::Timeout,
                        },
                    ) by {
                        let y = Action::CloseTransport {
                            session: k as usize,
                            transport: pre.sessions@[k].transport,
                            reason: CloseReason::Timeout,
                        };
                        let w = choose|w: int| 0 <= w < before_a.len() && before_a[w] == y;
                        assert(actions@[w] == y);
                    }
                }
            }
        }
        proof {
            assert(teardown_disciplined(pre0, *self, actions@));
        }
        actions
    }

    /// A keep-alive arrived for session `sid`: refresh its activity
    /// stamp. Ignored on a closed session; returns whether it counted.
    pub fn touch_session(&mut self, sid: usize) -> (r: bool)
        requires
            old(self).wf(),
            sid < old(self).sessions@.len(),
        ensures
            final(self).wf(),
            r == (old(self).sessions@[sid as int].play_state != PlayState::Closed),
            final(self).sessions@ == (if r {
                old(self).sessions@.update(
                    sid as int,
                    Session { last_activity: old(self).now, ..old(self).sessions@[sid as int] },
                )
            } else {
                old(self).sessions@
            }),
            final(self).entries@ == old(self).entries@,
            final(self).registry == old(self).registry,
            final(self).config == old(self).config,
            final(self).now == old(self).now,
    {
        let ghost pre = *self;
        let s = self.sessions[sid];
        if s.play_state == PlayState::Closed {
            return false;
        }
        let now = self.now;
        self.sessions[sid] = Session {
            entry: s.entry,
            transport: s.transport,
            play_state: s.play_state,
            last_activity: now,
            queue_len: s.queue_len,
        };
        proof {
            let post = *self;
            assert forall|i: int| 0 <= i < post.entries@.len() implies post.entry_ok(i) by {
                assert(pre.entry_ok(i));
                lemma_count_bound_update(pre.sessions@, sid as int, post.sessions@[sid as int], i);
            }
            assert forall|k: int| 0 <= k < post.sessions@.len() implies post.session_ok(k) by {
                assert(pre.session_ok(k));
            }
            assert forall|m: int|
                0 <= m < post.registry.mounts@.len() implies post.mount_ok(m) by {
                assert(pre.mount_ok(m));
            }
        }
        true
    }

    /// The client asked session `sid` to play. Honoured when the
    /// session is ready or paused (its entry is live then); counts as
    /// activity. On an exclusive entry a held pipeline is resumed.
    pub fn play_session(&mut self, sid: usize) -> (r: (bool, Vec<Action>))
        requires
            old(self).wf(),
            sid < old(self).sessions@.len(),
        ensures
            final(self).wf(),
            r.0 == (old(self).sessions@[sid as int].play_state == PlayState::Ready || old(self).sessions@[sid as int].play_state == PlayState::Paused),
            !r.0 ==> *final(self) == *old(self) && r.1@.len() == 0,
            r.0 ==> {
                let s = old(self).sessions@[sid as int];
                let e = s.entry as int;
                let ent = old(self).entries@[e];
                &&& final(self).sessions@ == old(self).sessions@.update(
                    sid as int,
                    Session { play_state: PlayState::Playing, last_activity: old(self).now, ..s },
                )
                &&& final(self).registry == old(self).registry
                &&& final(self).config == old(self).config
                &&& final(self).now == old(self).now
                &&& forall|i: int|
                    0 <= i < old(self).entries@.len() && i != e
                        ==> #[trigger] final(self).entries@[i] == old(self).entries@[i]
                &&& if !ent.shared && ent.pipeline == Some(
                    PipelineHandle {
                        id: ent.pipeline->Some_0.id,
                        state: PipelineState::Paused,
                    },
                ) {
                    &&& final(self).entries@[e] == (MediaEntry {
                        pipeline: Some(
                            PipelineHandle {
                                id: ent.pipeline->Some_0.id,
                                state: PipelineState::Playing,
                            },
                        ),
                        ..ent
                    })
                    &&& r.1@ =~= seq![Action::Start { entry: s.entry }]
                } else {
                    &&& final(self).entries@[e] == ent
                    &&& r.1@.len() == 0
                }
            },
    {
        let ghost pre = *self;
        let mut actions: Vec<Action> = Vec::new();
        let s = self.sessions[sid];
        let playable = s.play_state == PlayState::Ready || s.play_state == PlayState::Paused;
        if !playable {
            return (false, actions);
        }
        proof {
            assert(pre.session_ok(sid as int));
            assert(pre.entry_ok(s.entry as int));
        }
        let now = self.now;
        self.sessions[sid] = Session {
            entry: s.entry,
            transport: s.transport,
            play_state: PlayState::Playing,
            last_activity: now,
            queue_len: s.queue_len,
        };
        let mut ent = self.entries[s.entry];
        if !ent.shared {
            let paused = match ent.pipeline {
                Some(p) => p.state == PipelineState::Paused,
                None => false,
            };
            if paused {
                ent.unhold();
                self.entries[s.entry] = ent;
                actions.push(Action::Start { entry: s.entry });
            }
        }
        proof {
            let post = *self;
            assert forall|i: int| 0 <= i < post.entries@.len() implies post.entry_ok(i) by {
                assert(pre.entry_ok(i));
                lemma_count_bound_update(pre.sessions@, sid as int, post.sessions@[sid as int], i);
            }
            assert forall|k: int| 0 <= k < post.sessions@.len() implies post.session_ok(k) by {
                assert(pre.session_ok(k));
            }
            assert forall|m: int|
                0 <= m < post.registry.mounts@.len() implies post.mount_ok(m) by {
                assert(pre.mount_ok(m));
            }
        }
        (true, actions)
    }

    /// The client asked session `sid` to pause: delivery to it stops
    /// (samples for paused sessions are simply not queued); counts as
    /// activity. On an exclusive entry the pipeline itself is held —
    /// a shared pipeline keeps running for the siblings.
    pub fn pause_session(&mut self, sid: usize) -> (r: (bool, Vec<Action>))
        requires
            old(self).wf(),
            sid < old(self).sessions@.len(),
        ensures
            final(self).wf(),
            r.0 == (old(self).sessions@[sid as int].play_state == PlayState::Playing),
            !r.0 ==> *final(self) == *old(self) && r.1@.len() == 0,
            r.0 ==> {
                let s = old(self).sessions@[sid as int];
                let e = s.entry as int;
                let ent = old(self).entries@[e];
                &&& final(self).sessions@ == old(self).sessions@.update(
                    sid as int,
                    Session { play_state: PlayState::Paused, last_activity: old(self).now, ..s },
                )
                &&& final(self).registry == old(self).registry
                &&& final(self).config == old(self).config
                &&& final(self).now == old(self).now
                &&& forall|i: int|
                    0 <= i < old(self).entries@.len() && i != e
                        ==> #[trigger] final(self).entries@[i] == old(self).entries@[i]
                &&& if !ent.shared {
                    &&& final(self).entries@[e] == (MediaEntry {
                        pipeline: Some(
                            PipelineHandle {
                                id: ent.pipeline->Some_0.id,
                                state: PipelineState::Paused,
                            },
                        ),
                        ..ent
                    })
                    &&& r.1@ =~= seq![Action::Pause { entry: s.entry }]
                } else {
                    &&& final(self).entries@[e] == ent
                    &&& r.1@.len() == 0
                }
            },
    {
        let ghost pre = *self;
        let mut actions: Vec<Action> = Vec::new();
        let s = self.sessions[sid];
        if s.play_state != PlayState::Playing {
            return (false, actions);
        }
        proof {
            assert(pre.session_ok(sid as int));
            assert(pre.entry_ok(s.entry as int));
        }
        let now = self.now;
        self.sessions[sid] = Session {
            entry: s.entry,
            transport: s.transport,
            play_state: PlayState::Paused,
            last_activity: now,
            queue_len: s.queue_len,
        };
        let mut ent = self.entries[s.entry];
        if !ent.shared {
            ent.hold();
            self.entries[s.entry] = ent;
            actions.push(Action::Pause { entry: s.entry });
        }
        proof {
            let post = *self;
            assert forall|i: int| 0 <= i < post.entries@.len() implies post.entry_ok(i) by {
                assert(pre.entry_ok(i));
                lemma_count_bound_update(pre.sessions@, sid as int, post.sessions@[sid as int], i);
            }
            assert forall|k: int| 0 <= k < post.sessions@.len() implies post.session_ok(k) by {
                assert(pre.session_ok(k));
            }
            assert forall|m: int|
                0 <= m < post.registry.mounts@.len() implies post.mount_ok(m) by {
                assert(pre.mount_ok(m));
            }
        }
        (true, actions)
    }

    /// The transport reports one queued sample flushed for session
    /// `sid`: its delivery queue shrinks by one. Ignored for closed
    /// sessions and empty queues (a stale notification).
    pub fn on_sample_sent(&mut self, sid: usize) -> (r: bool)
        requires
            old(self).wf(),
            sid < old(self).sessions@.len(),
        ensures
            final(self).wf(),
            r == (old(self).sessions@[sid as int].play_state != PlayState::Closed && old(self).sessions@[sid as int].queue_len > 0),
            final(self).sessions@ == (if r {
                old(self).sessions@.update(
                    sid as int,
                    Session {
                        queue_len: (old(self).sessions@[sid as int].queue_len - 1) as usize,
                        ..old(self).sessions@[sid as int]
                    },
                )
            } else {
                old(self).sessions@
            }),
            final(self).entries@ == old(self).entries@,
            final(self).registry == old(self).registry,
            final(self).config == old(self).config,
            final(self).now == old(self).now,
    {
        let ghost pre = *self;
        let s = self.sessions[sid];
        if s.play_state == PlayState::Closed || s.queue_len == 0 {
            return false;
        }
        self.sessions[sid] = Session {
            entry: s.entry,
            transport: s.transport,
            play_state: s.play_state,
            last_activity: s.last_activity,
            queue_len: s.queue_len - 1,
        };
        proof {
            let post = *self;
            assert forall|i: int| 0 <= i < post.entries@.len() implies post.entry_ok(i) by {
                assert(pre.entry_ok(i));
                lemma_count_bound_update(pre.sessions@, sid as int, post.sessions@[sid as int], i);
            }
            assert forall|k: int| 0 <= k < post.sessions@.len() implies post.session_ok(k) by {
                assert(pre.session_ok(k));
            }
            assert forall|m: int|
                0 <= m < post.registry.mounts@.len() implies post.mount_ok(m) by {
                assert(pre.mount_ok(m));
            }
        }
        true
    }

    /// The live entry currently installed for `path`, if the path is
    /// mounted and a shared pipeline is up for it.
    pub fn live_entry(&self, path: &str) -> (r: Option<usize>)
        requires
            self.wf(),
        ensures
            r == (if self.registry.has_path(path@) {
                self.registry.mounts@[self.registry.index_of(path@)].live
            } else {
                None::<usize>
            }),
    {
        let key: String = path.to_owned();
        match self.registry.find(&key) {
            Some(m) => self.registry.mounts[m].live,
            None => None,
        }
    }

    /// The pipeline description entry `e` was resolved from; what the
    /// surrounding process hands to the engine on a `Prepare` action.
    pub fn launch_spec_of(&self, e: usize) -> (l: String)
        requires
            self.wf(),
            e < self.entries@.len(),
        ensures
            l@ == self.registry.mounts@[self.entries@[e as int].mount as int].descriptor.launch_spec@,
    {
        proof {
            assert(self.entry_ok(e as int));
        }
        self.registry.mounts[self.entries[e].mount].descriptor.launch_spec.clone()
    }
}

} // verus!
