//! The library-wide laws, stated as standalone proofs over the
//! dispatcher's invariant. Each holds between any two events, because
//! every dispatcher operation requires and re-establishes
//! [`Dispatcher::wf`](crate::dispatcher::Dispatcher::wf).

use vstd::prelude::*;
use crate::counting::count_bound;
use crate::dispatcher::Dispatcher;
use crate::entry::EntryState;
use crate::session::PlayState;

verus! {

/// One live pipeline instance per shared path: two entries of the
/// same mount that are both shared and not yet gone are the same
/// entry. Since `resolve_or_create` hands out exactly the mount's
/// live entry whenever one exists, every caller that resolves a
/// shared path before the entry dies observes the identical instance.
pub proof fn lemma_shared_live_entry_unique(d: Dispatcher, e1: int, e2: int)
    requires
        d.wf(),
        0 <= e1 < d.entries@.len(),
        0 <= e2 < d.entries@.len(),
        d.entries@[e1].shared,
        !d.entries@[e1].is_gone(),
        d.entries@[e2].shared,
        !d.entries@[e2].is_gone(),
        d.entries@[e1].mount == d.entries@[e2].mount,
    ensures
        e1 == e2,
{
    assert(d.entry_ok(e1));
    assert(d.entry_ok(e2));
    assert(d.entries.len() == d.entries@.len());
    let m = d.entries@[e1].mount as int;
    assert(d.registry.mounts@[m].live == Some(e1 as usize));
    assert(d.registry.mounts@[m].live == Some(e2 as usize));
}

/// The refcount law: every entry's reference count equals the number
/// of sessions currently bound to it.
pub proof fn lemma_refcount_matches_bound_sessions(d: Dispatcher, e: int)
    requires
        d.wf(),
        0 <= e < d.entries@.len(),
    ensures
        d.entries@[e].refcount == count_bound(d.sessions@, e),
{
    assert(d.entry_ok(e));
}

/// A mount's live slot never names a dead entry: once a teardown has
/// run, the slot is clear, so the next request for the path creates a
/// fresh entry instead of resurrecting the stopped pipeline.
pub proof fn lemma_live_slot_names_living_entry(d: Dispatcher, m: int)
    requires
        d.wf(),
        0 <= m < d.registry.mounts@.len(),
        d.registry.mounts@[m].live is Some,
    ensures
        (d.registry.mounts@[m].live->Some_0 as int) < d.entries@.len(),
        !d.entries@[d.registry.mounts@[m].live->Some_0 as int].is_gone(),
        d.entries@[d.registry.mounts@[m].live->Some_0 as int].mount == m,
        d.registry.mounts@[m].descriptor.shared,
{
    assert(d.mount_ok(m));
}

/// An open session always sits on an entry that is either preparing
/// or live — never on one that is empty, draining or gone. Waiting
/// sessions (`Init`) sit on starting entries; playable ones on live
/// entries.
pub proof fn lemma_open_session_entry_alive(d: Dispatcher, s: int)
    requires
        d.wf(),
        0 <= s < d.sessions@.len(),
        d.sessions@[s].play_state != PlayState::Closed,
    ensures
        (d.sessions@[s].entry as int) < d.entries@.len(),
        d.entries@[d.sessions@[s].entry as int].state == EntryState::Starting || d.entries@[d.sessions@[s].entry as int].state == EntryState::Live,
        d.entries@[d.sessions@[s].entry as int].refcount >= 1,
{
    assert(d.session_ok(s));
    let e = d.sessions@[s].entry as int;
    assert(d.entry_ok(e));
    crate::counting::lemma_count_bound_positive(d.sessions@, s, e);
}

/// Every session's delivery queue respects the configured bound: a
/// slow transport accumulates at most `queue_capacity` samples before
/// it is closed, and can therefore never hold back the pipeline.
pub proof fn lemma_queue_bounded(d: Dispatcher, s: int)
    requires
        d.wf(),
        0 <= s < d.sessions@.len(),
        d.sessions@[s].play_state != PlayState::Closed,
    ensures
        d.sessions@[s].queue_len <= d.config.queue_capacity,
{
    assert(d.session_ok(s));
}

} // verus!
