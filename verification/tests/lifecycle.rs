//! Shared/exclusive resolution and entry lifecycle.

use rtsp_core::descriptor::MediaDescriptor;
use rtsp_core::dispatcher::{Action, Config, Dispatcher};
use rtsp_core::entry::EntryState;
use rtsp_core::errors::{CloseReason, MediaError};
use rtsp_core::pipeline::PipelineState;
use rtsp_core::session::PlayState;

fn config(grace: Option<u64>) -> Config {
    Config { grace_period: grace, keepalive: 10, queue_capacity: 4 }
}

fn descriptor(path: &str, shared: bool, max_clients: Option<usize>) -> MediaDescriptor {
    MediaDescriptor {
        path: path.to_owned(),
        launch_spec: "videotestsrc ! x264enc ! rtph264pay name=pay0".to_owned(),
        shared,
        max_clients,
    }
}

fn prepares(actions: &[Action]) -> usize {
    actions.iter().filter(|a| matches!(a, Action::Prepare { .. })).count()
}

fn stops(actions: &[Action]) -> usize {
    actions.iter().filter(|a| matches!(a, Action::Stop { .. })).count()
}

#[test]
fn shared_path_two_sessions_share_one_entry() {
    let mut d = Dispatcher::new(config(None));
    d.register(descriptor("/test", true, None)).unwrap();
    let (r1, a1) = d.create_session("/test", 101);
    let (r2, a2) = d.create_session("/test", 102);
    let s1 = r1.unwrap();
    let s2 = r2.unwrap();
    let e1 = d.sessions[s1].entry;
    let e2 = d.sessions[s2].entry;
    assert_eq!(e1, e2);
    assert_eq!(d.entries[e1].refcount, 2);
    // exactly one pipeline preparation for the shared entry
    assert_eq!(prepares(&a1) + prepares(&a2), 1);
    assert_eq!(a1, vec![Action::Prepare { entry: e1 }]);
    assert!(a2.is_empty());
    assert_eq!(d.entries[e1].state, EntryState::Starting);
    assert_eq!(d.live_entry("/test"), Some(e1));
}

#[test]
fn unshared_path_fresh_entry_per_session() {
    let mut d = Dispatcher::new(config(None));
    d.register(descriptor("/clip", false, None)).unwrap();
    let (r1, a1) = d.create_session("/clip", 1);
    let (r2, a2) = d.create_session("/clip", 2);
    let e1 = d.sessions[r1.unwrap()].entry;
    let e2 = d.sessions[r2.unwrap()].entry;
    assert_ne!(e1, e2);
    assert_eq!(prepares(&a1), 1);
    assert_eq!(prepares(&a2), 1);
    assert_eq!(d.entries[e1].refcount, 1);
    assert_eq!(d.entries[e2].refcount, 1);
    // exclusive entries never occupy the live slot
    assert_eq!(d.live_entry("/clip"), None);
}

#[test]
fn last_detach_without_grace_stops_at_once() {
    let mut d = Dispatcher::new(config(None));
    d.register(descriptor("/test", true, None)).unwrap();
    let (r, _) = d.create_session("/test", 7);
    let sid = r.unwrap();
    let e = d.sessions[sid].entry;
    d.on_pipeline_ready(e);
    let actions = d.close_session(sid, CloseReason::Teardown);
    assert_eq!(
        actions,
        vec![
            Action::CloseTransport { session: sid, transport: 7, reason: CloseReason::Teardown },
            Action::Stop { entry: e },
        ]
    );
    assert_eq!(d.entries[e].state, EntryState::Gone);
    assert!(d.entries[e].pipeline.is_none());
    assert_eq!(d.live_entry("/test"), None);
    // a new request creates a fresh entry and a fresh preparation
    let (r2, a2) = d.create_session("/test", 8);
    let e2 = d.sessions[r2.unwrap()].entry;
    assert_ne!(e2, e);
    assert_eq!(a2, vec![Action::Prepare { entry: e2 }]);
}

#[test]
fn draining_entry_revived_by_attach_before_deadline() {
    let mut d = Dispatcher::new(config(Some(5)));
    d.register(descriptor("/test", true, None)).unwrap();
    let (r, _) = d.create_session("/test", 1);
    let sid = r.unwrap();
    let e = d.sessions[sid].entry;
    d.on_pipeline_ready(e);
    let actions = d.close_session(sid, CloseReason::Teardown);
    assert_eq!(stops(&actions), 0);
    assert!(matches!(d.entries[e].state, EntryState::Draining { deadline: 5 }));
    // the quick reconnect revives the very same entry
    let (r2, a2) = d.create_session("/test", 2);
    let sid2 = r2.unwrap();
    assert_eq!(d.sessions[sid2].entry, e);
    assert!(a2.is_empty());
    assert_eq!(d.entries[e].state, EntryState::Live);
    assert_eq!(d.sessions[sid2].play_state, PlayState::Ready);
    // and no tick within the keep-alive window tears it down
    let actions = d.tick(8);
    assert_eq!(stops(&actions), 0);
    assert_eq!(d.entries[e].state, EntryState::Live);
}

#[test]
fn grace_expiry_stops_pipeline_exactly_once() {
    let mut d = Dispatcher::new(config(Some(5)));
    d.register(descriptor("/test", true, None)).unwrap();
    let (r, _) = d.create_session("/test", 1);
    let sid = r.unwrap();
    let e = d.sessions[sid].entry;
    d.on_pipeline_ready(e);
    d.close_session(sid, CloseReason::Teardown);
    // before the deadline nothing happens
    let actions = d.tick(3);
    assert!(actions.is_empty());
    assert!(matches!(d.entries[e].state, EntryState::Draining { .. }));
    assert_eq!(d.live_entry("/test"), Some(e));
    // at the deadline the pipeline is stopped once, the slot cleared
    let actions = d.tick(6);
    assert_eq!(actions, vec![Action::Stop { entry: e }]);
    assert_eq!(d.entries[e].state, EntryState::Gone);
    assert_eq!(d.live_entry("/test"), None);
    // and never again
    let actions = d.tick(20);
    assert_eq!(stops(&actions), 0);
}

#[test]
fn pipeline_ready_wakes_waiting_sessions() {
    let mut d = Dispatcher::new(config(None));
    d.register(descriptor("/test", true, None)).unwrap();
    let (r1, _) = d.create_session("/test", 1);
    let (r2, _) = d.create_session("/test", 2);
    let (s1, s2) = (r1.unwrap(), r2.unwrap());
    let e = d.sessions[s1].entry;
    assert_eq!(d.sessions[s1].play_state, PlayState::Init);
    let actions = d.on_pipeline_ready(e);
    assert_eq!(actions, vec![Action::Start { entry: e }]);
    assert_eq!(d.entries[e].state, EntryState::Live);
    assert_eq!(d.entries[e].pipeline.unwrap().state, PipelineState::Playing);
    assert_eq!(d.sessions[s1].play_state, PlayState::Ready);
    assert_eq!(d.sessions[s2].play_state, PlayState::Ready);
    // a stale second notification changes nothing
    let actions = d.on_pipeline_ready(e);
    assert!(actions.is_empty());
}

#[test]
fn close_session_is_idempotent() {
    let mut d = Dispatcher::new(config(None));
    d.register(descriptor("/test", true, None)).unwrap();
    let (r, _) = d.create_session("/test", 9);
    let sid = r.unwrap();
    let first = d.close_session(sid, CloseReason::Teardown);
    assert!(!first.is_empty());
    let second = d.close_session(sid, CloseReason::Teardown);
    assert!(second.is_empty());
    assert_eq!(d.sessions[sid].play_state, PlayState::Closed);
}

#[test]
fn exclusive_pause_and_play_drive_the_pipeline() {
    let mut d = Dispatcher::new(config(None));
    d.register(descriptor("/clip", false, None)).unwrap();
    let (r, _) = d.create_session("/clip", 3);
    let sid = r.unwrap();
    let e = d.sessions[sid].entry;
    d.on_pipeline_ready(e);
    let (ok, actions) = d.play_session(sid);
    assert!(ok);
    assert!(actions.is_empty());
    assert_eq!(d.sessions[sid].play_state, PlayState::Playing);
    let (ok, actions) = d.pause_session(sid);
    assert!(ok);
    assert_eq!(actions, vec![Action::Pause { entry: e }]);
    assert_eq!(d.entries[e].pipeline.unwrap().state, PipelineState::Paused);
    let (ok, actions) = d.play_session(sid);
    assert!(ok);
    assert_eq!(actions, vec![Action::Start { entry: e }]);
    assert_eq!(d.entries[e].pipeline.unwrap().state, PipelineState::Playing);
    // playing an already playing session is refused
    let (ok, actions) = d.play_session(sid);
    assert!(!ok);
    assert!(actions.is_empty());
}

#[test]
fn resolution_reuses_the_live_shared_entry() {
    let mut d = Dispatcher::new(config(None));
    d.register(descriptor("/live", true, None)).unwrap();
    d.register(descriptor("/vod", false, None)).unwrap();
    let e1 = d.resolve_or_create("/live").unwrap();
    let e2 = d.resolve_or_create("/live").unwrap();
    assert_eq!(e1, e2);
    assert_eq!(d.live_entry("/live"), Some(e1));
    let x1 = d.resolve_or_create("/vod").unwrap();
    let x2 = d.resolve_or_create("/vod").unwrap();
    assert_ne!(x1, x2);
    assert_eq!(
        d.resolve_or_create("/nowhere"),
        Err(MediaError::UnknownPath)
    );
}

#[test]
fn registration_errors() {
    let mut d = Dispatcher::new(config(None));
    assert_eq!(d.register(descriptor("/a", true, None)), Ok(()));
    assert_eq!(
        d.register(descriptor("/a", false, None)),
        Err(MediaError::DuplicatePath)
    );
    let (r, a) = d.create_session("/missing", 1);
    assert_eq!(r, Err(MediaError::UnknownPath));
    assert!(a.is_empty());
}

#[test]
fn capacity_limit_is_enforced() {
    let mut d = Dispatcher::new(config(None));
    d.register(descriptor("/one", true, Some(1))).unwrap();
    d.register(descriptor("/zero", true, Some(0))).unwrap();
    let (r1, _) = d.create_session("/one", 1);
    assert!(r1.is_ok());
    let (r2, a2) = d.create_session("/one", 2);
    assert_eq!(r2, Err(MediaError::CapacityExceeded));
    assert!(a2.is_empty());
    let (r3, _) = d.create_session("/zero", 3);
    assert_eq!(r3, Err(MediaError::CapacityExceeded));
    // a slot freed by a teardown can be taken again
    let e = d.sessions[0].entry;
    d.close_session(0, CloseReason::Teardown);
    assert_eq!(d.entries[e].state, EntryState::Gone);
    let (r4, _) = d.create_session("/one", 4);
    assert!(r4.is_ok());
}
