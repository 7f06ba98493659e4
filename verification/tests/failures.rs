//! Engine failures, timeouts and slow consumers stay contained.

use rtsp_core::descriptor::MediaDescriptor;
use rtsp_core::dispatcher::{Action, Config, Dispatcher};
use rtsp_core::entry::EntryState;
use rtsp_core::errors::CloseReason;
use rtsp_core::pipeline::PipelineState;
use rtsp_core::session::PlayState;

fn config() -> Config {
    Config { grace_period: None, keepalive: 10, queue_capacity: 1 }
}

fn descriptor(path: &str, shared: bool) -> MediaDescriptor {
    MediaDescriptor {
        path: path.to_owned(),
        launch_spec: "videotestsrc ! fakesink".to_owned(),
        shared,
        max_clients: None,
    }
}

fn close_reasons(actions: &[Action]) -> Vec<(usize, CloseReason)> {
    actions
        .iter()
        .filter_map(|a| match a {
            Action::CloseTransport { session, reason, .. } => Some((*session, *reason)),
            _ => None,
        })
        .collect()
}

#[test]
fn start_failure_fails_every_waiting_session() {
    let mut d = Dispatcher::new(config());
    d.register(descriptor("/test", true)).unwrap();
    let (r1, _) = d.create_session("/test", 1);
    let (r2, _) = d.create_session("/test", 2);
    let (r3, _) = d.create_session("/test", 3);
    let sids = [r1.unwrap(), r2.unwrap(), r3.unwrap()];
    let e = d.sessions[sids[0]].entry;
    let actions = d.on_pipeline_error(e);
    let reasons = close_reasons(&actions);
    assert_eq!(reasons.len(), 3);
    for (i, sid) in sids.iter().enumerate() {
        assert_eq!(reasons[i], (*sid, CloseReason::PipelineStartFailed));
        assert_eq!(d.sessions[*sid].play_state, PlayState::Closed);
    }
    assert_eq!(d.entries[e].state, EntryState::Gone);
    assert_eq!(d.entries[e].refcount, 0);
    // the poisoned handle is kept as the record of the failure
    assert_eq!(d.entries[e].pipeline.unwrap().state, PipelineState::Error);
    assert_eq!(d.live_entry("/test"), None);
    assert_eq!(actions.last(), Some(&Action::Stop { entry: e }));
}

#[test]
fn runtime_failure_closes_sessions_with_pipeline_error() {
    let mut d = Dispatcher::new(config());
    d.register(descriptor("/test", true)).unwrap();
    let (r, _) = d.create_session("/test", 1);
    let sid = r.unwrap();
    let e = d.sessions[sid].entry;
    d.on_pipeline_ready(e);
    let actions = d.on_pipeline_error(e);
    assert_eq!(close_reasons(&actions), vec![(sid, CloseReason::PipelineError)]);
    assert_eq!(d.entries[e].state, EntryState::Gone);
    // a stale error for the dead entry changes nothing
    let actions = d.on_pipeline_error(e);
    assert!(actions.is_empty());
}

#[test]
fn idle_session_times_out_but_refreshed_one_survives() {
    let mut d = Dispatcher::new(config());
    d.register(descriptor("/test", true)).unwrap();
    let (r1, _) = d.create_session("/test", 1);
    let (r2, _) = d.create_session("/test", 2);
    let (s1, s2) = (r1.unwrap(), r2.unwrap());
    let e = d.sessions[s1].entry;
    d.on_pipeline_ready(e);
    let actions = d.tick(8);
    assert!(actions.is_empty());
    // keep one session alive across the window
    d.tick(9);
    assert!(d.touch_session(s2));
    let actions = d.tick(15);
    assert_eq!(close_reasons(&actions), vec![(s1, CloseReason::Timeout)]);
    assert_eq!(d.sessions[s1].play_state, PlayState::Closed);
    assert_ne!(d.sessions[s2].play_state, PlayState::Closed);
    assert_eq!(d.entries[e].refcount, 1);
    // once the refreshed one lapses too, the entry is torn down
    let actions = d.tick(30);
    assert_eq!(close_reasons(&actions), vec![(s2, CloseReason::Timeout)]);
    assert_eq!(d.entries[e].state, EntryState::Gone);
    assert_eq!(d.live_entry("/test"), None);
}

#[test]
fn slow_consumer_never_delays_siblings() {
    let mut d = Dispatcher::new(config());
    d.register(descriptor("/test", true)).unwrap();
    let (r1, _) = d.create_session("/test", 1);
    let (r2, _) = d.create_session("/test", 2);
    let (slow, fast) = (r1.unwrap(), r2.unwrap());
    let e = d.sessions[slow].entry;
    d.on_pipeline_ready(e);
    d.play_session(slow);
    d.play_session(fast);
    // first sample: both transports are served
    let actions = d.on_sample(e);
    assert_eq!(
        actions,
        vec![
            Action::Deliver { session: slow, transport: 1 },
            Action::Deliver { session: fast, transport: 2 },
        ]
    );
    // the fast transport flushes its queue, the slow one does not
    assert!(d.on_sample_sent(fast));
    // second sample: the sibling is served in the same event while
    // the slow consumer is closed instead of stalling the pipeline
    let actions = d.on_sample(e);
    assert_eq!(
        actions,
        vec![
            Action::CloseTransport {
                session: slow,
                transport: 1,
                reason: CloseReason::SlowConsumer
            },
            Action::Deliver { session: fast, transport: 2 },
        ]
    );
    assert_eq!(d.sessions[slow].play_state, PlayState::Closed);
    assert_eq!(d.sessions[fast].play_state, PlayState::Playing);
    assert_eq!(d.sessions[fast].queue_len, 1);
    assert_eq!(d.entries[e].state, EntryState::Live);
    assert_eq!(d.entries[e].refcount, 1);
}

#[test]
fn overflow_of_the_last_session_settles_the_entry() {
    let mut d = Dispatcher::new(config());
    d.register(descriptor("/test", true)).unwrap();
    let (r, _) = d.create_session("/test", 1);
    let sid = r.unwrap();
    let e = d.sessions[sid].entry;
    d.on_pipeline_ready(e);
    d.play_session(sid);
    d.on_sample(e);
    let actions = d.on_sample(e);
    assert_eq!(
        actions,
        vec![
            Action::CloseTransport {
                session: sid,
                transport: 1,
                reason: CloseReason::SlowConsumer
            },
            Action::Stop { entry: e },
        ]
    );
    assert_eq!(d.entries[e].state, EntryState::Gone);
    assert_eq!(d.live_entry("/test"), None);
}

#[test]
fn paused_session_receives_no_samples() {
    let mut d = Dispatcher::new(config());
    d.register(descriptor("/test", true)).unwrap();
    let (r1, _) = d.create_session("/test", 1);
    let (r2, _) = d.create_session("/test", 2);
    let (s1, s2) = (r1.unwrap(), r2.unwrap());
    let e = d.sessions[s1].entry;
    d.on_pipeline_ready(e);
    d.play_session(s1);
    d.play_session(s2);
    let (ok, actions) = d.pause_session(s1);
    assert!(ok);
    // the shared pipeline is not paused on behalf of one client
    assert!(actions.is_empty());
    let actions = d.on_sample(e);
    assert_eq!(actions, vec![Action::Deliver { session: s2, transport: 2 }]);
    assert_eq!(d.sessions[s1].queue_len, 0);
}
