//! The broker drain's decisions.
use crew_app::drain::{drain, drain_step, flush, Action, DrainState, Event};

fn state() -> DrainState {
    DrainState {
        connected: false,
        channel: String::new(),
        running_tasks: vec![3, 4],
        plan_pending: true,
        pending_reply_usage: Some((1, 2, 3)),
        queued: vec!["first".into(), "second".into()],
    }
}

#[test]
fn a_handshake_connects_announces_and_resets() {
    let mut s = state();
    let r = drain_step(
        &mut s,
        &Event::Ready { provider: "crew".into(), channels: vec!["general".into(), "other".into()] },
    );
    assert_eq!(r, vec![Action::Status { error: false, message: "agent smith broker connected".into() }]);
    assert!(s.connected && s.running_tasks.is_empty() && !s.plan_pending);
    assert!(s.pending_reply_usage.is_none());
    assert_eq!(s.channel, "general");
    let r = drain_step(&mut s, &Event::Ready { provider: "echo".into(), channels: vec!["x".into()] });
    assert_eq!(r, vec![Action::Status { error: false, message: "echo plugin connected".into() }]);
    assert_eq!(s.channel, "general", "a channel already chosen stays");
}

#[test]
fn a_lost_broker_takes_its_state_with_it() {
    let mut s = state();
    s.connected = true;
    let r = drain_step(&mut s, &Event::Error);
    assert_eq!(
        r,
        vec![
            Action::Status { error: true, message: "broker connection lost".into() },
            Action::FoldSwarm,
            Action::FlushActiveHops,
        ]
    );
    assert!(!s.connected && s.running_tasks.is_empty() && !s.plan_pending);
    assert_eq!(s.queued.len(), 2, "queued messages wait for the next broker");
}

#[test]
fn host_requests_pass_on_and_plan_flags_are_taken() {
    let mut s = state();
    let r = drain_step(
        &mut s,
        &Event::SpawnPane { command: "sh".into(), args: vec!["-c".into()], label: "w".into() },
    );
    assert_eq!(r, vec![Action::SpawnPane { command: "sh".into(), args: vec!["-c".into()], label: "w".into() }]);
    let r = drain_step(&mut s, &Event::SendPane { label: "w".into(), text: "ls".into() });
    assert_eq!(r, vec![Action::SendPane { label: "w".into(), text: "ls".into() }]);
    assert!(drain_step(&mut s, &Event::Plan { pending: false }).is_empty());
    assert!(!s.plan_pending);
    assert!(drain_step(&mut s, &Event::Other).is_empty());
}

#[test]
fn one_queued_message_goes_out_only_while_connected_and_idle() {
    let mut s = state();
    assert_eq!(flush(&mut s, false), None, "never to a dead broker");
    s.connected = true;
    assert_eq!(flush(&mut s, true), None, "not while busy");
    assert_eq!(flush(&mut s, false), Some("first".into()));
    assert_eq!(s.queued, vec!["second".to_string()]);
}

#[test]
fn an_empty_batch_changes_nothing_and_sends_nothing() {
    let mut s = state();
    s.connected = true;
    let (changed, acts, sent) = drain(&mut s, &[], false);
    assert!(!changed && acts.is_empty() && sent.is_none());
    assert_eq!(s.queued.len(), 2);
    assert!(s.plan_pending);
}

#[test]
fn a_batch_folds_in_order_then_flushes_once() {
    let mut s = state();
    let events = vec![
        Event::Ready { provider: "crew".into(), channels: vec!["general".into()] },
        Event::SendPane { label: "w".into(), text: "ls".into() },
    ];
    let (changed, acts, sent) = drain(&mut s, &events, false);
    assert!(changed);
    assert_eq!(
        acts,
        vec![
            Action::Status { error: false, message: "agent smith broker connected".into() },
            Action::SendPane { label: "w".into(), text: "ls".into() },
        ]
    );
    assert_eq!(sent.as_deref(), Some("first"));
    assert_eq!(s.queued, vec!["second".to_string()]);
    let (_, _, sent) = drain(&mut s, &[Event::Other], true);
    assert!(sent.is_none(), "a busy pane keeps its queue");
    let (_, _, sent) = drain(&mut s, &[Event::Error], false);
    assert!(sent.is_none(), "nothing goes to a broker that has just died");
    assert_eq!(s.queued.len(), 1);
}
