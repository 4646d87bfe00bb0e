use nats_session::errors::NatsError;
use nats_session::events::{
    ConnectOutcome, ExitReason, PollAction, PollEvent, PublishOutcome, RequestOutcome,
    SubscribeOutcome,
};
use nats_session::session::{reply_publish_result, SessionManager};

fn s(v: &str) -> String {
    v.to_string()
}

fn manager_with_sub(max_messages: u32) -> SessionManager {
    let mut m = SessionManager::new();
    assert!(m.connect_to_nats(s("c1"), ConnectOutcome::Connected).is_ok());
    assert!(m.subscribe(&s("c1"), s("subj"), s("sub1"), max_messages, SubscribeOutcome::Subscribed)
        .is_ok());
    m
}

fn msg(payload: &[u8]) -> PollEvent {
    PollEvent::Message { payload: payload.to_vec(), reply: None }
}

fn deliver_text(a: PollAction) -> String {
    match a {
        PollAction::Deliver { payload, .. } => payload,
        _ => panic!("expected a delivery"),
    }
}

#[test]
fn timeout_is_not_an_error_loop_idles() {
    let mut m = manager_with_sub(0);
    let a = m.poll_step(&s("c1"), &s("sub1"), PollEvent::Timeout);
    assert!(matches!(a, PollAction::Idle));
    assert!(m.is_subscription_active(&s("c1"), &s("sub1")));
}

#[test]
fn delivery_carries_subject_and_decoded_text() {
    let mut m = manager_with_sub(0);
    let a = m.poll_step(&s("c1"), &s("sub1"), msg(b"hello"));
    match a {
        PollAction::Deliver { subject, payload } => {
            assert_eq!(subject, s("subj"));
            assert_eq!(payload, s("hello"));
        },
        _ => panic!("expected a delivery"),
    }
}

#[test]
fn budget_bounds_deliveries_and_completion_fires_once() {
    let mut m = manager_with_sub(2);
    assert_eq!(deliver_text(m.poll_step(&s("c1"), &s("sub1"), msg(b"one"))), s("one"));
    assert_eq!(deliver_text(m.poll_step(&s("c1"), &s("sub1"), msg(b"two"))), s("two"));
    // The budget is spent: the next step completes instead of delivering.
    let a = m.poll_step(&s("c1"), &s("sub1"), msg(b"three"));
    assert!(matches!(a, PollAction::Done { reason: ExitReason::Exhausted }));
    assert!(!m.subscription_exists(&s("c1"), &s("sub1")));
    // No second completion: the entry is gone.
    let again = m.poll_step(&s("c1"), &s("sub1"), msg(b"four"));
    assert!(matches!(again, PollAction::Done { reason: ExitReason::Removed }));
}

#[test]
fn invalid_encoding_reports_error_and_consumes_no_budget() {
    let mut m = manager_with_sub(1);
    let bad = m.poll_step(&s("c1"), &s("sub1"), msg(&[0xff, 0xfe, 0xfd]));
    assert!(matches!(bad, PollAction::DecodeFailed));
    // The loop goes on, and the bad message did not count against the budget:
    // the one-message budget is still whole, so the next message is delivered.
    assert!(m.is_subscription_active(&s("c1"), &s("sub1")));
    let good = m.poll_step(&s("c1"), &s("sub1"), msg(b"ok"));
    assert_eq!(deliver_text(good), s("ok"));
    // Only now is the budget spent.
    let done = m.poll_step(&s("c1"), &s("sub1"), PollEvent::Timeout);
    assert!(matches!(done, PollAction::Done { reason: ExitReason::Exhausted }));
}

#[test]
fn empty_payload_is_valid_text() {
    let mut m = manager_with_sub(0);
    let a = m.poll_step(&s("c1"), &s("sub1"), msg(b""));
    assert_eq!(deliver_text(a), s(""));
}

#[test]
fn unbounded_subscription_keeps_delivering() {
    let mut m = manager_with_sub(0);
    let mut i: u32 = 0;
    while i < 10 {
        let a = m.poll_step(&s("c1"), &s("sub1"), msg(b"tick"));
        assert_eq!(deliver_text(a), s("tick"));
        i += 1;
    }
    assert!(m.is_subscription_active(&s("c1"), &s("sub1")));
}

#[test]
fn responder_handles_requests_and_drops_unanswerable_messages() {
    let mut m = SessionManager::new();
    assert!(m.connect_to_nats(s("c1"), ConnectOutcome::Connected).is_ok());
    assert!(m.setup_responder(&s("c1"), s("svc"), s("r1"), SubscribeOutcome::Subscribed).is_ok());
    // A message without a reply subject is dropped silently.
    let dropped = m.poll_step(&s("c1"), &s("r1"), msg(b"fire and forget"));
    assert!(matches!(dropped, PollAction::DropMessage));
    // A request with a reply subject is handed to the handler.
    let a = m.poll_step(
        &s("c1"),
        &s("r1"),
        PollEvent::Message { payload: b"ping".to_vec(), reply: Some(s("inbox.7")) },
    );
    match a {
        PollAction::Respond { request, reply_to } => {
            assert_eq!(request, s("ping"));
            assert_eq!(reply_to, s("inbox.7"));
        },
        _ => panic!("expected a respond action"),
    }
    // An undecodable request is reported; the loop goes on.
    let bad = m.poll_step(
        &s("c1"),
        &s("r1"),
        PollEvent::Message { payload: vec![0x80], reply: Some(s("inbox.8")) },
    );
    assert!(matches!(bad, PollAction::DecodeFailed));
    assert!(m.is_subscription_active(&s("c1"), &s("r1")));
}

#[test]
fn responder_has_no_message_budget() {
    let mut m = SessionManager::new();
    assert!(m.connect_to_nats(s("c1"), ConnectOutcome::Connected).is_ok());
    assert!(m.setup_responder(&s("c1"), s("svc"), s("r1"), SubscribeOutcome::Subscribed).is_ok());
    let mut i: u32 = 0;
    while i < 5 {
        let a = m.poll_step(
            &s("c1"),
            &s("r1"),
            PollEvent::Message { payload: b"ping".to_vec(), reply: Some(s("inbox")) },
        );
        assert!(matches!(a, PollAction::Respond { .. }));
        i += 1;
    }
    assert!(m.is_subscription_active(&s("c1"), &s("r1")));
}

#[test]
fn reply_publish_failure_is_reported_not_fatal() {
    assert!(reply_publish_result(PublishOutcome::Published).is_none());
    let e = reply_publish_result(PublishOutcome::Failed(s("pipe broke")));
    assert_eq!(e, Some(NatsError::Transport { reason: s("pipe broke") }));
}

#[test]
fn send_request_distinguishes_timeout_from_transport_failure() {
    let mut m = SessionManager::new();
    assert!(m.connect_to_nats(s("c1"), ConnectOutcome::Connected).is_ok());
    // A missed deadline is a timeout, not a transport failure.
    let timed_out = m.send_request(&s("c1"), RequestOutcome::TimedOut);
    assert_eq!(timed_out, Err(NatsError::TimedOut));
    assert!(!matches!(timed_out, Err(NatsError::Transport { .. })));
    let failed = m.send_request(&s("c1"), RequestOutcome::Failed(s("no responders")));
    assert_eq!(failed, Err(NatsError::Transport { reason: s("no responders") }));
}

#[test]
fn send_request_decodes_reply_text() {
    let mut m = SessionManager::new();
    assert!(m.connect_to_nats(s("c1"), ConnectOutcome::Connected).is_ok());
    let r = m.send_request(&s("c1"), RequestOutcome::Reply(b"pong".to_vec()));
    assert_eq!(r, Ok(s("pong")));
    let bad = m.send_request(&s("c1"), RequestOutcome::Reply(vec![0xc0, 0x20]));
    assert_eq!(bad, Err(NatsError::InvalidPayload));
    let not_connected = m.send_request(&s("nope"), RequestOutcome::Reply(b"pong".to_vec()));
    assert_eq!(not_connected, Err(NatsError::ClientNotFound { client_id: s("nope") }));
}

#[test]
fn publish_maps_outcomes() {
    let mut m = SessionManager::new();
    assert!(m.connect_to_nats(s("c1"), ConnectOutcome::Connected).is_ok());
    assert_eq!(m.publish(&s("c1"), PublishOutcome::Published), Ok(()));
    assert_eq!(
        m.publish(&s("c1"), PublishOutcome::Failed(s("slow consumer"))),
        Err(NatsError::Transport { reason: s("slow consumer") })
    );
    assert_eq!(
        m.publish(&s("x"), PublishOutcome::Published),
        Err(NatsError::ClientNotFound { client_id: s("x") })
    );
}
