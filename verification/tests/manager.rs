use nats_session::errors::NatsError;
use nats_session::events::{ConnectOutcome, ExitReason, PollAction, PollEvent, SubscribeOutcome};
use nats_session::session::SessionManager;

fn s(v: &str) -> String {
    v.to_string()
}

fn connected(m: &mut SessionManager, id: &str) {
    let r = m.connect_to_nats(s(id), ConnectOutcome::Connected);
    assert!(r.is_ok());
}

#[test]
fn connect_registers_client() {
    let mut m = SessionManager::new();
    connected(&mut m, "c1");
    assert!(m.client_exists(&s("c1")));
    let ids = m.list_clients();
    assert_eq!(ids, vec![s("c1")]);
}

#[test]
fn connect_twice_same_id_fails_second() {
    let mut m = SessionManager::new();
    connected(&mut m, "c1");
    let r = m.connect_to_nats(s("c1"), ConnectOutcome::Connected);
    assert_eq!(r, Err(NatsError::DuplicateClient { client_id: s("c1") }));
    // The first connection is untouched and still usable.
    assert!(m.client_exists(&s("c1")));
    assert_eq!(m.list_clients(), vec![s("c1")]);
}

#[test]
fn connect_transport_failure_leaves_registry_unchanged() {
    let mut m = SessionManager::new();
    let r = m.connect_to_nats(s("c1"), ConnectOutcome::Failed(s("connection refused")));
    assert_eq!(r, Err(NatsError::Transport { reason: s("connection refused") }));
    assert!(!m.client_exists(&s("c1")));
    // A later attempt under the same identifier is admitted.
    connected(&mut m, "c1");
}

#[test]
fn disconnect_missing_client_fails() {
    let mut m = SessionManager::new();
    let r = m.disconnect_from_nats(&s("nope"));
    assert_eq!(r, Err(NatsError::ClientNotFound { client_id: s("nope") }));
}

#[test]
fn subscribe_requires_connection() {
    let mut m = SessionManager::new();
    let r = m.subscribe(&s("c1"), s("subj"), s("sub1"), 0, SubscribeOutcome::Subscribed);
    assert_eq!(r, Err(NatsError::ClientNotFound { client_id: s("c1") }));
    assert!(!m.subscription_exists(&s("c1"), &s("sub1")));
}

#[test]
fn subscribe_twice_same_key_fails_second() {
    let mut m = SessionManager::new();
    connected(&mut m, "c1");
    let r1 = m.subscribe(&s("c1"), s("subj"), s("sub1"), 0, SubscribeOutcome::Subscribed);
    assert!(r1.is_ok());
    let r2 = m.subscribe(&s("c1"), s("other"), s("sub1"), 3, SubscribeOutcome::Subscribed);
    assert_eq!(
        r2,
        Err(NatsError::DuplicateSubscription { client_id: s("c1"), subscription_id: s("sub1") })
    );
    // The original subscription is untouched: still live and still delivering.
    assert!(m.is_subscription_active(&s("c1"), &s("sub1")));
    let a = m.poll_step(
        &s("c1"),
        &s("sub1"),
        PollEvent::Message { payload: b"still here".to_vec(), reply: None },
    );
    match a {
        PollAction::Deliver { subject, payload } => {
            assert_eq!(subject, s("subj"));
            assert_eq!(payload, s("still here"));
        },
        _ => panic!("expected a delivery"),
    }
}

#[test]
fn subscribe_transport_failure_registers_nothing() {
    let mut m = SessionManager::new();
    connected(&mut m, "c1");
    let r = m.subscribe(
        &s("c1"),
        s("subj"),
        s("sub1"),
        0,
        SubscribeOutcome::Failed(s("no route")),
    );
    assert_eq!(r, Err(NatsError::Transport { reason: s("no route") }));
    assert!(!m.subscription_exists(&s("c1"), &s("sub1")));
}

#[test]
fn unsubscribe_flips_liveness_and_loop_completes_once() {
    let mut m = SessionManager::new();
    connected(&mut m, "c1");
    assert!(m.subscribe(&s("c1"), s("subj"), s("sub1"), 0, SubscribeOutcome::Subscribed).is_ok());
    assert!(m.unsubscribe(&s("c1"), &s("sub1")).is_ok());
    // The signal is a flag flip: the entry stays until its loop observes it.
    assert!(m.subscription_exists(&s("c1"), &s("sub1")));
    assert!(!m.is_subscription_active(&s("c1"), &s("sub1")));
    assert!(m.list_subscriptions(&s("c1")).is_empty());
    // The loop's next step exits with the cancellation completion.
    let a = m.poll_step(&s("c1"), &s("sub1"), PollEvent::Timeout);
    assert!(matches!(a, PollAction::Done { reason: ExitReason::Cancelled }));
    assert!(!m.subscription_exists(&s("c1"), &s("sub1")));
    // A later step finds the entry gone; the cancellation fired only once.
    let again = m.poll_step(&s("c1"), &s("sub1"), PollEvent::Timeout);
    assert!(matches!(again, PollAction::Done { reason: ExitReason::Removed }));
}

#[test]
fn unsubscribe_missing_subscription_fails() {
    let mut m = SessionManager::new();
    connected(&mut m, "c1");
    let r = m.unsubscribe(&s("c1"), &s("ghost"));
    assert_eq!(
        r,
        Err(NatsError::SubscriptionNotFound { client_id: s("c1"), subscription_id: s("ghost") })
    );
}

#[test]
fn list_subscriptions_reports_live_entries_of_that_client_only() {
    let mut m = SessionManager::new();
    connected(&mut m, "c1");
    connected(&mut m, "c2");
    assert!(m.subscribe(&s("c1"), s("a"), s("s1"), 0, SubscribeOutcome::Subscribed).is_ok());
    assert!(m.subscribe(&s("c1"), s("b"), s("s2"), 0, SubscribeOutcome::Subscribed).is_ok());
    assert!(m.subscribe(&s("c2"), s("c"), s("s3"), 0, SubscribeOutcome::Subscribed).is_ok());
    assert!(m.unsubscribe(&s("c1"), &s("s2")).is_ok());
    let mut ids = m.list_subscriptions(&s("c1"));
    ids.sort();
    assert_eq!(ids, vec![s("s1")]);
    assert_eq!(m.list_subscriptions(&s("c2")), vec![s("s3")]);
}

#[test]
fn disconnect_drains_both_loops_and_frees_identifier() {
    let mut m = SessionManager::new();
    connected(&mut m, "c1");
    assert!(m.subscribe(&s("c1"), s("a"), s("s1"), 0, SubscribeOutcome::Subscribed).is_ok());
    assert!(m.subscribe(&s("c1"), s("b"), s("s2"), 5, SubscribeOutcome::Subscribed).is_ok());
    assert!(m.disconnect_from_nats(&s("c1")).is_ok());
    // Both liveness flags are down at once: nothing is listed any more.
    assert!(m.list_subscriptions(&s("c1")).is_empty());
    // Each loop's next step observes its flag and completes.
    let a1 = m.poll_step(&s("c1"), &s("s1"), PollEvent::Timeout);
    assert!(matches!(a1, PollAction::Done { reason: ExitReason::Cancelled }));
    let a2 = m.poll_step(
        &s("c1"),
        &s("s2"),
        PollEvent::Message { payload: b"late".to_vec(), reply: None },
    );
    assert!(matches!(a2, PollAction::Done { reason: ExitReason::Cancelled }));
    // The teardown's second half frees the identifier.
    assert!(m.finish_disconnect(&s("c1")).is_ok());
    assert!(!m.client_exists(&s("c1")));
    assert!(m.list_clients().is_empty());
    // A new connection under the same identifier is admitted.
    connected(&mut m, "c1");
    assert!(m.list_subscriptions(&s("c1")).is_empty());
}

#[test]
fn same_subscription_id_may_serve_two_clients() {
    let mut m = SessionManager::new();
    connected(&mut m, "c1");
    connected(&mut m, "c2");
    // The key is the pair: one identifier per connection, no clash across them.
    assert!(m.subscribe(&s("c1"), s("a"), s("shared"), 0, SubscribeOutcome::Subscribed).is_ok());
    assert!(m.subscribe(&s("c2"), s("b"), s("shared"), 0, SubscribeOutcome::Subscribed).is_ok());
    assert!(m.unsubscribe(&s("c1"), &s("shared")).is_ok());
    assert!(!m.is_subscription_active(&s("c1"), &s("shared")));
    assert!(m.is_subscription_active(&s("c2"), &s("shared")));
}

#[test]
fn finish_disconnect_purges_leftover_entries() {
    let mut m = SessionManager::new();
    connected(&mut m, "c1");
    assert!(m.subscribe(&s("c1"), s("a"), s("s1"), 0, SubscribeOutcome::Subscribed).is_ok());
    assert!(m.disconnect_from_nats(&s("c1")).is_ok());
    // Even if a loop never got to run again, the second half clears its entry.
    assert!(m.finish_disconnect(&s("c1")).is_ok());
    assert!(!m.subscription_exists(&s("c1"), &s("s1")));
    let a = m.poll_step(&s("c1"), &s("s1"), PollEvent::Timeout);
    assert!(matches!(a, PollAction::Done { reason: ExitReason::Removed }));
}
