use nats_session::errors::NatsError;
use nats_session::events::{
    ConnectOutcome, KvCreateOutcome, KvDeleteOutcome, KvEvent, KvFetchOutcome, KvGetOutcome,
    KvPutOutcome, KvResolveAction, KV_HISTORY, KV_MAX_VALUE_SIZE,
};
use nats_session::session::SessionManager;

fn s(v: &str) -> String {
    v.to_string()
}

fn connected() -> SessionManager {
    let mut m = SessionManager::new();
    assert!(m.connect_to_nats(s("c1"), ConnectOutcome::Connected).is_ok());
    m
}

#[test]
fn resolving_needs_a_connection() {
    let mut m = SessionManager::new();
    let a = m.get_or_create_kv_store(&s("c1"), &s("bucket"), KvEvent::Begin);
    match a {
        KvResolveAction::Fail(e) => {
            assert_eq!(e, NatsError::ClientNotFound { client_id: s("c1") });
        },
        _ => panic!("expected a failure"),
    }
}

#[test]
fn existing_bucket_is_fetched_then_cached() {
    let mut m = connected();
    let a = m.get_or_create_kv_store(&s("c1"), &s("bucket"), KvEvent::Begin);
    assert!(matches!(a, KvResolveAction::FetchBucket));
    let a = m.get_or_create_kv_store(
        &s("c1"),
        &s("bucket"),
        KvEvent::BucketFetched(KvFetchOutcome::Found),
    );
    assert!(matches!(a, KvResolveAction::Resolved));
    // A second resolution is answered from the cache, no server round trip.
    let a = m.get_or_create_kv_store(&s("c1"), &s("bucket"), KvEvent::Begin);
    assert!(matches!(a, KvResolveAction::UseCached));
}

#[test]
fn missing_bucket_is_created_with_fixed_configuration() {
    let mut m = connected();
    let a = m.get_or_create_kv_store(&s("c1"), &s("bucket"), KvEvent::Begin);
    assert!(matches!(a, KvResolveAction::FetchBucket));
    let a = m.get_or_create_kv_store(
        &s("c1"),
        &s("bucket"),
        KvEvent::BucketFetched(KvFetchOutcome::NotFound),
    );
    match a {
        KvResolveAction::CreateBucket { max_value_size, history } => {
            assert_eq!(max_value_size, KV_MAX_VALUE_SIZE);
            assert_eq!(max_value_size, 1_048_576);
            assert_eq!(history, KV_HISTORY);
            assert_eq!(history, 5);
        },
        _ => panic!("expected a bucket creation"),
    }
    let a = m.get_or_create_kv_store(
        &s("c1"),
        &s("bucket"),
        KvEvent::BucketCreated(KvCreateOutcome::Created),
    );
    assert!(matches!(a, KvResolveAction::Resolved));
    let a = m.get_or_create_kv_store(&s("c1"), &s("bucket"), KvEvent::Begin);
    assert!(matches!(a, KvResolveAction::UseCached));
}

#[test]
fn server_failures_propagate_and_cache_nothing() {
    let mut m = connected();
    let a = m.get_or_create_kv_store(
        &s("c1"),
        &s("bucket"),
        KvEvent::BucketFetched(KvFetchOutcome::Failed(s("jetstream down"))),
    );
    match a {
        KvResolveAction::Fail(e) => {
            assert_eq!(e, NatsError::BucketAccess { reason: s("jetstream down") });
        },
        _ => panic!("expected a failure"),
    }
    let a = m.get_or_create_kv_store(
        &s("c1"),
        &s("bucket"),
        KvEvent::BucketCreated(KvCreateOutcome::Failed(s("denied"))),
    );
    assert!(matches!(a, KvResolveAction::Fail(_)));
    // Nothing was cached along the way.
    let a = m.get_or_create_kv_store(&s("c1"), &s("bucket"), KvEvent::Begin);
    assert!(matches!(a, KvResolveAction::FetchBucket));
}

#[test]
fn kv_round_trip_decisions() {
    let m = connected();
    // put "v1", then a get that yields it back.
    assert_eq!(m.kv_put(&s("c1"), KvPutOutcome::Stored), Ok(()));
    let got = m.kv_get(&s("c1"), &s("key"), KvGetOutcome::Value(b"v1".to_vec()));
    assert_eq!(got, Ok(s("v1")));
    // delete, then a get that finds nothing: the key-not-found failure.
    assert_eq!(m.kv_delete(&s("c1"), KvDeleteOutcome::Deleted), Ok(()));
    let gone = m.kv_get(&s("c1"), &s("key"), KvGetOutcome::Missing);
    assert_eq!(gone, Err(NatsError::KeyNotFound { key: s("key") }));
}

#[test]
fn kv_failures_are_distinguishable() {
    let m = connected();
    assert_eq!(
        m.kv_put(&s("c1"), KvPutOutcome::Failed(s("quota"))),
        Err(NatsError::BucketAccess { reason: s("quota") })
    );
    assert_eq!(
        m.kv_get(&s("c1"), &s("k"), KvGetOutcome::Failed(s("io"))),
        Err(NatsError::BucketAccess { reason: s("io") })
    );
    assert_eq!(
        m.kv_get(&s("c1"), &s("k"), KvGetOutcome::Value(vec![0xff])),
        Err(NatsError::InvalidPayload)
    );
    assert_eq!(
        m.kv_delete(&s("c1"), KvDeleteOutcome::Failed(s("io"))),
        Err(NatsError::BucketAccess { reason: s("io") })
    );
    assert_eq!(
        m.kv_put(&s("ghost"), KvPutOutcome::Stored),
        Err(NatsError::ClientNotFound { client_id: s("ghost") })
    );
}

#[test]
fn disconnect_purges_cached_buckets() {
    let mut m = connected();
    let a = m.get_or_create_kv_store(
        &s("c1"),
        &s("bucket"),
        KvEvent::BucketFetched(KvFetchOutcome::Found),
    );
    assert!(matches!(a, KvResolveAction::Resolved));
    assert!(m.disconnect_from_nats(&s("c1")).is_ok());
    assert!(m.finish_disconnect(&s("c1")).is_ok());
    assert!(m.connect_to_nats(s("c1"), ConnectOutcome::Connected).is_ok());
    // The new connection starts with an empty cache for the same bucket.
    let a = m.get_or_create_kv_store(&s("c1"), &s("bucket"), KvEvent::Begin);
    assert!(matches!(a, KvResolveAction::FetchBucket));
}
