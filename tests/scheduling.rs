use backend::admission::{shared_decision, Decision, Metering, RateLimitConfig, RateLimiter};
use backend::keys::shared_counter_key;
use backend::ids::{anchor_uuid, uuid_or_nil};
use backend::query::{default_limit, ListAnchorsQuery, ListCorridorsQuery, SortBy};
use backend::schedule::{BatchOutcome, CatchUp, Pause, BATCH_SIZE};

fn limiter_100() -> RateLimiter {
    let mut l = RateLimiter::new();
    l.register_endpoint(
        "/api/anchors".to_string(),
        RateLimitConfig { requests_per_window: 100, window_seconds: 60, whitelist_ips: vec!["127.0.0.1".to_string()] },
    );
    l
}

#[test]
fn hundredth_allowed_hundred_first_rejected() {
    let mut l = limiter_100();
    for i in 0..99u64 {
        assert!(matches!(l.check("/api/anchors", "10.0.0.1", 1000 + i % 50), Decision::Allowed));
    }
    assert!(matches!(l.check("/api/anchors", "10.0.0.1", 1050), Decision::Allowed));
    assert!(matches!(l.check("/api/anchors", "10.0.0.1", 1051), Decision::Rejected));
    assert!(matches!(l.check("/api/anchors", "10.0.0.2", 1051), Decision::Allowed));
}

#[test]
fn whitelisted_address_never_rejected() {
    let mut l = limiter_100();
    for _ in 0..500 {
        assert!(matches!(l.check("/api/anchors", "127.0.0.1", 5), Decision::Allowed));
    }
}

#[test]
fn window_elapse_resets_counter() {
    let mut l = limiter_100();
    for _ in 0..100 {
        assert!(matches!(l.check("/api/anchors", "10.0.0.1", 0), Decision::Allowed));
    }
    assert!(matches!(l.check("/api/anchors", "10.0.0.1", 59), Decision::Rejected));
    assert!(matches!(l.check("/api/anchors", "10.0.0.1", 60), Decision::Allowed));
}

#[test]
fn unregistered_endpoint_is_unmetered() {
    let mut l = RateLimiter::new();
    for _ in 0..1000 {
        assert!(matches!(l.check("/unknown", "10.0.0.1", 0), Decision::Allowed));
    }
}

#[test]
fn later_registration_replaces_earlier() {
    let mut l = limiter_100();
    l.register_endpoint(
        "/api/anchors".to_string(),
        RateLimitConfig { requests_per_window: 1, window_seconds: 60, whitelist_ips: vec![] },
    );
    assert!(matches!(l.check("/api/anchors", "127.0.0.1", 0), Decision::Allowed));
    assert!(matches!(l.check("/api/anchors", "127.0.0.1", 0), Decision::Rejected));
}

#[test]
fn empty_batches_never_advance_and_sleep() {
    let mut c = CatchUp::new(41);
    assert_eq!(c.next_batch(), (42, BATCH_SIZE));
    for _ in 0..3 {
        assert_eq!(c.on_batch(BatchOutcome::Applied(0)), Pause::Sleep(5));
        assert_eq!(c.cursor, 41);
    }
}

#[test]
fn full_batches_advance_without_sleep() {
    let mut c = CatchUp::new(100);
    assert_eq!(c.on_batch(BatchOutcome::Applied(5)), Pause::Yield);
    assert_eq!(c.on_batch(BatchOutcome::Applied(5)), Pause::Yield);
    assert_eq!(c.cursor, 110);
    assert_eq!(c.next_batch(), (111, 5));
}

#[test]
fn failed_batch_backs_off() {
    let mut c = CatchUp::new(7);
    assert_eq!(c.on_batch(BatchOutcome::Failed), Pause::Sleep(10));
    assert_eq!(c.cursor, 7);
}

#[test]
fn anchor_ids_parse_as_uuid_or_nil() {
    let b = anchor_uuid("550e8400-e29b-41d4-a716-446655440000");
    assert_eq!(b[0], 0x55);
    assert_eq!(b[15], 0x00);
    assert_eq!(b[1], 0x0e);
    assert_eq!(anchor_uuid("not-a-uuid"), [0u8; 16]);
    assert_eq!(uuid_or_nil(Some([7u8; 16])), [7u8; 16]);
    assert_eq!(uuid_or_nil(None), [0u8; 16]);
}

#[test]
fn list_query_defaults() {
    assert_eq!(default_limit(), 50);
    let a = ListAnchorsQuery::default();
    assert_eq!((a.limit, a.offset), (50, 0));
    let c = ListCorridorsQuery::default();
    assert_eq!((c.limit, c.offset, c.sort_by), (50, 0, SortBy::SuccessRate));
}

#[test]
fn shared_store_decisions() {
    assert!(matches!(shared_decision(100, 100), Decision::Allowed));
    assert!(matches!(shared_decision(101, 100), Decision::Rejected));
    assert_eq!(shared_counter_key("/api/anchors", "10.0.0.1"), "ratelimit:/api/anchors:10.0.0.1");
    let l = limiter_100();
    assert!(matches!(l.metering("/api/anchors", "10.0.0.1"), Metering::Metered(100, 60)));
    assert!(matches!(l.metering("/api/anchors", "127.0.0.1"), Metering::Whitelisted));
    assert!(matches!(l.metering("/other", "10.0.0.1"), Metering::Unmetered));
}
