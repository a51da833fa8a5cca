use zona_p2p::errors::ProtocolError;
use zona_p2p::node_id::NodeId;
use zona_p2p::overlay::limits::{window_passed_at, Bucket, LimitConfig, RateLimiter};

fn node(b: u8) -> NodeId {
    NodeId([b; 32])
}

#[test]
fn find_rate_limit_enforced() {
    let mut rl = RateLimiter::new();
    let peer = node(1);
    for _ in 0..10 {
        assert!(rl.check_find(&peer, false).is_ok());
    }
    assert!(rl.check_find(&peer, false).is_err());
}

#[test]
fn invite_quota() {
    let mut rl = RateLimiter::new();
    let issuer = node(2);
    for _ in 0..8 {
        assert!(rl.check_invite(&issuer).is_ok());
    }
    assert!(rl.check_invite(&issuer).is_err());
}

#[test]
fn limits_are_per_peer_and_per_operation() {
    let mut rl = RateLimiter::default();
    for _ in 0..60 {
        assert!(rl.check_find(&node(1), true).is_ok());
    }
    assert!(matches!(rl.check_find(&node(1), true), Err(ProtocolError::RateLimitExceeded { op: "find_node" })));
    assert!(rl.check_find(&node(2), true).is_ok());
    for _ in 0..120 {
        assert!(rl.check_ping(&node(1)).is_ok());
    }
    assert!(matches!(rl.check_ping(&node(1)), Err(ProtocolError::RateLimitExceeded { op: "ping" })));
    for _ in 0..8 {
        assert!(rl.check_invite(&node(3)).is_ok());
    }
    assert!(matches!(rl.check_invite(&node(3)), Err(ProtocolError::InviteQuotaExceeded)));
}

#[test]
fn limit_profiles() {
    assert_eq!(LimitConfig::find_node().max_per_window, 60);
    assert_eq!(LimitConfig::ping().max_per_window, 120);
    assert_eq!(LimitConfig::invite().max_per_window, 8);
    assert_eq!(LimitConfig::find_unauth().max_per_window, 10);
    assert_eq!(LimitConfig::invite().window_ms, 86_400_000);
    assert_eq!(LimitConfig::find_node().window_ms, 60_000);
    assert_eq!(LimitConfig::ping().window_ms, 60_000);
    assert_eq!(LimitConfig::find_unauth().window_ms, 60_000);
}

#[test]
fn window_passes_when_elapsed_reaches_it() {
    assert!(!window_passed_at(1_000, 60_999, 60_000));
    assert!(window_passed_at(1_000, 61_000, 60_000));
    assert!(!window_passed_at(5_000, 1_000, 60_000));
    assert!(window_passed_at(5_000, 1_000, 0));
}

#[test]
fn eleventh_unauthenticated_find_in_a_minute_is_refused() {
    let mut rl = RateLimiter::new();
    let peer = node(1);
    for k in 0..10u64 {
        assert!(rl.check_find_at(&peer, false, k * 1_000).is_ok());
    }
    assert!(matches!(
        rl.check_find_at(&peer, false, 59_999),
        Err(ProtocolError::RateLimitExceeded { op: "find_node" })
    ));
    // The call at 0 leaves the window at 60 000; one more is allowed.
    assert!(rl.check_find_at(&peer, false, 60_000).is_ok());
    assert!(rl.check_find_at(&peer, false, 60_000).is_err());
}

#[test]
fn authenticated_peer_gets_the_larger_find_budget() {
    let mut rl = RateLimiter::new();
    let p = node(4);
    assert!(rl.check_find_at(&p, false, 0).is_ok());
    for k in 1..=10u64 {
        assert!(rl.check_find_at(&p, true, k).is_ok());
    }
    // Eleven counted within the minute: over the unauthenticated limit.
    assert!(rl.check_find_at(&p, false, 20).is_err());
}

#[test]
fn invites_are_limited_per_rolling_day() {
    let mut rl = RateLimiter::new();
    let i = node(2);
    assert!(rl.check_invite_at(&i, 0).is_ok());
    for _ in 0..7 {
        assert!(rl.check_invite_at(&i, 86_399_000).is_ok());
    }
    assert!(rl.check_invite_at(&i, 86_399_500).is_err());
    assert!(rl.check_invite_at(&i, 86_400_000).is_ok());
    assert!(matches!(rl.check_invite_at(&i, 86_400_000), Err(ProtocolError::InviteQuotaExceeded)));
}

#[test]
fn pings_are_limited_per_minute() {
    let mut rl = RateLimiter::new();
    let p = node(5);
    for k in 0..120u64 {
        assert!(rl.check_ping_at(&p, k).is_ok());
    }
    assert!(rl.check_ping_at(&p, 500).is_err());
    assert!(rl.check_ping_at(&p, 60_000).is_ok());
}

#[test]
fn bucket_forgets_operations_whose_window_passed() {
    let cfg = LimitConfig::find_unauth();
    let mut b = Bucket::new();
    for k in 0..10u64 {
        assert!(b.try_consume(&cfg, k));
    }
    assert!(!b.try_consume(&cfg, 100));
    // Only the operation at 0 has left the window by 60 000.
    assert!(b.try_consume(&cfg, 60_000));
    assert!(!b.try_consume(&cfg, 60_000));
}
