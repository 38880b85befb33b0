use gateway::config::RateLimitConfig;
use gateway::rate_limit::{RateLimitResult, RateLimiter};

/// One request, in the billionths that rate-limit settings use.
const ONE: u64 = 1_000_000_000;

fn make_limiter(nano_rps: u64, nano_burst: u64) -> RateLimiter {
    RateLimiter::new(&RateLimitConfig {
        enabled: true,
        nano_requests_per_second: nano_rps,
        nano_burst,
    })
}

#[test]
fn allows_first_request() {
    let mut rl = make_limiter(10 * ONE, 20 * ONE);
    assert!(matches!(rl.check("127.0.0.1", "test"), RateLimitResult::Allowed));
}

#[test]
fn denies_after_burst_exhausted() {
    let mut rl = make_limiter(10 * ONE, 5 * ONE);
    for _ in 0..5 {
        assert!(matches!(rl.check("127.0.0.1", "test"), RateLimitResult::Allowed));
    }
    assert!(matches!(
        rl.check("127.0.0.1", "test"),
        RateLimitResult::Denied { .. }
    ));
}

#[test]
fn refills_over_time() {
    let mut rl = make_limiter(10 * ONE, 5 * ONE);
    for _ in 0..5 {
        rl.check_at("127.0.0.1", "test", 0);
    }
    assert!(matches!(
        rl.check_at("127.0.0.1", "test", 0),
        RateLimitResult::Denied { .. }
    ));
    // 200 ms later, at ten per second, two tokens have come back.
    assert!(matches!(
        rl.check_at("127.0.0.1", "test", 200_000_000),
        RateLimitResult::Allowed
    ));
}

#[test]
fn burst_of_three_at_one_instant() {
    let mut rl = make_limiter(ONE, 3 * ONE);
    let answers: Vec<RateLimitResult> = (0..4).map(|_| rl.check_at("10.0.0.1", "s", 7)).collect();
    assert_eq!(answers[0], RateLimitResult::Allowed);
    assert_eq!(answers[1], RateLimitResult::Allowed);
    assert_eq!(answers[2], RateLimitResult::Allowed);
    // One token per second: the next one is a full second away.
    assert_eq!(answers[3], RateLimitResult::Denied { retry_after_nanos: Some(1_000_000_000) });
}

#[test]
fn retry_after_is_exact() {
    let mut rl = make_limiter(3 * ONE, ONE);
    assert_eq!(rl.check_at("a", "s", 0), RateLimitResult::Allowed);
    // Three per second: a token takes 333_333_333.33.. ns, rounded up.
    assert_eq!(
        rl.check_at("a", "s", 0),
        RateLimitResult::Denied { retry_after_nanos: Some(333_333_334) }
    );
    assert!(matches!(rl.check_at("a", "s", 333_333_333), RateLimitResult::Denied { .. }));
    assert_eq!(rl.check_at("a", "s", 333_333_334), RateLimitResult::Allowed);
}

#[test]
fn refusal_keeps_partial_tokens() {
    let mut rl = make_limiter(ONE, ONE);
    assert_eq!(rl.check_at("a", "s", 0), RateLimitResult::Allowed);
    // Half a token after half a second: refused, the half kept.
    assert_eq!(
        rl.check_at("a", "s", 500_000_000),
        RateLimitResult::Denied { retry_after_nanos: Some(500_000_000) }
    );
    assert_eq!(rl.check_at("a", "s", 1_000_000_000), RateLimitResult::Allowed);
}

#[test]
fn buckets_are_per_client_and_server() {
    let mut rl = make_limiter(ONE, ONE);
    assert_eq!(rl.check_at("a", "s", 0), RateLimitResult::Allowed);
    assert!(matches!(rl.check_at("a", "s", 0), RateLimitResult::Denied { .. }));
    assert_eq!(rl.check_at("b", "s", 0), RateLimitResult::Allowed);
    assert_eq!(rl.check_at("a", "t", 0), RateLimitResult::Allowed);
}

#[test]
fn disabled_limiter_allows_everything() {
    let mut rl = RateLimiter::new(&RateLimitConfig {
        enabled: false,
        nano_requests_per_second: 0,
        nano_burst: 0,
    });
    for _ in 0..10 {
        assert_eq!(rl.check("x", "y"), RateLimitResult::Allowed);
    }
}

#[test]
fn zero_rate_never_refills() {
    let mut rl = make_limiter(0, ONE);
    assert_eq!(rl.check_at("a", "s", 0), RateLimitResult::Allowed);
    assert_eq!(
        rl.check_at("a", "s", 1_000_000_000_000),
        RateLimitResult::Denied { retry_after_nanos: None }
    );
}

#[test]
fn fractional_burst_never_allows() {
    let mut rl = make_limiter(ONE, ONE / 2);
    assert_eq!(
        rl.check_at("a", "s", 0),
        RateLimitResult::Denied { retry_after_nanos: Some(500_000_000) }
    );
    assert!(matches!(rl.check_at("a", "s", 10_000_000_000), RateLimitResult::Denied { .. }));
}

#[test]
fn window_bound_holds_for_steady_requests() {
    // Burst 2, one per second: over 3 s at most 2 + 3 = 5 of many requests pass.
    let mut rl = make_limiter(ONE, 2 * ONE);
    let mut allowed = 0;
    for i in 0..=300u128 {
        if rl.check_at("a", "s", i * 10_000_000) == RateLimitResult::Allowed {
            allowed += 1;
        }
    }
    assert_eq!(allowed, 5);
}

#[test]
fn very_slow_rate_still_refills() {
    // 0.0004 requests per second: a token every 2500 seconds.
    let mut rl = make_limiter(400_000, ONE);
    assert_eq!(rl.check_at("a", "s", 0), RateLimitResult::Allowed);
    assert_eq!(
        rl.check_at("a", "s", 0),
        RateLimitResult::Denied { retry_after_nanos: Some(2_500_000_000_000) }
    );
    assert_eq!(rl.check_at("a", "s", 2_500_000_000_000), RateLimitResult::Allowed);
}

#[test]
fn clock_readings_never_go_back() {
    let mut rl = make_limiter(ONE, ONE);
    let a = rl.clock_reading();
    let b = rl.clock_reading();
    assert!(b >= a);
}
