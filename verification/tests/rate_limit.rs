use osm_world::rate_limit::{RateLimiter, RATE_LIMIT_MAX_REQUESTS, RATE_LIMIT_WINDOW_SECS};

#[test]
fn rate_limiter_allows_the_limit_then_refuses() {
    let mut limiter = RateLimiter::new(1_000);
    for _ in 0..RATE_LIMIT_MAX_REQUESTS {
        assert!(limiter.check("10.0.0.1", 1_000).is_ok());
    }
    let refused = limiter.check("10.0.0.1", 1_010).unwrap_err();
    assert_eq!(refused.status(), 429);
    assert_eq!(refused.message(), "rate limit exceeded");
    // Still refused later in the same window.
    assert!(limiter.check("10.0.0.1", 1_059).is_err());
}

#[test]
fn rate_limiter_counts_clients_separately() {
    let mut limiter = RateLimiter::new(0);
    for _ in 0..RATE_LIMIT_MAX_REQUESTS {
        assert!(limiter.check("a", 5).is_ok());
    }
    assert!(limiter.check("a", 5).is_err());
    assert!(limiter.check("b", 5).is_ok());
}

#[test]
fn rate_limiter_window_resets_after_it_passes() {
    let mut limiter = RateLimiter::new(0);
    for _ in 0..(RATE_LIMIT_MAX_REQUESTS + 3) {
        let _ = limiter.check("a", 10);
    }
    assert!(limiter.check("a", 10 + RATE_LIMIT_WINDOW_SECS - 1).is_err());
    assert!(limiter.check("a", 10 + RATE_LIMIT_WINDOW_SECS).is_ok());
    for _ in 1..RATE_LIMIT_MAX_REQUESTS {
        assert!(limiter.check("a", 10 + RATE_LIMIT_WINDOW_SECS + 1).is_ok());
    }
    assert!(limiter.check("a", 10 + RATE_LIMIT_WINDOW_SECS + 2).is_err());
}

#[test]
fn rate_limiter_sweep_forgets_idle_clients() {
    let mut limiter = RateLimiter::new(0);
    for _ in 0..RATE_LIMIT_MAX_REQUESTS + 1 {
        let _ = limiter.check("idle", 1);
    }
    // After a window, a sweep runs and the idle client starts afresh.
    assert!(limiter.check("other", 200).is_ok());
    assert!(limiter.check("idle", 200).is_ok());
}

#[test]
fn rate_limiter_run_within_a_window_ignores_other_clients() {
    let mut limiter = RateLimiter::new(0);
    let mut results = Vec::new();
    for j in 0..(RATE_LIMIT_MAX_REQUESTS as u64 + 5) {
        // Another client's requests are interleaved and change nothing.
        let _ = limiter.check("neighbour", 100 + j);
        results.push(limiter.check("client", 100 + j * 2).is_ok());
    }
    for (j, ok) in results.iter().enumerate() {
        assert_eq!(*ok, j < RATE_LIMIT_MAX_REQUESTS);
    }
}
