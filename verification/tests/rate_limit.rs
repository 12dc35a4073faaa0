use mcm_finder::rate_limit::{
    extract_client_key, is_rate_limit_exempt, rate_limited_message, ApiRateLimiter,
};

const SEC: u128 = 1_000_000_000;

#[test]
fn blocks_after_max_requests() {
    let mut limiter = ApiRateLimiter::new(2, 60);

    assert_eq!(limiter.register_request("127.0.0.1", 0), None);
    assert_eq!(limiter.register_request("127.0.0.1", 0), None);
    assert!(limiter.register_request("127.0.0.1", 0).is_some());
}

#[test]
fn retry_after_counts_down_to_the_oldest_request_leaving() {
    let mut limiter = ApiRateLimiter::new(2, 60);
    assert_eq!(limiter.register_request("a", 0), None);
    assert_eq!(limiter.register_request("a", SEC), None);
    assert_eq!(limiter.register_request("a", 2 * SEC), Some(58));
    // A refusal is not recorded: the same answer one second later, less one.
    assert_eq!(limiter.register_request("a", 3 * SEC), Some(57));
    // Less than a second left still asks for one second.
    assert_eq!(limiter.register_request("a", 60 * SEC - 1), Some(1));
    assert_eq!(limiter.register_request("a", 60 * SEC), Some(1));
}

#[test]
fn window_slides_past_old_requests() {
    let mut limiter = ApiRateLimiter::new(2, 60);
    assert_eq!(limiter.register_request("a", 0), None);
    assert_eq!(limiter.register_request("a", SEC), None);
    // At 61 s the first request is more than 60 s old and leaves; the second stays.
    assert_eq!(limiter.register_request("a", 61 * SEC), None);
    assert!(limiter.register_request("a", 61 * SEC).is_some());
    // At 122 s both remaining requests are older than the window.
    assert_eq!(limiter.register_request("a", 122 * SEC), None);
}

#[test]
fn clients_are_counted_apart() {
    let mut limiter = ApiRateLimiter::new(1, 60);
    assert_eq!(limiter.register_request("a", 0), None);
    assert_eq!(limiter.register_request("b", 0), None);
    assert!(limiter.register_request("a", 0).is_some());
    assert!(limiter.register_request("b", 0).is_some());
    assert_eq!(limiter.register_request("c", 0), None);
}

#[test]
fn from_env_reads_positive_settings_only() {
    let mut limiter = ApiRateLimiter::from_env(Some("1"), Some("10"));
    assert_eq!(limiter.register_request("a", 0), None);
    assert_eq!(limiter.register_request("a", SEC), Some(9));

    let mut defaults = ApiRateLimiter::from_env(Some("0"), Some("abc"));
    for i in 0..120u128 {
        assert_eq!(defaults.register_request("a", i), None);
    }
    assert_eq!(defaults.register_request("a", 120), Some(59));

    let mut missing = ApiRateLimiter::from_env(None, None);
    for _ in 0..120 {
        assert_eq!(missing.register_request("a", 0), None);
    }
    assert_eq!(missing.register_request("a", 0), Some(60));
}

#[test]
fn exempt_requests() {
    assert!(is_rate_limit_exempt("OPTIONS", "/api/v1/search"));
    assert!(is_rate_limit_exempt("GET", "/api/v1/health"));
    assert!(!is_rate_limit_exempt("GET", "/api/v1/search"));
    assert!(!is_rate_limit_exempt("options", "/api/v1/health/"));
}

#[test]
fn client_key_prefers_forwarded_then_real_ip() {
    assert_eq!(
        extract_client_key(Some(" 10.0.0.1 , 10.0.0.2"), Some("10.0.0.9")),
        "10.0.0.1"
    );
    assert_eq!(extract_client_key(Some("  ,x"), Some(" 10.0.0.9 ")), "10.0.0.9");
    assert_eq!(extract_client_key(None, Some("10.0.0.9")), "10.0.0.9");
    assert_eq!(extract_client_key(Some(""), Some("   ")), "unknown");
    assert_eq!(extract_client_key(None, None), "unknown");
}

#[test]
fn refusal_message() {
    assert_eq!(
        rate_limited_message(42),
        "Too many requests from this client. Retry after 42 seconds."
    );
    assert_eq!(
        rate_limited_message(0),
        "Too many requests from this client. Retry after 0 seconds."
    );
}
