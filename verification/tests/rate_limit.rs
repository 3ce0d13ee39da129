use spark_api::auth::rate_limit::{RateLimiter, MAX_ATTEMPTS, WINDOW_NANOS};

#[test]
fn allows_up_to_the_limit_then_refuses() {
    let mut limiter = RateLimiter::new();
    for i in 1..=MAX_ATTEMPTS {
        assert!(limiter.check("user@example.com"), "attempt {i} should pass");
    }
    assert!(!limiter.check("user@example.com"), "the next one must not");
}

#[test]
fn a_successful_login_clears_the_counter() {
    let mut limiter = RateLimiter::new();
    for _ in 0..MAX_ATTEMPTS {
        limiter.check("user@example.com");
    }
    limiter.reset("user@example.com");
    assert!(limiter.check("user@example.com"));
}

#[test]
fn accounts_are_limited_independently_and_case_insensitively() {
    let mut limiter = RateLimiter::new();
    for _ in 0..=MAX_ATTEMPTS {
        limiter.check("victim@example.com");
    }
    assert!(!limiter.check("VICTIM@example.com"), "same account");
    assert!(limiter.check("someone@example.com"), "a different account");
}

#[test]
fn a_new_window_starts_a_new_count() {
    let mut limiter = RateLimiter::new();
    for _ in 0..MAX_ATTEMPTS {
        assert!(limiter.check_at("user@example.com", 5));
    }
    assert!(!limiter.check_at("user@example.com", 5 + WINDOW_NANOS - 1));
    assert!(limiter.check_at("user@example.com", 5 + WINDOW_NANOS));
}

#[test]
fn attempts_at_one_instant_are_capped() {
    let mut limiter = RateLimiter::new();
    let mut allowed = 0;
    for _ in 0..25 {
        if limiter.check_at("a@b.c", 1000) {
            allowed += 1;
        }
    }
    assert_eq!(allowed, MAX_ATTEMPTS);
}

#[test]
fn reset_of_one_account_leaves_the_others() {
    let mut limiter = RateLimiter::new();
    for _ in 0..=MAX_ATTEMPTS {
        limiter.check_at("x@example.com", 0);
        limiter.check_at("y@example.com", 0);
    }
    limiter.reset("X@EXAMPLE.COM");
    assert!(limiter.check_at("x@example.com", 1));
    assert!(!limiter.check_at("y@example.com", 1));
}

#[test]
fn other_accounts_attempts_do_not_count() {
    let mut limiter = RateLimiter::new();
    for i in 0..MAX_ATTEMPTS as u128 {
        assert!(limiter.check_at("a@x.io", i));
        assert!(limiter.check_at("b@x.io", i));
        limiter.check_at("c@x.io", i);
    }
    assert!(!limiter.check_at("A@x.io", 100));
    limiter.reset("b@x.io");
    limiter.reset("b@x.io");
    assert!(!limiter.check_at("a@x.io", 101));
    assert!(limiter.check_at("b@x.io", 101));
}

#[test]
fn after_a_reset_checks_count_from_one_among_others() {
    let mut limiter = RateLimiter::new();
    for _ in 0..=MAX_ATTEMPTS {
        limiter.check("k@x.io");
    }
    assert!(!limiter.check("k@x.io"));
    limiter.reset("K@x.io");
    for i in 1..=MAX_ATTEMPTS {
        assert!(limiter.check("other@x.io"), "other attempt {i}");
        assert!(limiter.check("k@x.io"), "attempt {i} after the reset");
    }
    assert!(!limiter.check("K@X.IO"));
    assert!(!limiter.check("other@x.io"));
}
