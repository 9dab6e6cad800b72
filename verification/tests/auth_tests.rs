use tether::auth::{AuthManager, MAX_FAILED_ATTEMPTS, RATE_LIMIT_WINDOW_NANOS, SESSION_DURATION_NANOS};

const TOO_MANY: &str = "Too many failed attempts. Please try again later.";

fn is_token(t: &str) -> bool {
    t.len() == 64 && t.chars().all(|c| c.is_ascii_digit() || ('a'..='f').contains(&c))
}

#[test]
fn new_manager_has_no_password() {
    let m = AuthManager::new();
    assert!(!m.is_password_set());
}

#[test]
fn set_password_then_check() {
    let mut m = AuthManager::new();
    m.set_password("secret").unwrap();
    assert!(m.is_password_set());
    assert!(m.check_password("secret").is_ok());
    assert_eq!(m.check_password("wrong"), Err("Invalid password".to_string()));
}

#[test]
fn check_without_password() {
    let m = AuthManager::new();
    assert_eq!(m.check_password("anything"), Err("No password set".to_string()));
}

#[test]
fn authenticate_without_password_fails_and_counts() {
    let mut m = AuthManager::new();
    for _ in 0..MAX_FAILED_ATTEMPTS {
        assert_eq!(m.authenticate("x", "1.2.3.4"), Err("No password set".to_string()));
    }
    assert_eq!(m.authenticate("x", "1.2.3.4"), Err(TOO_MANY.to_string()));
}

#[test]
fn authenticate_success_gives_valid_token() {
    let mut m = AuthManager::new();
    m.set_password("hunter2").unwrap();
    let token = m.authenticate("hunter2", "127.0.0.1").unwrap();
    assert!(is_token(&token));
    assert!(m.validate_session(&token));
    assert!(!m.validate_session("not-a-token"));
}

#[test]
fn tokens_differ_between_logins() {
    let mut m = AuthManager::new();
    m.set_password("pw").unwrap();
    let a = m.authenticate("pw", "ip").unwrap();
    let b = m.authenticate("pw", "ip").unwrap();
    assert_ne!(a, b);
    assert!(m.validate_session(&a));
    assert!(m.validate_session(&b));
}

#[test]
fn wrong_password_is_refused() {
    let mut m = AuthManager::new();
    m.set_password("right").unwrap();
    assert_eq!(m.authenticate("wrong", "ip"), Err("Invalid password".to_string()));
}

#[test]
fn five_failures_lock_out_even_the_right_password() {
    let mut m = AuthManager::new();
    m.set_password("right").unwrap();
    for _ in 0..5 {
        assert_eq!(m.authenticate("wrong", "10.0.0.9"), Err("Invalid password".to_string()));
    }
    assert_eq!(m.authenticate("right", "10.0.0.9"), Err(TOO_MANY.to_string()));
    // Another address is not affected.
    assert!(m.authenticate("right", "10.0.0.10").is_ok());
}

#[test]
fn success_clears_failure_count() {
    let mut m = AuthManager::new();
    m.set_password("right").unwrap();
    for _ in 0..4 {
        assert!(m.authenticate("wrong", "a").is_err());
    }
    assert!(m.authenticate("right", "a").is_ok());
    for _ in 0..4 {
        assert_eq!(m.authenticate("wrong", "a"), Err("Invalid password".to_string()));
    }
    assert!(m.authenticate("right", "a").is_ok());
}

const NO_PASSWORD: &str = "No password set";

/// An attempt at `now` from `ip` on a manager without a password: counted when allowed.
fn attempt(m: &mut AuthManager, ip: &str, now: u128) -> bool {
    match m.authenticate_at("x", ip, now) {
        Err(e) if e == NO_PASSWORD => true,
        Err(e) if e == TOO_MANY => false,
        other => panic!("unexpected answer {:?}", other),
    }
}

#[test]
fn rate_limit_counts_within_window() {
    let mut m = AuthManager::new();
    for i in 0..MAX_FAILED_ATTEMPTS {
        assert!(attempt(&mut m, "10.0.0.1", 1000 + i as u128));
    }
    assert!(!attempt(&mut m, "10.0.0.1", 1000 + RATE_LIMIT_WINDOW_NANOS));
    // The window has run out: counting starts over.
    assert!(attempt(&mut m, "10.0.0.1", 1000 + RATE_LIMIT_WINDOW_NANOS + 1));
}

#[test]
fn rate_limit_clock_going_back_keeps_window() {
    let mut m = AuthManager::new();
    for _ in 0..5 {
        assert!(attempt(&mut m, "b", 5_000));
    }
    assert!(!attempt(&mut m, "b", 10));
}

#[test]
fn rate_limit_cleanup() {
    let mut m = AuthManager::new();
    for _ in 0..5 {
        assert!(attempt(&mut m, "c", 0));
    }
    m.cleanup_rate_limits_at("c", RATE_LIMIT_WINDOW_NANOS);
    assert!(!attempt(&mut m, "c", RATE_LIMIT_WINDOW_NANOS));
    m.cleanup_rate_limits_at("c", RATE_LIMIT_WINDOW_NANOS + 1);
    // The entry is gone, so the address starts a fresh window even at the old time.
    assert!(attempt(&mut m, "c", 1));
    m.cleanup_rate_limits("unknown");
}

#[test]
fn login_session_valid_until_expiry() {
    let mut m = AuthManager::new();
    m.set_password("pw").unwrap();
    let tok = m.authenticate_at("pw", "ip", 100).unwrap();
    assert!(is_token(&tok));
    assert!(m.validate_session_at(&tok, 100));
    assert!(m.validate_session_at(&tok, 100 + SESSION_DURATION_NANOS - 1));
    assert!(!m.validate_session_at(&tok, 100 + SESSION_DURATION_NANOS));
    // Found expired, the session is gone for good.
    assert!(!m.validate_session_at(&tok, 100));
}

#[test]
fn session_before_creation_time_is_valid() {
    let mut m = AuthManager::new();
    m.set_password("pw").unwrap();
    let tok = m.authenticate_at("pw", "ip", 1_000_000).unwrap();
    assert!(m.validate_session_at(&tok, 5));
}

#[test]
fn successful_login_clears_rate_limit() {
    let mut m = AuthManager::new();
    m.set_password("pw").unwrap();
    for _ in 0..4 {
        assert_eq!(m.authenticate_at("bad", "d", 0), Err("Invalid password".to_string()));
    }
    assert!(m.authenticate_at("pw", "d", 1).is_ok());
    for _ in 0..5 {
        assert_eq!(m.authenticate_at("bad", "d", 2), Err("Invalid password".to_string()));
    }
    assert_eq!(m.authenticate_at("pw", "d", 3), Err(TOO_MANY.to_string()));
}

#[test]
fn cleanup_keeps_exactly_live_sessions() {
    let mut m = AuthManager::new();
    m.set_password("pw").unwrap();
    let old = m.authenticate_at("pw", "ip", 0).unwrap();
    let new = m.authenticate_at("pw", "ip", SESSION_DURATION_NANOS).unwrap();
    let newer = m.authenticate_at("pw", "ip", SESSION_DURATION_NANOS + 5).unwrap();
    m.cleanup_expired_at(SESSION_DURATION_NANOS + 1);
    assert!(!m.validate_session_at(&old, 0));
    assert!(m.validate_session_at(&new, SESSION_DURATION_NANOS + 1));
    assert!(m.validate_session_at(&newer, SESSION_DURATION_NANOS + 1));
    m.cleanup_expired();
}

#[test]
fn earlier_sessions_stay_valid_after_a_login() {
    let mut m = AuthManager::new();
    m.set_password("pw").unwrap();
    let first = m.authenticate_at("pw", "a", 10).unwrap();
    let second = m.authenticate_at("pw", "b", 20).unwrap();
    assert_ne!(first, second);
    assert!(m.validate_session_at(&first, 30));
    assert!(m.validate_session_at(&second, 30));
}

#[test]
fn set_password_replaces_the_earlier_one() {
    let mut m = AuthManager::new();
    assert_eq!(m.set_password("one"), Ok(()));
    assert_eq!(m.set_password("two"), Ok(()));
    assert_eq!(m.check_password("one"), Err("Invalid password".to_string()));
    assert!(m.check_password("two").is_ok());
    assert_eq!(m.set_password(""), Ok(()));
    assert!(m.check_password("").is_ok());
}
