//! Signing in, lockouts and sessions. Times are in nanoseconds.

use albumplayer::auth::{hex, lockout, Auth, ClientAddr, LoginPolicy, SECOND, TOKEN_BYTES};
use albumplayer::server::ServerError;

const IP: ClientAddr = ClientAddr::V4(0xCB00_7107);
const OTHER: ClientAddr = ClientAddr::V4(0xC633_6409);
const MS: u128 = 1_000_000;
const PASSWORD: &str = "correct horse battery";

fn auth() -> Auth {
    Auth::new(PASSWORD, 3600 * SECOND).unwrap()
}

/// Lockouts short enough to wait out inside a test.
fn quick_policy() -> LoginPolicy {
    LoginPolicy {
        free_attempts: 2,
        base_lockout: 40 * MS,
        max_lockout: 400 * MS,
        forget_after: 60 * SECOND,
    }
}

fn quick_auth() -> Auth {
    Auth::with_policy(PASSWORD, 3600 * SECOND, quick_policy()).unwrap()
}

fn retry_after(auth: &mut Auth, now: u128) -> u128 {
    match auth.login(IP, "nope", now) {
        Err(ServerError::TooManyAttempts { retry_after }) => retry_after,
        other => panic!("expected a lockout, got {other:?}"),
    }
}

#[test]
fn the_right_password_yields_a_working_token() {
    let mut auth = auth();
    let token = auth.login(IP, "correct horse battery", 0).unwrap();
    assert!(auth.verify(&token, 0));
}

#[test]
fn the_wrong_password_is_refused() {
    let mut auth = auth();
    assert!(matches!(auth.login(IP, "wrong", 0), Err(ServerError::Unauthorized)));
    assert!(matches!(auth.login(IP, "", 0), Err(ServerError::Unauthorized)));
}

#[test]
fn guessing_is_locked_out_after_a_few_failures() {
    let mut auth = quick_auth();

    // The allowance covers ordinary typos without penalty.
    for _ in 0..2 {
        assert!(matches!(auth.login(IP, "nope", 0), Err(ServerError::Unauthorized)));
    }
    // The next failure starts the lockout.
    assert!(matches!(auth.login(IP, "nope", 0), Err(ServerError::Unauthorized)));
    assert!(
        matches!(auth.login(IP, "nope", 0), Err(ServerError::TooManyAttempts { .. })),
        "further guesses must be refused outright"
    );

    // Even the correct password is refused while locked out, so the lockout cannot
    // be probed as an oracle.
    assert!(matches!(
        auth.login(IP, "correct horse battery", 0),
        Err(ServerError::TooManyAttempts { .. })
    ));
}

#[test]
fn the_lockout_lengthens_with_each_failure() {
    let mut auth = quick_auth();
    for _ in 0..3 {
        let _ = auth.login(IP, "nope", 0);
    }
    let first = retry_after(&mut auth, 0);

    let later = 60 * MS;
    let _ = auth.login(IP, "nope", later); // fails again, doubling the wait
    let second = retry_after(&mut auth, later);
    assert!(second > first, "{second:?} should exceed {first:?}");
    assert_eq!((first, second), (40 * MS, 80 * MS));
}

#[test]
fn the_lockout_expires() {
    let mut auth = quick_auth();
    for _ in 0..3 {
        let _ = auth.login(IP, "nope", 0);
    }
    assert!(matches!(
        auth.login(IP, "nope", 0),
        Err(ServerError::TooManyAttempts { .. })
    ));

    // Waiting it out lets the real password through again.
    assert!(auth.login(IP, "correct horse battery", 60 * MS).is_ok());
}

#[test]
fn one_attacker_cannot_lock_out_everyone_else() {
    // Failures are counted per client, so a hostile address does not deny the
    // service to the household.
    let mut auth = quick_auth();
    for _ in 0..6 {
        let _ = auth.login(OTHER, "nope", 0);
    }
    assert!(matches!(
        auth.login(OTHER, "nope", 0),
        Err(ServerError::TooManyAttempts { .. })
    ));
    assert!(auth.login(IP, "correct horse battery", 0).is_ok());
}

#[test]
fn signing_in_clears_the_slate() {
    let mut auth = quick_auth();
    let _ = auth.login(IP, "nope", 0);
    let _ = auth.login(IP, "nope", 0);
    assert!(auth.login(IP, "correct horse battery", 0).is_ok());

    // The earlier failures are forgotten, so the allowance is whole again.
    for _ in 0..2 {
        assert!(matches!(auth.login(IP, "nope", 0), Err(ServerError::Unauthorized)));
    }
}

#[test]
fn a_lockout_capped_rather_than_growing_without_limit() {
    let mut auth = quick_auth();
    for _ in 0..40 {
        let _ = auth.login(IP, "nope", 0);
    }
    let wait = retry_after(&mut auth, 0);
    assert!(wait <= 400 * MS, "{wait:?}");
}

#[test]
fn an_unknown_token_is_not_a_session() {
    let auth = auth();
    assert!(!auth.verify("deadbeef", 0));
    assert!(!auth.verify("", 0));
}

#[test]
fn the_plaintext_password_is_not_retained() {
    let auth = auth();
    assert!(
        !auth.password_hash().contains("correct horse battery"),
        "the hash must not embed the password"
    );
    assert!(auth.password_hash().starts_with("$argon2id$"));
}

#[test]
fn tokens_are_unique_and_long() {
    let mut auth = auth();
    let a = auth.login(IP, "correct horse battery", 0).unwrap();
    let b = auth.login(IP, "correct horse battery", 0).unwrap();
    assert_ne!(a, b);
    assert_eq!(a.len(), TOKEN_BYTES * 2, "32 bytes as hex");
}

#[test]
fn logging_out_invalidates_the_token() {
    let mut auth = auth();
    let token = auth.login(IP, "correct horse battery", 0).unwrap();
    auth.logout(&token);
    assert!(!auth.verify(&token, 0));
}

#[test]
fn expired_sessions_stop_working_and_get_swept_up() {
    let mut auth = Auth::new("correct horse battery", MS).unwrap();
    let stale = auth.login(IP, "correct horse battery", 0).unwrap();
    let later = 20 * MS;

    assert!(!auth.verify(&stale, later), "an expired token is rejected");

    // Logging in again sweeps the expired entry rather than accumulating it.
    let fresh = auth.login(IP, "correct horse battery", later).unwrap();
    assert_eq!(auth.session_count(), 1);
    assert!(!auth.verify(&stale, later));
    assert!(auth.verify(&fresh, later));
}

#[test]
fn two_servers_hash_the_same_password_differently() {
    // Distinct salts, so the stored hash reveals nothing by comparison.
    assert_ne!(auth().password_hash(), auth().password_hash());
}

#[test]
fn a_salt_fixes_the_hash() {
    let policy = LoginPolicy::default();
    let a = Auth::with_salt(PASSWORD, &[7; 16], SECOND, policy).unwrap();
    let b = Auth::with_salt(PASSWORD, &[7; 16], SECOND, policy).unwrap();
    assert_eq!(a.password_hash(), b.password_hash());
    // The salt stands in the hash in base64.
    assert!(a.password_hash().contains("$BwcHBwcHBwcHBwcHBwcHBw$"), "{}", a.password_hash());
    assert!(matches!(
        Auth::with_salt(PASSWORD, &[], SECOND, policy),
        Err(ServerError::Config(_))
    ));
}

#[test]
fn the_default_policy_forgives_typos() {
    let policy = LoginPolicy::default();
    assert_eq!(policy.free_attempts, 5);
    assert_eq!(policy.base_lockout, 2 * SECOND);
    assert_eq!(policy.max_lockout, 15 * 60 * SECOND);
    assert_eq!(policy.forget_after, 60 * 60 * SECOND);
    assert_eq!(lockout(&policy, 5), None);
    assert_eq!(lockout(&policy, 6), Some(2 * SECOND));
    assert_eq!(lockout(&policy, 8), Some(8 * SECOND));
    assert_eq!(lockout(&policy, u32::MAX), Some(15 * 60 * SECOND));
}

#[test]
fn old_failures_are_forgotten() {
    let mut auth = quick_auth();
    for _ in 0..2 {
        let _ = auth.login(IP, "nope", 0);
    }
    // After an hour of quiet the next failure is a first one.
    let later = 3600 * SECOND;
    let _ = auth.login(IP, "nope", later);
    assert_eq!(auth.locked_out(IP, later), None);
}

#[test]
fn bytes_become_two_hex_digits_each() {
    assert_eq!(hex(&[0x00, 0x0f, 0xa5, 0xff]), "000fa5ff");
    assert_eq!(hex(&[]), "");
    assert_ne!(hex(&[1, 2]), hex(&[0x12]));
}

#[test]
fn a_session_is_opened_under_its_token() {
    let mut auth = quick_auth();
    let token = auth.open_session(&[0xab; 32], 5);
    assert_eq!(token, "ab".repeat(32));
    assert!(auth.verify(&token, 5));
    assert!(!auth.verify(&token, 5 + 3600 * SECOND));
}
