use tentech::token::TOKEN_LIFETIME_SECS;
use tentech::user::{now_seconds, SendError, User};

fn user() -> User {
    User {
        id: 3,
        username: "ann".to_string(),
        nickname: "Ann".to_string(),
        email: "ann@example.com".to_string(),
        password: "SECRET-REDACTED".to_string(),
        activated: false,
        activated_at: None,
    }
}

#[test]
fn token_data_at_snapshots_the_user() {
    let u = user();
    let d = u.to_token_data_at(100);
    assert_eq!(d.expired_at, 100 + 86_400);
    assert_eq!(d.user.id, 3);
    assert_eq!(d.user.username, "ann");
    assert_eq!(d.user.nickname, "Ann");
    assert_eq!(d.user.email, "ann@example.com");
    assert_eq!(d.user.password, "SECRET-REDACTED");
    assert!(!d.user.activated);
    assert_eq!(d.user.activated_at, None);
}

#[test]
fn token_data_expires_a_day_after_now() {
    let before = now_seconds();
    let d = user().to_token_data();
    let after = now_seconds();
    assert!(d.expired_at >= before + TOKEN_LIFETIME_SECS);
    assert!(d.expired_at <= after + TOKEN_LIFETIME_SECS);
}

#[test]
fn clock_reads_after_2020() {
    assert!(now_seconds() > 1_577_836_800);
}

#[test]
fn failed_delivery_is_reported() {
    let r = user().prepare_activate(Some(SendError { message: "smtp down".to_string() }));
    match r {
        Err(e) => assert_eq!(e.message, "smtp down"),
        Ok(_) => panic!("delivery failure must be reported"),
    }
}

#[test]
fn delivered_activation_leaves_user_unactivated() {
    let u = user().prepare_activate(None).ok().unwrap();
    assert_eq!(u.username, "ann");
    assert!(!u.activated);
    assert_eq!(u.activated_at, None);
}
