use omthub::ids::UserRecordId;
use omthub::session::{SessionManager, SESSION_TTL_SECONDS};

const T0: i64 = 1_700_000_000;

#[test]
fn sliding_session_keeps_succeeding_below_window_then_expires() {
    let mut mgr = SessionManager::new();
    let user = UserRecordId(7);
    let token = mgr.create(user, false, T0).expect("token collision");

    // repeated accesses below the inactivity window keep succeeding
    let mut now = T0;
    for _ in 0..5 {
        now += SESSION_TTL_SECONDS - 1;
        assert_eq!(mgr.validate(token, now), Some(user));
    }

    // a full window with no access elapses: the session is gone
    now += SESSION_TTL_SECONDS;
    assert_eq!(mgr.validate(token, now), None);
    assert_eq!(mgr.validate(token, now), None);
}

#[test]
fn remembered_session_expires_exactly_at_creation_plus_window() {
    let mut mgr = SessionManager::new();
    let user = UserRecordId(9);
    let token = mgr.create(user, true, T0).expect("token collision");

    // intermediate accesses do not move a fixed expiry
    assert_eq!(mgr.validate(token, T0 + 1), Some(user));
    assert_eq!(mgr.validate(token, T0 + SESSION_TTL_SECONDS - 1), Some(user));

    // exactly thirty days after creation it is absent, accesses or not
    assert_eq!(mgr.validate(token, T0 + SESSION_TTL_SECONDS), None);
}

#[test]
fn sliding_session_extends_on_each_access() {
    let mut mgr = SessionManager::new();
    let user = UserRecordId(11);
    let token = mgr.create(user, false, T0).expect("token collision");

    let touched = T0 + 10;
    assert_eq!(mgr.validate(token, touched), Some(user));
    // past the original window, but within the extended one
    assert_eq!(mgr.validate(token, touched + SESSION_TTL_SECONDS - 1), Some(user));
}

#[test]
fn revoke_makes_validate_absent_immediately() {
    let mut mgr = SessionManager::new();
    let user = UserRecordId(13);
    let token = mgr.create(user, false, T0).expect("token collision");
    assert_eq!(mgr.validate(token, T0 + 1), Some(user));
    mgr.revoke(token);
    assert_eq!(mgr.validate(token, T0 + 2), None);
}

#[test]
fn revoke_absent_token_is_harmless() {
    let mut mgr = SessionManager::new();
    mgr.revoke(12345);
    assert_eq!(mgr.validate(12345, T0), None);
}

#[test]
fn sweep_deletes_expired_and_keeps_live() {
    let mut mgr = SessionManager::new();
    let early_user = UserRecordId(1);
    let late_user = UserRecordId(2);
    let early = mgr.create(early_user, true, T0).expect("token collision");
    let late = mgr.create(late_user, true, T0 + 1000).expect("token collision");

    mgr.sweep(T0 + SESSION_TTL_SECONDS);
    assert_eq!(mgr.validate(early, T0 + SESSION_TTL_SECONDS), None);
    assert_eq!(mgr.validate(late, T0 + SESSION_TTL_SECONDS + 500), Some(late_user));
}

#[test]
fn create_with_token_stores_fresh_and_refuses_taken() {
    let mut mgr = SessionManager::new();
    assert_eq!(mgr.create_with_token(UserRecordId(1), false, T0, 42), Some(42));
    assert_eq!(mgr.create_with_token(UserRecordId(2), true, T0, 42), None);
    assert_eq!(mgr.validate(42, T0 + 1), Some(UserRecordId(1)));
}

#[test]
fn tokens_are_distinct_across_sessions() {
    let mut mgr = SessionManager::new();
    let a = mgr.create(UserRecordId(1), false, T0).expect("token collision");
    let b = mgr.create(UserRecordId(2), false, T0).expect("token collision");
    assert_ne!(a, b);
    assert_eq!(mgr.validate(a, T0 + 1), Some(UserRecordId(1)));
    assert_eq!(mgr.validate(b, T0 + 1), Some(UserRecordId(2)));
}
