use omthub::auth::{Backend, Credentials};
use omthub::session::{SessionManager, SESSION_TTL_SECONDS};

const T0: i64 = 1_700_000_000;

#[test]
fn signup_login_validate_logout_flow() {
    let mut backend = Backend::new();
    let mut sessions = SessionManager::new();

    backend
        .signup("Frida".to_string(), "frida@example.com".to_string(), "G00d!password".to_string())
        .expect("signup failed");

    let user = backend
        .authenticate(Credentials {
            email: "frida@example.com".to_string(),
            password: "G00d!password".to_string(),
            remember: true,
        })
        .expect("no operational error")
        .expect("expected a single match");

    let token = sessions.create(user.id, true, T0).expect("token collision");

    let validated = sessions.validate(token, T0 + 60).expect("session should be live");
    let fetched = backend.get_user(validated).expect("identity should exist");
    assert_eq!(fetched.email, "frida@example.com");

    sessions.revoke(token);
    assert_eq!(sessions.validate(token, T0 + 61), None);
}

#[test]
fn remembered_login_outlives_sliding_window_start() {
    let mut backend = Backend::new();
    let mut sessions = SessionManager::new();

    backend
        .signup("Gus".to_string(), "gus@example.com".to_string(), "Als0!good".to_string())
        .expect("signup failed");
    let user = backend
        .authenticate(Credentials {
            email: "gus@example.com".to_string(),
            password: "Als0!good".to_string(),
            remember: false,
        })
        .expect("no operational error")
        .expect("expected a single match");

    let token = sessions.create(user.id, false, T0).expect("token collision");
    // one touch within the window slides the expiry forward
    assert!(sessions.validate(token, T0 + SESSION_TTL_SECONDS / 2).is_some());
    assert!(sessions.validate(token, T0 + SESSION_TTL_SECONDS + 1).is_some());
}
