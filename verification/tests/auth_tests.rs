use omthub::auth::{AuthError, Backend, Credentials};
use omthub::hasher::hash_password;
use omthub::ids::UserRecordId;
use omthub::user::User;

fn creds(email: &str, password: &str) -> Credentials {
    Credentials { email: email.to_string(), password: password.to_string(), remember: false }
}

#[test]
fn authenticate_single_match_with_correct_password() {
    let mut backend = Backend::new();
    backend
        .signup("Alice".to_string(), "alice@example.com".to_string(), "Tr1cky!pass".to_string())
        .expect("signup failed");
    let got = backend.authenticate(creds("alice@example.com", "Tr1cky!pass"));
    match got {
        Ok(Some(u)) => {
            assert_eq!(u.email, "alice@example.com");
            assert_eq!(u.name, "Alice");
            assert!(u.is_active);
        },
        _ => panic!("expected a single match"),
    }
}

#[test]
fn authenticate_wrong_password_is_no_match() {
    let mut backend = Backend::new();
    backend
        .signup("Alice".to_string(), "alice@example.com".to_string(), "Tr1cky!pass".to_string())
        .expect("signup failed");
    let got = backend.authenticate(creds("alice@example.com", "wrong password"));
    assert!(matches!(got, Ok(None)));
}

#[test]
fn authenticate_unknown_email_is_no_match() {
    let backend = Backend::new();
    let got = backend.authenticate(creds("nobody@example.com", "whatever"));
    assert!(matches!(got, Ok(None)));
}

#[test]
fn authenticate_duplicate_emails_is_ambiguous() {
    let mut backend = Backend::new();
    let shared = "shared@example.com";
    let h1 = hash_password("password one").expect("hashing failed");
    let h2 = hash_password("password one").expect("hashing failed");
    backend.store.insert_user(User {
        id: UserRecordId(1),
        name: "First".to_string(),
        email: shared.to_string(),
        pw_hash: h1,
        is_active: true,
        registered_at: 0,
    });
    backend.store.insert_user(User {
        id: UserRecordId(2),
        name: "Second".to_string(),
        email: shared.to_string(),
        pw_hash: h2,
        is_active: true,
        registered_at: 0,
    });
    let got = backend.authenticate(creds(shared, "password one"));
    match got {
        Err(AuthError::Duplicates(ids)) => {
            assert_eq!(ids, vec![UserRecordId(1), UserRecordId(2)]);
        },
        _ => panic!("expected the ambiguous, duplicate-email error"),
    }
}

#[test]
fn signup_then_authenticate_succeeds() {
    let mut backend = Backend::new();
    let created = backend
        .signup("Bob".to_string(), "bob@example.com".to_string(), "An0ther!pass".to_string())
        .expect("signup failed");
    let got = backend.authenticate(creds("bob@example.com", "An0ther!pass"));
    match got {
        Ok(Some(u)) => assert_eq!(u.id, created.id),
        _ => panic!("expected the freshly signed-up identity"),
    }
}

#[test]
fn signup_duplicate_fails_without_mutating_store() {
    let mut backend = Backend::new();
    backend
        .signup("Carol".to_string(), "carol@example.com".to_string(), "S0me!pass".to_string())
        .expect("signup failed");
    assert_eq!(backend.store.select_all_users_matching_email("carol@example.com").len(), 1);
    let before = backend.store.len();
    let again = backend.signup(
        "Carol Again".to_string(),
        "carol@example.com".to_string(),
        "0ther!pass".to_string(),
    );
    assert!(again.is_err());
    assert_eq!(backend.store.len(), before);
    assert_eq!(backend.store.select_all_users_matching_email("carol@example.com").len(), 1);
}

#[test]
fn get_user_finds_by_id_and_misses_absent() {
    let mut backend = Backend::new();
    let created = backend
        .signup("Dave".to_string(), "dave@example.com".to_string(), "Pa55word!".to_string())
        .expect("signup failed");
    let found = backend.get_user(created.id).expect("expected the identity");
    assert_eq!(found.email, "dave@example.com");
    assert!(backend.get_user(UserRecordId(created.id.0.wrapping_add(1))).is_none());
}

#[test]
fn signups_draw_distinct_fresh_ids() {
    let mut backend = Backend::new();
    let first = backend
        .signup("Hana".to_string(), "hana@example.com".to_string(), "F1rst!pass".to_string())
        .expect("signup failed");
    let second = backend
        .signup("Iris".to_string(), "iris@example.com".to_string(), "S3cond!pass".to_string())
        .expect("signup failed");
    assert_ne!(first.id, second.id);
}

#[test]
fn emails_are_case_sensitive_as_stored() {
    let mut backend = Backend::new();
    backend
        .signup("Eve".to_string(), "Eve@Example.com".to_string(), "Upper1!case".to_string())
        .expect("signup failed");
    let got = backend.authenticate(creds("eve@example.com", "Upper1!case"));
    assert!(matches!(got, Ok(None)));
}
