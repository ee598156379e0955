use omthub::ids::UserRecordId;
use omthub::user::{IdentityStore, PublicUser, User};

fn user(id: u128, name: &str, email: &str, pw_hash: &str) -> User {
    User {
        id: UserRecordId(id),
        name: name.to_string(),
        email: email.to_string(),
        pw_hash: pw_hash.to_string(),
        is_active: true,
        registered_at: 1_700_000_000,
    }
}

#[test]
fn public_user_keeps_everything_but_the_hash() {
    let u = user(42, "Alice", "alice@example.com", "$argon2id$v=19$secret");
    let p = PublicUser::from(u);
    assert_eq!(p.id, UserRecordId(42));
    assert_eq!(p.name, "Alice");
    assert_eq!(p.email, "alice@example.com");
    assert!(p.is_active);
    assert_eq!(p.registered_at, 1_700_000_000);
}

#[test]
fn lookups_by_email_return_all_matches_in_order() {
    let mut store = IdentityStore::new();
    store.insert_user(user(1, "A", "x@example.com", "h1"));
    store.insert_user(user(2, "B", "y@example.com", "h2"));
    store.insert_user(user(3, "C", "x@example.com", "h3"));

    let hits = store.select_all_users_matching_email("x@example.com");
    assert_eq!(hits.len(), 2);
    assert_eq!(hits[0].id, UserRecordId(1));
    assert_eq!(hits[1].id, UserRecordId(3));
    assert!(store.select_all_users_matching_email("z@example.com").is_empty());
}

#[test]
fn lookup_by_id_is_zero_or_one() {
    let mut store = IdentityStore::new();
    store.insert_user(user(1, "A", "x@example.com", "h1"));
    let found = store.select_user(UserRecordId(1)).expect("expected a record");
    assert_eq!(found.name, "A");
    assert!(store.select_user(UserRecordId(2)).is_none());
}
