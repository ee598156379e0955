use omthub::hasher::{hash_password, verify_password};

#[test]
fn hash_verifies_same_password() {
    let h = hash_password("correct horse battery staple").expect("hashing failed");
    assert!(verify_password(&h, "correct horse battery staple"));
}

#[test]
fn hash_rejects_other_password() {
    let h = hash_password("first password 1!A").expect("hashing failed");
    assert!(!verify_password(&h, "second password 2!B"));
}

#[test]
fn two_hashes_differ_yet_both_verify() {
    let h1 = hash_password("same password").expect("hashing failed");
    let h2 = hash_password("same password").expect("hashing failed");
    assert_ne!(h1, h2);
    assert!(verify_password(&h1, "same password"));
    assert!(verify_password(&h2, "same password"));
}

#[test]
fn malformed_hash_verifies_false_not_fatal() {
    assert!(!verify_password("not a phc string", "anything"));
    assert!(!verify_password("", "anything"));
}

#[test]
fn hash_is_phc_self_describing() {
    let h = hash_password("pw").expect("hashing failed");
    assert!(h.starts_with("$argon2"));
}
