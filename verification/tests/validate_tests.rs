use omthub::validate::{validate_email, validate_name, validate_password, EmailError, NameError,
    PasswordError};

#[test]
fn name_of_three_characters_passes() {
    assert_eq!(validate_name("Bob"), None);
    assert_eq!(validate_name("Al"), Some(NameError::TooShort));
    assert_eq!(validate_name(""), Some(NameError::TooShort));
}

#[test]
fn password_rules_in_order() {
    assert_eq!(validate_password("aB1!"), Some(PasswordError::TooShort));
    assert_eq!(validate_password("lowercase1!"), Some(PasswordError::NoUppercase));
    assert_eq!(validate_password("UPPERCASE1!"), Some(PasswordError::NoLowercase));
    assert_eq!(validate_password("Uppercase!"), Some(PasswordError::NoDigit));
    assert_eq!(validate_password("Uppercase1"), Some(PasswordError::NoSpecial));
    assert_eq!(validate_password("Uppercase1!"), None);
}

#[test]
fn password_special_may_be_space_or_symbol() {
    assert_eq!(validate_password("Pass word 1"), None);
    assert_eq!(validate_password("Pass-word-1"), None);
}

#[test]
fn well_formed_emails_pass() {
    assert_eq!(validate_email("alice@example.com"), None);
    assert_eq!(validate_email("first.last+tag@sub.domain-name.org"), None);
    assert_eq!(validate_email("a@b.co"), None);
}

#[test]
fn empty_and_at_sign_shape() {
    assert_eq!(validate_email(""), Some(EmailError::Empty));
    assert_eq!(validate_email("no-at-sign.example.com"), Some(EmailError::NotOneAt));
    assert_eq!(validate_email("two@@example.com"), Some(EmailError::NotOneAt));
    assert_eq!(validate_email("a@b@c.com"), Some(EmailError::NotOneAt));
}

#[test]
fn local_part_rules() {
    assert_eq!(validate_email("@example.com"), Some(EmailError::LocalEmpty));
    let long_local = format!("{}@example.com", "x".repeat(65));
    assert_eq!(validate_email(&long_local), Some(EmailError::LocalTooLong));
    assert_eq!(validate_email("bad name@example.com"), Some(EmailError::LocalBadChar(' ')));
}

#[test]
fn domain_part_rules() {
    assert_eq!(validate_email("user@"), Some(EmailError::DomainEmpty));
    let long_domain = format!("user@{}.com", "d".repeat(256));
    assert_eq!(validate_email(&long_domain), Some(EmailError::DomainTooLong));
    assert_eq!(validate_email("user@localhost"), Some(EmailError::DomainNoDot));
}

#[test]
fn domain_label_rules() {
    assert_eq!(validate_email("user@.example.com"), Some(EmailError::LabelEmpty));
    assert_eq!(validate_email("user@example..com"), Some(EmailError::LabelEmpty));
    assert_eq!(validate_email("user@example.com."), Some(EmailError::LabelEmpty));
    let long_label = format!("user@{}.com", "l".repeat(64));
    assert_eq!(validate_email(&long_label), Some(EmailError::LabelTooLong));
    assert_eq!(validate_email("user@exa_mple.com"), Some(EmailError::LabelBadChar('_')));
    assert_eq!(validate_email("user@-example.com"), Some(EmailError::LabelStartsHyphen));
    assert_eq!(validate_email("user@example.-com"), Some(EmailError::LabelStartsHyphen));
    assert_eq!(validate_email("user@example-.com"), Some(EmailError::LabelEndsHyphen));
    assert_eq!(validate_email("user@example.com-"), Some(EmailError::LabelEndsHyphen));
}

#[test]
fn first_failed_rule_wins_on_several_faults() {
    // local emptiness is checked before the empty domain
    assert_eq!(validate_email("@"), Some(EmailError::LocalEmpty));
    // a bad local character is reported before the empty domain
    assert_eq!(validate_email("bad name@"), Some(EmailError::LocalBadChar(' ')));
    // the earlier position wins inside the domain
    assert_eq!(validate_email("user@example..com-"), Some(EmailError::LabelEmpty));
    assert_eq!(validate_email("user@-exa_mple.com"), Some(EmailError::LabelStartsHyphen));
}

#[test]
fn sixty_three_character_label_passes() {
    let edge = format!("user@{}.com", "l".repeat(63));
    assert_eq!(validate_email(&edge), None);
    let edge_local = format!("{}@example.com", "x".repeat(64));
    assert_eq!(validate_email(&edge_local), None);
}
