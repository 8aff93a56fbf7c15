use scorarium::session::{SessionStore, SESSION_LIFETIME_NANOS};

#[test]
fn created_token_validates() {
    let mut store = SessionStore::default();
    let token = store.create().unwrap();
    assert!(store.validate(&token));
    assert!(!store.validate("no-such-token"));
}

#[test]
fn tokens_are_unique() {
    let mut store = SessionStore::default();
    assert_ne!(store.create().unwrap(), store.create().unwrap());
}

#[test]
fn expired_token_rejected() {
    let mut store = SessionStore::default();
    let now = 1_000_000;
    store.create_at("t".to_string(), now);
    // The session expired 5 seconds ago
    assert!(!store.validate_at("t", now + SESSION_LIFETIME_NANOS + 5_000_000_000));
}

#[test]
fn revoke_ends_session() {
    let mut store = SessionStore::default();
    let token = store.create().unwrap();
    store.revoke(&token);
    assert!(!store.validate(&token));
}

#[test]
fn revoke_all_except_keeps_current() {
    let mut store = SessionStore::default();
    let other = store.create().unwrap();
    let current = store.create().unwrap();
    store.revoke_all_except(&current);
    assert!(store.validate(&current));
    assert!(!store.validate(&other));
}

#[test]
fn a_session_lasts_three_days() {
    let mut store = SessionStore::default();
    store.create_at("t".to_string(), 100);
    assert!(store.validate_at("t", 100 + SESSION_LIFETIME_NANOS - 1));
    assert!(!store.validate_at("t", 100 + SESSION_LIFETIME_NANOS));
    assert_eq!(SESSION_LIFETIME_NANOS, 3 * 24 * 60 * 60 * 1_000_000_000);
}

#[test]
fn an_expired_session_is_forgotten() {
    let mut store = SessionStore::default();
    store.create_at("t".to_string(), 100);
    assert!(!store.validate_at("t", 100 + SESSION_LIFETIME_NANOS + 1));
    assert!(!store.validate_at("t", 100));
}

#[test]
fn tokens_are_hex() {
    let mut store = SessionStore::default();
    let token = store.create().unwrap();
    assert_eq!(token.len(), 32);
    assert!(token.chars().all(|c| c.is_ascii_hexdigit() && !c.is_ascii_uppercase()));
    assert!(store.validate(&token));
}

#[test]
fn hex_is_two_lowercase_digits_a_byte() {
    assert_eq!(scorarium::session::hex_string(&[0x00, 0x0f, 0xa5, 0xff]), "000fa5ff");
}

#[test]
fn expiry_is_not_rounded_to_whole_seconds() {
    // A session started 0.9 s in is still live half a second before its three days are up
    let mut store = SessionStore::default();
    let start = 900_000_000;
    store.create_at("t".to_string(), start);
    assert!(store.validate_at("t", start + SESSION_LIFETIME_NANOS - 500_000_000));
    assert!(!store.validate_at("t", start + SESSION_LIFETIME_NANOS));
}
