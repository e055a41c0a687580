use coyote::nonce::{NonceError, NonceStore};

#[test]
fn nonce_consumed_once() {
    let mut store = NonceStore::new(60);
    assert!(store.issue("abc".to_string(), 100));
    assert_eq!(store.validate_and_consume(&"abc".to_string(), 101), Ok(()));
    assert_eq!(
        store.validate_and_consume(&"abc".to_string(), 102),
        Err(NonceError::AlreadyConsumed)
    );
    assert_eq!(
        store.validate_and_consume(&"abc".to_string(), 103),
        Err(NonceError::AlreadyConsumed)
    );
}

#[test]
fn nonce_expires_after_ttl() {
    let mut store = NonceStore::new(60);
    assert!(store.issue("abc".to_string(), 1000));
    assert_eq!(
        store.validate_and_consume(&"abc".to_string(), 1061),
        Err(NonceError::Expired)
    );
}

#[test]
fn nonce_valid_at_last_second_of_ttl() {
    let mut store = NonceStore::new(60);
    assert!(store.issue("abc".to_string(), 1000));
    assert_eq!(store.validate_and_consume(&"abc".to_string(), 1060), Ok(()));
}

#[test]
fn consumed_nonce_reports_consumed_after_expiry() {
    let mut store = NonceStore::new(60);
    assert!(store.issue("abc".to_string(), 1000));
    assert_eq!(store.validate_and_consume(&"abc".to_string(), 1001), Ok(()));
    assert_eq!(
        store.validate_and_consume(&"abc".to_string(), 5000),
        Err(NonceError::AlreadyConsumed)
    );
}

#[test]
fn unknown_nonce_not_found() {
    let mut store = NonceStore::new(60);
    assert!(store.issue("abc".to_string(), 0));
    assert_eq!(
        store.validate_and_consume(&"abd".to_string(), 0),
        Err(NonceError::NotFound)
    );
    assert_eq!(
        store.validate_and_consume(&"".to_string(), 0),
        Err(NonceError::NotFound)
    );
}

#[test]
fn duplicate_issue_refused() {
    let mut store = NonceStore::new(60);
    assert!(store.issue("abc".to_string(), 0));
    assert!(!store.issue("abc".to_string(), 500));
    assert_eq!(store.len(), 1);
    // the first issuance's expiry still governs
    assert_eq!(
        store.validate_and_consume(&"abc".to_string(), 100),
        Err(NonceError::Expired)
    );
}

#[test]
fn expiry_saturates_at_largest_time() {
    let mut store = NonceStore::new(u64::MAX);
    assert!(store.issue("abc".to_string(), 10));
    assert_eq!(store.validate_and_consume(&"abc".to_string(), u64::MAX), Ok(()));
}

#[test]
fn cleanup_drops_consumed_and_expired() {
    let mut store = NonceStore::new(10);
    assert!(store.issue("a".to_string(), 0));
    assert!(store.issue("b".to_string(), 0));
    assert!(store.issue("c".to_string(), 20));
    assert_eq!(store.validate_and_consume(&"a".to_string(), 1), Ok(()));
    store.cleanup(15);
    assert_eq!(store.len(), 1);
    assert_eq!(
        store.validate_and_consume(&"a".to_string(), 16),
        Err(NonceError::NotFound)
    );
    assert_eq!(
        store.validate_and_consume(&"b".to_string(), 16),
        Err(NonceError::NotFound)
    );
    assert_eq!(store.validate_and_consume(&"c".to_string(), 16), Ok(()));
    assert_eq!(store.ttl(), 10);
}

#[test]
fn empty_store_has_nothing() {
    let mut store = NonceStore::new(5);
    assert_eq!(store.len(), 0);
    store.cleanup(0);
    assert_eq!(store.len(), 0);
    assert_eq!(
        store.validate_and_consume(&"x".to_string(), 0),
        Err(NonceError::NotFound)
    );
}
