use azure_identity_helpers::cache::{CacheAction, TokenCache};
use azure_identity_helpers::token::Token;

fn key(scopes: &[&str]) -> Vec<String> {
    scopes.iter().map(|s| s.to_string()).collect()
}

fn served(a: &CacheAction) -> Option<(String, i64)> {
    match a {
        CacheAction::Serve(t) => Some((t.secret.clone(), t.expires_on)),
        _ => None,
    }
}

#[test]
fn single_flight_one_fetch_many_waiters() {
    let mut c = TokenCache::new();
    let k = key(&["https://example/.default"]);
    let mut fetches = 0;
    let mut waits = 0;
    for _ in 0..10 {
        match c.begin(&k, 100) {
            CacheAction::Fetch => fetches += 1,
            CacheAction::Wait => waits += 1,
            CacheAction::Serve(_) => panic!("nothing cached yet"),
        }
    }
    assert_eq!(fetches, 1);
    assert_eq!(waits, 9);
    c.store(&k, Token::new("tok".to_string(), 200));
    for _ in 0..10 {
        assert_eq!(served(&c.begin(&k, 150)), Some(("tok".to_string(), 200)));
    }
}

#[test]
fn failed_fetch_lets_next_caller_retry() {
    let mut c = TokenCache::new();
    let k = key(&["a"]);
    assert!(matches!(c.begin(&k, 0), CacheAction::Fetch));
    assert!(matches!(c.begin(&k, 0), CacheAction::Wait));
    c.abandon(&k);
    assert!(matches!(c.begin(&k, 0), CacheAction::Fetch));
}

#[test]
fn expiry_boundary() {
    let mut c = TokenCache::new();
    let k = key(&["a"]);
    assert!(matches!(c.begin(&k, 0), CacheAction::Fetch));
    c.store(&k, Token::new("t0".to_string(), 1000));
    assert_eq!(served(&c.begin(&k, 999)), Some(("t0".to_string(), 1000)));
    assert!(matches!(c.begin(&k, 1000), CacheAction::Fetch));
}

#[test]
fn skew_shortens_validity() {
    let mut c = TokenCache::with_skew(60);
    assert_eq!(c.skew(), 60);
    let k = key(&["a"]);
    assert!(matches!(c.begin(&k, 0), CacheAction::Fetch));
    c.store(&k, Token::new("t".to_string(), 1000));
    assert!(served(&c.begin(&k, 939)).is_some());
    assert!(matches!(c.begin(&k, 940), CacheAction::Fetch));
}

#[test]
fn clear_forces_fresh_fetch() {
    let mut c = TokenCache::new();
    let k = key(&["a"]);
    assert!(matches!(c.begin(&k, 0), CacheAction::Fetch));
    c.store(&k, Token::new("t".to_string(), 1000));
    assert!(served(&c.begin(&k, 1)).is_some());
    c.clear();
    assert!(matches!(c.begin(&k, 1), CacheAction::Fetch));
}

#[test]
fn keys_are_structural_and_distinct() {
    let mut c = TokenCache::new();
    let empty = key(&[]);
    let ab = key(&["a", "b"]);
    let ba = key(&["b", "a"]);
    assert!(matches!(c.begin(&empty, 0), CacheAction::Fetch));
    assert!(matches!(c.begin(&ab, 0), CacheAction::Fetch));
    assert!(matches!(c.begin(&ba, 0), CacheAction::Fetch));
    c.store(&ab, Token::new("ab".to_string(), 10));
    assert_eq!(served(&c.begin(&key(&["a", "b"]), 5)), Some(("ab".to_string(), 10)));
    assert!(matches!(c.begin(&empty, 5), CacheAction::Wait));
    assert!(matches!(c.begin(&ba, 5), CacheAction::Wait));
}

#[test]
fn token_expiry_rule() {
    let t = Token::new("s".to_string(), 50);
    assert!(!t.is_expired(49));
    assert!(t.is_expired(50));
    assert!(t.is_usable_at(49, 0));
    assert!(!t.is_usable_at(45, 5));
    let d = t.duplicate();
    assert_eq!(d.secret, "s");
    assert_eq!(d.expires_on, 50);
}
