use contribcard::api::quota_nearly_spent;
use contribcard::error::{ApiError, ConfigError};
use contribcard::pool::TokenPool;

#[test]
fn pool_needs_a_credential() {
    assert!(matches!(TokenPool::new(0), Err(ConfigError::NoCredentials)));
}

#[test]
fn pool_shrinks_when_quota_runs_low() {
    let mut pool = TokenPool::new(2).unwrap();
    assert_eq!(pool.size(), 2);
    let a = pool.acquire().unwrap().unwrap();
    let spent = quota_nearly_spent(Some("100050")).unwrap();
    assert!(pool.finish(a, spent));
    assert_eq!(pool.size(), 2);

    let b = pool.acquire().unwrap().unwrap();
    let spent = quota_nearly_spent(Some("99")).unwrap();
    assert!(pool.finish(b, spent));
    assert_eq!(pool.size(), 1);

    let c = pool.acquire().unwrap().unwrap();
    assert_eq!(pool.acquire(), Ok(None));
    assert!(pool.release(c));
    assert!(pool.acquire().unwrap().is_some());
}

#[test]
fn pool_leases_each_credential_once() {
    let mut pool = TokenPool::new(2).unwrap();
    let a = pool.acquire().unwrap().unwrap();
    let b = pool.acquire().unwrap().unwrap();
    assert_ne!(a, b);
    assert_eq!(pool.acquire(), Ok(None));
    assert!(!pool.release(7));
    assert!(pool.release(a));
    assert!(!pool.release(a));
}

#[test]
fn emptied_pool_is_quota_exhaustion() {
    let mut pool = TokenPool::new(1).unwrap();
    let a = pool.acquire().unwrap().unwrap();
    assert!(pool.evict(a));
    assert_eq!(pool.size(), 0);
    assert_eq!(pool.acquire(), Err(ApiError::QuotaExhausted));
}
