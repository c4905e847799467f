use lockserver::{LockError, LockManager};

#[test]
fn test_acquire_and_release() {
    let mut manager = LockManager::new();
    assert!(manager.acquire("res1", "owner1", None).is_ok());
    assert!(manager.is_locked("res1"));
    assert!(manager.release("res1", "owner1").is_ok());
    assert!(!manager.is_locked("res1"));
}

#[test]
fn test_acquire_twice() {
    let mut manager = LockManager::new();
    assert!(manager.acquire("res1", "owner1", None).is_ok());
    assert!(manager.acquire("res1", "owner2", None).is_err());
}

#[test]
fn test_release_wrong_owner() {
    let mut manager = LockManager::new();
    assert!(manager.acquire("res1", "owner1", None).is_ok());
    assert!(manager.release("res1", "owner2").is_err());
    assert!(manager.is_locked("res1"));
}

#[test]
fn release_then_reacquire_by_another_owner() {
    let mut manager = LockManager::new();
    assert!(manager.acquire("r", "a", None).is_ok());
    assert!(manager.release("r", "a").is_ok());
    assert!(manager.acquire("r", "b", None).is_ok());
    assert!(manager.is_locked("r"));
}

#[test]
fn double_acquire_is_already_locked() {
    let mut manager = LockManager::new();
    assert!(manager.acquire("r", "a", None).is_ok());
    assert!(matches!(manager.acquire("r", "b", None), Err(LockError::AlreadyLocked)));
    assert!(matches!(manager.acquire("r", "a", None), Err(LockError::AlreadyLocked)));
}

#[test]
fn release_of_unheld_is_not_found() {
    let mut manager = LockManager::new();
    assert!(matches!(manager.release("r", "a"), Err(LockError::NotFound)));
    assert!(!manager.is_locked("r"));
}

#[test]
fn release_by_other_owner_is_already_locked() {
    let mut manager = LockManager::new();
    assert!(manager.acquire("r", "owner1", Some(60)).is_ok());
    assert!(matches!(manager.release("r", "owner2"), Err(LockError::AlreadyLocked)));
    assert!(manager.is_locked("r"));
    assert!(manager.release("r", "owner1").is_ok());
    assert!(!manager.is_locked("r"));
}

#[test]
fn expired_lock_is_swept() {
    let mut manager = LockManager::new();
    assert!(manager.acquire_at("res_exp", "owner_exp", Some(2), 1000).is_ok());
    assert!(manager.is_locked("res_exp"));
    manager.sweep(1001);
    assert!(manager.is_locked("res_exp"));
    manager.sweep(1003);
    assert!(!manager.is_locked("res_exp"));
}

#[test]
fn sweep_takes_only_due_locks() {
    let mut manager = LockManager::new();
    assert!(manager.acquire_at("a", "o", Some(5), 100).is_ok());
    assert!(manager.acquire_at("b", "o", Some(5), 100).is_ok());
    assert!(manager.acquire_at("c", "o", Some(10), 100).is_ok());
    assert!(manager.acquire_at("d", "o", None, 100).is_ok());
    manager.sweep(105);
    assert!(!manager.is_locked("a"));
    assert!(!manager.is_locked("b"));
    assert!(manager.is_locked("c"));
    assert!(manager.is_locked("d"));
    manager.sweep(u64::MAX);
    assert!(!manager.is_locked("c"));
    assert!(manager.is_locked("d"));
}

#[test]
fn released_lock_leaves_its_expiry_slot() {
    let mut manager = LockManager::new();
    assert!(manager.acquire_at("a", "o", Some(5), 100).is_ok());
    assert!(manager.release("a", "o").is_ok());
    assert!(manager.acquire_at("a", "p", Some(50), 100).is_ok());
    manager.sweep(105);
    assert!(manager.is_locked("a"));
    assert!(matches!(manager.release("a", "o"), Err(LockError::AlreadyLocked)));
    assert!(manager.release("a", "p").is_ok());
}

#[test]
fn huge_ttl_saturates() {
    let mut manager = LockManager::new();
    assert!(manager.acquire_at("r", "o", Some(u64::MAX), 10).is_ok());
    manager.sweep(u64::MAX - 1);
    assert!(manager.is_locked("r"));
    manager.sweep(u64::MAX);
    assert!(!manager.is_locked("r"));
}

#[test]
fn zero_ttl_expires_at_next_sweep_by_the_clock() {
    let mut manager = LockManager::new();
    assert!(manager.acquire("r", "o", Some(0)).is_ok());
    assert!(manager.acquire("s", "o", None).is_ok());
    manager.sweep_expired();
    assert!(!manager.is_locked("r"));
    assert!(manager.is_locked("s"));
}

#[test]
fn contenders_have_one_winner() {
    let mut manager = LockManager::new();
    let mut wins = 0;
    let mut busy = 0;
    for i in 0..16 {
        let owner = format!("owner{}", i);
        match manager.acquire("r", &owner, None) {
            Ok(()) => wins += 1,
            Err(LockError::AlreadyLocked) => busy += 1,
            Err(_) => panic!("unexpected error"),
        }
    }
    assert_eq!(wins, 1);
    assert_eq!(busy, 15);
}

#[test]
fn error_messages() {
    assert_eq!(LockError::AlreadyLocked.message(), "Resource is already locked");
    assert_eq!(LockError::NotFound.message(), "Resource not found");
    assert_eq!(LockError::Internal("poisoned".to_string()).message(), "Internal error: poisoned");
}
