use lockserver::client::{RETRY_INTERVAL_MS, STATUS_CONFLICT, STATUS_OK};
use lockserver::{AcquireStep, LockGuard, LockMode, LockserverClient};

#[test]
fn client_keeps_address_and_owner() {
    let client = LockserverClient::new("127.0.0.1:8080", "worker1");
    assert_eq!(client.addr(), "127.0.0.1:8080");
    assert_eq!(client.owner(), "worker1");
}

#[test]
fn client_urls() {
    let client = LockserverClient::new("127.0.0.1:8080", "worker1");
    assert_eq!(client.acquire_url(), "http://127.0.0.1:8080/acquire");
    assert_eq!(client.release_url(), "http://127.0.0.1:8080/release");
}

#[test]
fn acquire_steps() {
    assert_eq!(LockserverClient::acquire_step(LockMode::Blocking, Some(STATUS_OK)), AcquireStep::Acquired);
    assert_eq!(LockserverClient::acquire_step(LockMode::NonBlocking, Some(200)), AcquireStep::Acquired);
    assert_eq!(LockserverClient::acquire_step(LockMode::Blocking, Some(STATUS_CONFLICT)), AcquireStep::Retry);
    assert_eq!(LockserverClient::acquire_step(LockMode::NonBlocking, Some(409)), AcquireStep::WouldBlock);
    assert_eq!(LockserverClient::acquire_step(LockMode::Blocking, Some(401)), AcquireStep::Failed(401));
    assert_eq!(LockserverClient::acquire_step(LockMode::NonBlocking, None), AcquireStep::Unreachable);
    assert_eq!(RETRY_INTERVAL_MS, 200);
}

#[test]
fn release_replies() {
    assert!(LockserverClient::release_granted(200));
    assert!(!LockserverClient::release_granted(409));
}

#[test]
fn guard_holds_client_and_resource() {
    let client = LockserverClient::new("127.0.0.1:8080", "worker1");
    let guard = LockGuard::new(&client, "resource");
    assert_eq!(guard.resource(), "resource");
    assert_eq!(guard.client().owner(), "worker1");
}
