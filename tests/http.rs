use lockserver::http::{reply_for, secret_matches, unauthorized_reply, SECRET_HEADER};
use lockserver::LockError;

#[test]
fn secret_check() {
    assert!(secret_matches(Some("changeme"), "changeme"));
    assert!(!secret_matches(Some("other"), "changeme"));
    assert!(!secret_matches(None, "changeme"));
    assert_eq!(SECRET_HEADER, "X-LOCKSERVER-SECRET");
}

#[test]
fn replies() {
    let ok = reply_for(&Ok(()));
    assert_eq!(ok.status, 200);
    assert_eq!(ok.body, "OK");
    let busy = reply_for(&Err(LockError::AlreadyLocked));
    assert_eq!(busy.status, 409);
    assert_eq!(busy.body, "ERR Resource is already locked");
    let missing = reply_for(&Err(LockError::NotFound));
    assert_eq!(missing.status, 409);
    assert_eq!(missing.body, "ERR Resource not found");
    let denied = unauthorized_reply();
    assert_eq!(denied.status, 401);
    assert_eq!(denied.body, "Missing or invalid secret");
}
