use polyjuice::session::{BootstrapStep, SessionBootstrap, SessionError};
use polyjuice::UserIdentity;

fn alice() -> UserIdentity {
    UserIdentity {
        username: "alice".to_string(),
        uid: 1000,
        gid: 1000,
        home: "/home/alice".to_string(),
    }
}

#[test]
fn bootstrap_refuses_unprivileged_caller() {
    let r = SessionBootstrap::begin(&alice(), 1000);
    assert!(matches!(r, Err(SessionError::InsufficientPrivilege)));
}

#[test]
fn bootstrap_orders_its_three_steps() {
    let mut b = SessionBootstrap::begin(&alice(), 0).unwrap();
    assert!(matches!(b.next_step(), Some(BootstrapStep::InitContext)));
    b.advance(Ok(()));
    assert!(matches!(b.next_step(), Some(BootstrapStep::CheckAccount)));
    b.advance(Ok(()));
    assert!(matches!(b.next_step(), Some(BootstrapStep::OpenSession)));
    b.advance(Ok(()));
    assert!(b.next_step().is_none());
    let handle = b.finish().unwrap();
    assert_eq!(handle.username, "alice");
}

#[test]
fn bootstrap_locked_account_fails_with_account_invalid() {
    let mut b = SessionBootstrap::begin(&alice(), 0).unwrap();
    b.advance(Ok(()));
    b.advance(Err("account locked".to_string()));
    assert!(b.next_step().is_none());
    match b.finish() {
        Err(SessionError::AccountInvalid(text)) => assert_eq!(text, "account locked"),
        other => panic!("expected AccountInvalid, got {:?}", other.map(|h| h.username)),
    }
}

#[test]
fn bootstrap_context_failure_aborts_first_step() {
    let mut b = SessionBootstrap::begin(&alice(), 0).unwrap();
    b.advance(Err("unknown service".to_string()));
    match b.finish() {
        Err(SessionError::ContextInitFailed(text)) => assert_eq!(text, "unknown service"),
        other => panic!("expected ContextInitFailed, got {:?}", other.map(|h| h.username)),
    }
}

#[test]
fn bootstrap_session_open_failure_is_its_own_kind() {
    let mut b = SessionBootstrap::begin(&alice(), 0).unwrap();
    b.advance(Ok(()));
    b.advance(Ok(()));
    b.advance(Err("session denied".to_string()));
    match b.finish() {
        Err(SessionError::SessionOpenFailed(text)) => assert_eq!(text, "session denied"),
        other => panic!("expected SessionOpenFailed, got {:?}", other.map(|h| h.username)),
    }
}
