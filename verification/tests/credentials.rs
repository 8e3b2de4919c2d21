use gateway::credentials::{CredentialManager, Decision, RefreshFailed, State, Token};

fn token(value: &str, expires_at: u64) -> Token {
    Token::new(value, expires_at).unwrap()
}

fn ready(value: &str, expires_at: u64) -> Decision {
    Decision::Ready(token(value, expires_at))
}

#[test]
fn token_value_must_be_sendable() {
    let held = Token::new("abc.def-123", 1000).unwrap();
    assert_eq!(held.value(), "abc.def-123");
    assert_eq!(held.expires_at(), 1000);
    assert_eq!(held.clone(), held);
    assert!(Token::new("line\nbreak", 1000).is_none());
    assert!(Token::new("", 0).is_some());
}

#[test]
fn empty_manager_asks_for_a_refresh() {
    let mut manager = CredentialManager::new(60);
    assert_eq!(manager.state(), State::Empty);
    assert_eq!(manager.get_token(0), Decision::Refresh);
    assert_eq!(manager.state(), State::Refreshing);
}

#[test]
fn expired_token_single_flight() {
    let mut manager = CredentialManager::new(60);
    assert_eq!(manager.get_token(0), Decision::Refresh);
    assert_eq!(manager.complete_refresh(Token::new("old", 100)), Ok(token("old", 100)));
    assert_eq!(manager.state(), State::Valid);
    let callers = 25;
    let mut refreshes = 0;
    let mut waits = 0;
    for i in 0..callers {
        match manager.get_token(100 + i) {
            Decision::Refresh => refreshes += 1,
            Decision::Wait => waits += 1,
            Decision::Ready(held) => panic!("an expired token was handed out: {held:?}"),
        }
    }
    assert_eq!(refreshes, 1);
    assert_eq!(waits, callers - 1);
    assert_eq!(manager.state(), State::Refreshing);
    let delivered = manager.complete_refresh(Token::new("new", 10_000));
    assert_eq!(delivered, Ok(token("new", 10_000)));
    assert_eq!(manager.get_token(200), ready("new", 10_000));
}

#[test]
fn failed_refresh_reaches_every_caller_and_is_retried() {
    let mut manager = CredentialManager::new(0);
    assert_eq!(manager.get_token(5), Decision::Refresh);
    assert_eq!(manager.get_token(5), Decision::Wait);
    assert_eq!(manager.get_token(6), Decision::Wait);
    assert_eq!(manager.complete_refresh(None), Err(RefreshFailed));
    assert_eq!(manager.state(), State::Empty);
    assert_eq!(manager.get_token(7), Decision::Refresh);
    assert_eq!(manager.get_token(7), Decision::Wait);
    assert_eq!(manager.complete_refresh(Token::new("t", 100)), Ok(token("t", 100)));
    assert_eq!(manager.get_token(8), ready("t", 100));
}

#[test]
fn token_is_refreshed_within_the_margin() {
    let mut manager = CredentialManager::new(60);
    manager.get_token(0);
    manager.complete_refresh(Token::new("t", 1000));
    assert_eq!(manager.get_token(0), ready("t", 1000));
    assert_eq!(manager.get_token(939), ready("t", 1000));
    assert_eq!(manager.state(), State::Valid);
    assert_eq!(manager.get_token(940), Decision::Refresh);
    assert_eq!(manager.get_token(0), Decision::Wait);
}

#[test]
fn token_at_and_after_expiry_is_not_handed_out() {
    for now in [1000, 1001, u64::MAX] {
        let mut manager = CredentialManager::new(0);
        manager.get_token(0);
        manager.complete_refresh(Token::new("t", 1000));
        assert_eq!(manager.get_token(999), ready("t", 1000));
        assert_eq!(manager.get_token(now), Decision::Refresh);
    }
}

#[test]
fn margin_beyond_the_clock_does_not_overflow() {
    let mut manager = CredentialManager::new(u64::MAX);
    manager.get_token(0);
    manager.complete_refresh(Token::new("t", u64::MAX));
    assert_eq!(manager.get_token(0), Decision::Refresh);
    let mut manager = CredentialManager::new(10);
    manager.get_token(0);
    manager.complete_refresh(Token::new("t", u64::MAX));
    assert_eq!(manager.get_token(u64::MAX - 11), ready("t", u64::MAX));
    assert_eq!(manager.get_token(u64::MAX - 10), Decision::Refresh);
}

#[test]
fn completed_refresh_replaces_the_token() {
    let mut manager = CredentialManager::new(0);
    manager.get_token(0);
    manager.complete_refresh(Token::new("first", 10));
    assert_eq!(manager.get_token(10), Decision::Refresh);
    manager.complete_refresh(Token::new("second", 20));
    assert_eq!(manager.get_token(10), ready("second", 20));
    assert_eq!(manager.get_token(20), Decision::Refresh);
    manager.complete_refresh(Token::new("stale", 5));
    assert_eq!(manager.state(), State::Valid);
    assert_eq!(manager.get_token(20), Decision::Refresh);
}
