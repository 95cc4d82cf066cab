use aliyundrive_webdav::token::{Credential, RefreshError, TokenAction, TokenManager};

fn cred(token: &str, expires_at: u64) -> Credential {
    Credential { access_token: token.to_string(), expires_at }
}

#[test]
fn concurrent_callers_share_one_refresh() {
    let mut m = TokenManager::new("rt1".to_string(), 60);
    // the first caller starts the one exchange
    assert!(matches!(m.get_valid_credential(0), TokenAction::BeginRefresh));
    // callers arriving while it is in flight start no second one
    assert!(matches!(m.get_valid_credential(1), TokenAction::AwaitRefresh));
    assert!(matches!(m.get_valid_credential(2), TokenAction::AwaitRefresh));
    assert!(matches!(m.force_refresh(), TokenAction::AwaitRefresh));
    // the one outcome arrives; every caller then observes the same credential
    m.complete_refresh(Ok((cred("acc1", 1000), "rt2".to_string())));
    match m.get_valid_credential(10) {
        TokenAction::Use(c) => {
            assert_eq!(c.access_token, "acc1");
            assert_eq!(c.expires_at, 1000);
        },
        _ => panic!("expected the refreshed credential"),
    }
    match m.get_valid_credential(11) {
        TokenAction::Use(c) => assert_eq!(c.access_token, "acc1"),
        _ => panic!("expected the same credential for the second caller"),
    }
    assert_eq!(m.refresh_token(), "rt2");
    match m.last_refresh_outcome() {
        Some(Ok(c)) => assert_eq!(c.access_token, "acc1"),
        _ => panic!("expected the recorded success"),
    }
}

#[test]
fn safety_margin_triggers_early_refresh() {
    let mut m = TokenManager::new("rt".to_string(), 60);
    assert!(matches!(m.get_valid_credential(0), TokenAction::BeginRefresh));
    m.complete_refresh(Ok((cred("acc", 100), "rt".to_string())));
    // 100 - 39 = 61 s remain: still more than the margin
    assert!(matches!(m.get_valid_credential(39), TokenAction::Use(_)));
    // 100 - 40 = 60 s remain: not more than the margin, refresh first
    assert!(matches!(m.get_valid_credential(40), TokenAction::BeginRefresh));
}

#[test]
fn failed_refresh_is_surfaced_not_retried() {
    let mut m = TokenManager::new("rt".to_string(), 60);
    assert!(matches!(m.get_valid_credential(0), TokenAction::BeginRefresh));
    m.complete_refresh(Err(RefreshError::Network));
    assert!(matches!(m.last_refresh_outcome(), Some(Err(RefreshError::Network))));
    // the old (absent) credential is not served; the next caller may start anew
    assert!(matches!(m.get_valid_credential(1), TokenAction::BeginRefresh));
}

#[test]
fn force_refresh_starts_exchange_when_idle() {
    let mut m = TokenManager::new("rt".to_string(), 60);
    assert!(matches!(m.force_refresh(), TokenAction::BeginRefresh));
    m.complete_refresh(Ok((cred("acc", u64::MAX), "rt".to_string())));
    // a valid credential does not stop a forced exchange
    assert!(matches!(m.force_refresh(), TokenAction::BeginRefresh));
}
