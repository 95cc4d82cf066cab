use aliyundrive_webdav::retry::{
    decide, initial_state, run_call, select_delete_mode, AttemptOutcome, DeleteMode, DriveError,
    RetryDecision, RetryPolicy,
};

fn policy() -> RetryPolicy {
    RetryPolicy { max_attempts: 3, initial_backoff_ms: 100, max_backoff_ms: 1000 }
}

#[test]
fn unauthorized_earns_one_refresh_and_one_retry() {
    // first list call is rejected, the refresh succeeds, the retried call
    // succeeds: one refresh, two attempts, no loop
    let outcomes = vec![
        AttemptOutcome::Failure(DriveError::Unauthorized),
        AttemptOutcome::Success,
    ];
    let report = run_call(&policy(), &outcomes);
    assert!(report.result.is_ok());
    assert_eq!(report.refreshes, 1);
    assert_eq!(report.attempts, 2);
}

#[test]
fn second_unauthorized_is_fatal() {
    let outcomes = vec![
        AttemptOutcome::Failure(DriveError::Unauthorized),
        AttemptOutcome::Failure(DriveError::Unauthorized),
        AttemptOutcome::Success,
    ];
    let report = run_call(&policy(), &outcomes);
    assert_eq!(report.result, Err(DriveError::Unauthorized));
    assert_eq!(report.refreshes, 1);
    assert_eq!(report.attempts, 2);
}

#[test]
fn transient_failures_back_off_exponentially() {
    let p = policy();
    let mut s = initial_state(&p);
    assert_eq!(
        decide(&p, &mut s, DriveError::Transient),
        RetryDecision::RetryAfterBackoff(100)
    );
    assert_eq!(
        decide(&p, &mut s, DriveError::RateLimited),
        RetryDecision::RetryAfterBackoff(200)
    );
    assert_eq!(
        decide(&p, &mut s, DriveError::Transient),
        RetryDecision::RetryAfterBackoff(400)
    );
    // the attempt bound is spent
    assert_eq!(decide(&p, &mut s, DriveError::Transient), RetryDecision::GiveUp);
}

#[test]
fn backoff_saturates_at_the_cap() {
    let p = RetryPolicy { max_attempts: 10, initial_backoff_ms: 400, max_backoff_ms: 1000 };
    let mut s = initial_state(&p);
    assert_eq!(
        decide(&p, &mut s, DriveError::Transient),
        RetryDecision::RetryAfterBackoff(400)
    );
    assert_eq!(
        decide(&p, &mut s, DriveError::Transient),
        RetryDecision::RetryAfterBackoff(800)
    );
    assert_eq!(
        decide(&p, &mut s, DriveError::Transient),
        RetryDecision::RetryAfterBackoff(1000)
    );
    assert_eq!(
        decide(&p, &mut s, DriveError::Transient),
        RetryDecision::RetryAfterBackoff(1000)
    );
}

#[test]
fn permanent_failures_never_retry() {
    let p = policy();
    for err in [DriveError::NotFound, DriveError::Conflict, DriveError::Fatal] {
        let mut s = initial_state(&p);
        assert_eq!(decide(&p, &mut s, err), RetryDecision::GiveUp);
        let report = run_call(&p, &vec![AttemptOutcome::Failure(err), AttemptOutcome::Success]);
        assert_eq!(report.result, Err(err));
        assert_eq!(report.attempts, 1);
        assert_eq!(report.refreshes, 0);
    }
}

#[test]
fn rate_limited_call_eventually_succeeds() {
    let outcomes = vec![
        AttemptOutcome::Failure(DriveError::RateLimited),
        AttemptOutcome::Failure(DriveError::Transient),
        AttemptOutcome::Success,
    ];
    let report = run_call(&policy(), &outcomes);
    assert!(report.result.is_ok());
    assert_eq!(report.refreshes, 0);
    assert_eq!(report.attempts, 3);
}

#[test]
fn delete_mode_respects_capability() {
    // no trash support is a hard constraint, not a preference
    assert_eq!(select_delete_mode(false, false), DeleteMode::Permanent);
    assert_eq!(select_delete_mode(false, true), DeleteMode::Permanent);
    assert_eq!(select_delete_mode(true, true), DeleteMode::Permanent);
    assert_eq!(select_delete_mode(true, false), DeleteMode::Trash);
}
