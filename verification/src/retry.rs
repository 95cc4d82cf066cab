use vstd::prelude::*;

verus! {

/// The typed failures a remote drive call can report.
#[derive(Clone, Copy, PartialEq, Eq, Structural, Debug)]
pub enum DriveError {
    Unauthorized,
    NotFound,
    RateLimited,
    Conflict,
    Transient,
    Fatal,
}

/// Whether to move a failed object to the trash or delete it outright.
/// Permanent deletion is forced when the backing account variant has no trash
/// at all: calling its trash endpoint is guaranteed to fail.
#[derive(Clone, Copy, PartialEq, Eq, Structural, Debug)]
pub enum DeleteMode {
    Trash,
    Permanent,
}

/// The delete mode actually used, from the account's capability and the
/// operator's preference.
pub fn select_delete_mode(trash_supported: bool, no_trash: bool) -> (m: DeleteMode)
    ensures
        m == DeleteMode::Permanent <==> (no_trash || !trash_supported),
        !trash_supported ==> m == DeleteMode::Permanent,
{
    if no_trash || !trash_supported {
        DeleteMode::Permanent
    } else {
        DeleteMode::Trash
    }
}

/// Explicit bounds of the retry discipline: how many backed-off retries a
/// call may use, the first backoff, and the cap the doubling saturates at.
#[derive(Clone, Copy, PartialEq, Eq, Structural, Debug)]
pub struct RetryPolicy {
    pub max_attempts: u64,
    pub initial_backoff_ms: u64,
    pub max_backoff_ms: u64,
}

impl RetryPolicy {
    /// Sane bounds: the backoff starts within its cap and the cap can double
    /// without overflowing.
    pub open spec fn wf(&self) -> bool {
        &&& 1 <= self.initial_backoff_ms <= self.max_backoff_ms
        &&& self.max_backoff_ms <= 0x7fff_ffff_ffff_ffff
    }
}

/// What one call has consumed of its policy so far.
#[derive(Clone, Copy, PartialEq, Eq, Structural, Debug)]
pub struct RetryState {
    pub attempts_made: u64,
    pub refresh_used: bool,
    pub next_backoff_ms: u64,
}

impl RetryState {
    pub open spec fn wf(&self, policy: RetryPolicy) -> bool {
        self.next_backoff_ms <= policy.max_backoff_ms
    }
}

/// What the caller of a failed drive call must do next.
#[derive(Clone, Copy, PartialEq, Eq, Structural, Debug)]
pub enum RetryDecision {
    RetryAfterBackoff(u64),
    RefreshAndRetry,
    GiveUp,
}

/// The fresh state of one drive call under `policy`.
pub open spec fn spec_initial_state(policy: RetryPolicy) -> RetryState {
    RetryState { attempts_made: 0, refresh_used: false, next_backoff_ms: policy.initial_backoff_ms }
}

pub fn initial_state(policy: &RetryPolicy) -> (s: RetryState)
    ensures
        s == spec_initial_state(*policy),
{
    RetryState {
        attempts_made: 0,
        refresh_used: false,
        next_backoff_ms: policy.initial_backoff_ms,
    }
}

/// The next backoff: doubled, saturating at the policy's cap.
pub open spec fn spec_next_backoff(cur: u64, cap: u64) -> u64 {
    if 2 * cur > cap {
        cap
    } else {
        (2 * cur) as u64
    }
}

/// What to do about `err`, and the state after deciding.
/// `NotFound`, `Conflict` and `Fatal` are never retried; `Unauthorized` earns
/// exactly one forced credential refresh per call; `Transient` and
/// `RateLimited` are retried with exponential backoff while attempts remain.
pub open spec fn spec_decide(
    policy: RetryPolicy,
    s: RetryState,
    err: DriveError,
) -> (RetryState, RetryDecision) {
    match err {
        DriveError::NotFound | DriveError::Conflict | DriveError::Fatal => (
            s,
            RetryDecision::GiveUp,
        ),
        DriveError::Unauthorized => {
            if !s.refresh_used {
                (RetryState { refresh_used: true, ..s }, RetryDecision::RefreshAndRetry)
            } else {
                (s, RetryDecision::GiveUp)
            }
        },
        DriveError::Transient | DriveError::RateLimited => {
            if s.attempts_made < policy.max_attempts {
                (
                    RetryState {
                        attempts_made: (s.attempts_made + 1) as u64,
                        next_backoff_ms: spec_next_backoff(s.next_backoff_ms, policy.max_backoff_ms),
                        ..s
                    },
                    RetryDecision::RetryAfterBackoff(s.next_backoff_ms),
                )
            } else {
                (s, RetryDecision::GiveUp)
            }
        },
    }
}

/// Decide what a failed call does next; see `spec_decide`.
pub fn decide(policy: &RetryPolicy, s: &mut RetryState, err: DriveError) -> (d: RetryDecision)
    requires
        policy.wf(),
        old(s).wf(*policy),
        old(s).attempts_made <= policy.max_attempts,
    ensures
        final(s).wf(*policy),
        final(s).attempts_made <= policy.max_attempts,
        (*final(s), d) == spec_decide(*policy, *old(s), err),
{
    match err {
        DriveError::NotFound | DriveError::Conflict | DriveError::Fatal => RetryDecision::GiveUp,
        DriveError::Unauthorized => {
            if !s.refresh_used {
                s.refresh_used = true;
                RetryDecision::RefreshAndRetry
            } else {
                RetryDecision::GiveUp
            }
        },
        DriveError::Transient | DriveError::RateLimited => {
            if s.attempts_made < policy.max_attempts {
                let waited = s.next_backoff_ms;
                s.attempts_made = s.attempts_made + 1;
                s.next_backoff_ms = if s.next_backoff_ms > policy.max_backoff_ms / 2 {
                    policy.max_backoff_ms
                } else {
                    2 * s.next_backoff_ms
                };
                RetryDecision::RetryAfterBackoff(waited)
            } else {
                RetryDecision::GiveUp
            }
        },
    }
}

/// What one attempt of a remote call came back with.
#[derive(Clone, Copy, PartialEq, Eq, Structural, Debug)]
pub enum AttemptOutcome {
    Success,
    Failure(DriveError),
}

/// How one whole drive call ended, with the count of credential refreshes it
/// forced and the attempts it consumed.
#[derive(Clone, Copy, Debug)]
pub struct CallReport {
    pub result: Result<(), DriveError>,
    pub refreshes: u64,
    pub attempts: u64,
}

/// The whole retry loop of one drive call, folded over the outcomes the
/// network would hand back attempt by attempt. Success ends the call at once;
/// a failure consults `spec_decide`; running out of prepared outcomes reports
/// the last error as `Transient`.
pub open spec fn spec_run_call(
    policy: RetryPolicy,
    s: RetryState,
    outcomes: Seq<AttemptOutcome>,
    refreshes: nat,
    attempts: nat,
) -> (Result<(), DriveError>, nat, nat)
    decreases outcomes.len(),
{
    if outcomes.len() == 0 {
        (Err(DriveError::Transient), refreshes, attempts)
    } else {
        match outcomes[0] {
            AttemptOutcome::Success => (Ok(()), refreshes, attempts + 1),
            AttemptOutcome::Failure(e) => {
                let (s2, d) = spec_decide(policy, s, e);
                match d {
                    RetryDecision::GiveUp => (Err(e), refreshes, attempts + 1),
                    RetryDecision::RefreshAndRetry => spec_run_call(
                        policy,
                        s2,
                        outcomes.drop_first(),
                        refreshes + 1,
                        attempts + 1,
                    ),
                    RetryDecision::RetryAfterBackoff(_) => spec_run_call(
                        policy,
                        s2,
                        outcomes.drop_first(),
                        refreshes,
                        attempts + 1,
                    ),
                }
            },
        }
    }
}

/// Run one drive call against the attempt outcomes in `outcomes`, applying
/// the retry discipline exactly as `spec_run_call` states it.
pub fn run_call(policy: &RetryPolicy, outcomes: &Vec<AttemptOutcome>) -> (r: CallReport)
    requires
        policy.wf(),
        outcomes@.len() + policy.max_attempts + 2 <= u64::MAX,
    ensures
        ({
            let (res, refreshes, attempts) = spec_run_call(
                *policy,
                spec_initial_state(*policy),
                outcomes@,
                0,
                0,
            );
            r.result == res && r.refreshes == refreshes && r.attempts == attempts
        }),
{
    let mut s = initial_state(policy);
    let mut refreshes: u64 = 0;
    let mut attempts: u64 = 0;
    let mut i: usize = 0;
    proof {
        assert(outcomes@.subrange(0, outcomes@.len() as int) =~= outcomes@);
    }
    loop
        invariant
            policy.wf(),
            s.wf(*policy),
            s.attempts_made <= policy.max_attempts,
            i <= outcomes@.len(),
            refreshes <= i,
            attempts <= i + policy.max_attempts,
            outcomes@.len() + policy.max_attempts + 2 <= u64::MAX,
            spec_run_call(*policy, spec_initial_state(*policy), outcomes@, 0, 0)
                == spec_run_call(
                *policy,
                s,
                outcomes@.subrange(i as int, outcomes@.len() as int),
                refreshes as nat,
                attempts as nat,
            ),
        decreases outcomes@.len() - i,
    {
        if i >= outcomes.len() {
            return CallReport { result: Err(DriveError::Transient), refreshes, attempts };
        }
        let ghost rest = outcomes@.subrange(i as int, outcomes@.len() as int);
        let ghost s_before = s;
        let ghost refr_before = refreshes;
        let ghost att_before = attempts;
        proof {
            assert(rest[0] == outcomes@[i as int]);
            assert(rest.drop_first() =~= outcomes@.subrange(i + 1, outcomes@.len() as int));
        }
        match outcomes[i] {
            AttemptOutcome::Success => {
                return CallReport { result: Ok(()), refreshes, attempts: attempts + 1 };
            },
            AttemptOutcome::Failure(e) => {
                let d = decide(policy, &mut s, e);
                match d {
                    RetryDecision::GiveUp => {
                        return CallReport { result: Err(e), refreshes, attempts: attempts + 1 };
                    },
                    RetryDecision::RefreshAndRetry => {
                        refreshes = refreshes + 1;
                        attempts = attempts + 1;
                    },
                    RetryDecision::RetryAfterBackoff(_) => {
                        attempts = attempts + 1;
                    },
                }
                proof {
                    assert(spec_run_call(
                        *policy,
                        s_before,
                        rest,
                        refr_before as nat,
                        att_before as nat,
                    ) == spec_run_call(
                        *policy,
                        s,
                        rest.drop_first(),
                        refreshes as nat,
                        attempts as nat,
                    ));
                }
            },
        }
        i = i + 1;
    }
}

/// Law: one `Unauthorized` failure earns exactly one forced refresh and one
/// retry — a call whose first attempt is rejected as unauthorized and whose
/// retry succeeds ends in success, with one refresh and two attempts, not a loop.
pub proof fn lemma_unauthorized_single_refresh(policy: RetryPolicy, rest: Seq<AttemptOutcome>)
    requires
        policy.wf(),
        rest.len() > 0,
        rest[0] == AttemptOutcome::Success,
    ensures
        ({
            let outcomes = seq![AttemptOutcome::Failure(DriveError::Unauthorized)] + rest;
            spec_run_call(policy, spec_initial_state(policy), outcomes, 0, 0) == (
                Ok::<(), DriveError>(()),
                1nat,
                2nat,
            )
        }),
{
    let outcomes = seq![AttemptOutcome::Failure(DriveError::Unauthorized)] + rest;
    let s0 = spec_initial_state(policy);
    let (s1, d) = spec_decide(policy, s0, DriveError::Unauthorized);
    assert(d == RetryDecision::RefreshAndRetry);
    assert(outcomes.len() == 1 + rest.len());
    assert(outcomes[0] == AttemptOutcome::Failure(DriveError::Unauthorized));
    assert(outcomes.drop_first() =~= rest);
    assert(spec_run_call(policy, s0, outcomes, 0, 0) == spec_run_call(policy, s1, rest, 1, 1));
    assert(rest[0] == AttemptOutcome::Success);
    assert(spec_run_call(policy, s1, rest, 1, 1) == (Ok::<(), DriveError>(()), 1nat, 2nat));
}

/// Law: a second `Unauthorized` in the same call is never retried — the
/// refresh is not repeated and the error is surfaced at once.
pub proof fn lemma_unauthorized_twice_gives_up(policy: RetryPolicy, rest: Seq<AttemptOutcome>)
    requires
        policy.wf(),
    ensures
        ({
            let outcomes = seq![
                AttemptOutcome::Failure(DriveError::Unauthorized),
                AttemptOutcome::Failure(DriveError::Unauthorized),
            ] + rest;
            spec_run_call(policy, spec_initial_state(policy), outcomes, 0, 0) == (
                Err::<(), DriveError>(DriveError::Unauthorized),
                1nat,
                2nat,
            )
        }),
{
    let outcomes = seq![
        AttemptOutcome::Failure(DriveError::Unauthorized),
        AttemptOutcome::Failure(DriveError::Unauthorized),
    ] + rest;
    let s0 = spec_initial_state(policy);
    let (s1, d) = spec_decide(policy, s0, DriveError::Unauthorized);
    assert(d == RetryDecision::RefreshAndRetry);
    let tail = outcomes.drop_first();
    assert(outcomes[0] == AttemptOutcome::Failure(DriveError::Unauthorized));
    assert(tail[0] == AttemptOutcome::Failure(DriveError::Unauthorized));
    assert(spec_run_call(policy, s0, outcomes, 0, 0) == spec_run_call(policy, s1, tail, 1, 1));
    let (s2, d2) = spec_decide(policy, s1, DriveError::Unauthorized);
    assert(d2 == RetryDecision::GiveUp);
    assert(spec_run_call(policy, s1, tail, 1, 1) == (
        Err::<(), DriveError>(DriveError::Unauthorized),
        1nat,
        2nat,
    ));
}

} // verus!
