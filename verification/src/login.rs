use vstd::prelude::*;

verus! {

/// What one poll of the QR session's status endpoint came back with.
/// `New` means the code was not scanned yet; `Scanned` that it awaits the
/// confirmation tap; `Confirmed` carries the refresh token; `Expired` ends the
/// session; `PollFailed` is a transient per-poll error and does not abort the
/// flow early.
pub enum QrPoll {
    New,
    Scanned,
    Confirmed(String),
    Expired,
    PollFailed,
}

/// Mathematical model of a `QrPoll`.
pub enum QrPollModel {
    New,
    Scanned,
    Confirmed(Seq<char>),
    Expired,
    PollFailed,
}

impl View for QrPoll {
    type V = QrPollModel;

    open spec fn view(&self) -> QrPollModel {
        match self {
            QrPoll::New => QrPollModel::New,
            QrPoll::Scanned => QrPollModel::Scanned,
            QrPoll::Confirmed(t) => QrPollModel::Confirmed(t@),
            QrPoll::Expired => QrPollModel::Expired,
            QrPoll::PollFailed => QrPollModel::PollFailed,
        }
    }
}

/// Why a login flow ended without a refresh token.
#[derive(Clone, Copy, PartialEq, Eq, Structural, Debug)]
pub enum LoginFailed {
    SessionExpired,
    PollsExhausted,
}

/// The outcome of the whole poll loop: the first `Confirmed` within the first
/// `max` polls wins; an `Expired` poll is terminal failure; every other
/// response consumes one poll and the loop goes on; running out of polls — or
/// of responses — is `PollsExhausted`.
pub open spec fn spec_login(polls: Seq<QrPollModel>, max: nat) -> Result<Seq<char>, LoginFailed>
    decreases max,
{
    if max == 0 || polls.len() == 0 {
        Err(LoginFailed::PollsExhausted)
    } else {
        match polls[0] {
            QrPollModel::Confirmed(t) => Ok(t),
            QrPollModel::Expired => Err(LoginFailed::SessionExpired),
            QrPollModel::New | QrPollModel::Scanned | QrPollModel::PollFailed => spec_login(
                polls.drop_first(),
                (max - 1) as nat,
            ),
        }
    }
}

/// What the poll loop does after one response: poll again after the fixed
/// interval, or stop with the flow's outcome.
pub enum LoginStep {
    Continue,
    Finished(Result<String, LoginFailed>),
}

/// The one-shot login machine, driven one poll response at a time by whoever
/// owns the clock and the network: confirmation succeeds at once, expiry
/// fails at once, anything else consumes one of the bounded polls, and
/// spending the last one without confirmation is `PollsExhausted` — an error,
/// never a panic. `login_outcome` is this machine folded over a whole
/// response sequence.
pub struct LoginMachine {
    polls_left: u64,
}

impl LoginMachine {
    pub closed spec fn spec_polls_left(&self) -> u64 {
        self.polls_left
    }

    pub fn start(max_polls: u64) -> (m: LoginMachine)
        ensures
            m.spec_polls_left() == max_polls,
    {
        LoginMachine { polls_left: max_polls }
    }

    /// Feed one poll response and learn whether to poll again.
    pub fn on_poll(&mut self, poll: QrPoll) -> (s: LoginStep)
        requires
            old(self).spec_polls_left() > 0,
        ensures
            final(self).spec_polls_left() == old(self).spec_polls_left() - 1,
            match poll@ {
                QrPollModel::Confirmed(t) => s matches LoginStep::Finished(r) && r matches Ok(tok)
                    && tok@ == t,
                QrPollModel::Expired => s == LoginStep::Finished(
                    Err::<String, LoginFailed>(LoginFailed::SessionExpired),
                ),
                QrPollModel::New | QrPollModel::Scanned | QrPollModel::PollFailed => {
                    if old(self).spec_polls_left() == 1 {
                        s == LoginStep::Finished(
                            Err::<String, LoginFailed>(LoginFailed::PollsExhausted),
                        )
                    } else {
                        s is Continue
                    }
                },
            },
    {
        self.polls_left = self.polls_left - 1;
        match poll {
            QrPoll::Confirmed(t) => LoginStep::Finished(Ok(t)),
            QrPoll::Expired => LoginStep::Finished(Err(LoginFailed::SessionExpired)),
            QrPoll::New | QrPoll::Scanned | QrPoll::PollFailed => {
                if self.polls_left == 0 {
                    LoginStep::Finished(Err(LoginFailed::PollsExhausted))
                } else {
                    LoginStep::Continue
                }
            },
        }
    }
}

/// The models of a vector of poll responses, in order.
pub open spec fn poll_models(polls: Seq<QrPoll>) -> Seq<QrPollModel> {
    polls.map_values(|p: QrPoll| p@)
}

/// Run the decision side of the login flow over the poll responses in order,
/// allowing at most `max_polls` of them: exactly `spec_login`. The network
/// side hands in one response per poll; exceeding the bound is an error, never
/// a panic.
pub fn login_outcome(polls: Vec<QrPoll>, max_polls: u64) -> (r: Result<String, LoginFailed>)
    ensures
        ({
            let rm = match r {
                Ok(t) => Ok::<Seq<char>, LoginFailed>(t@),
                Err(e) => Err::<Seq<char>, LoginFailed>(e),
            };
            rm == spec_login(poll_models(polls@), max_polls as nat)
        }),
{
    let ghost full = poll_models(polls@);
    let mut remaining: u64 = max_polls;
    let mut i: usize = 0;
    let n = polls.len();
    let mut queue = polls;
    proof {
        assert(full.skip(0) =~= full);
    }
    while i < n
        invariant
            i <= n,
            queue@.len() == n - i,
            poll_models(queue@) == full.skip(i as int),
            full == poll_models(polls@),
            full.len() == n,
            remaining <= max_polls,
            spec_login(full, max_polls as nat) == spec_login(full.skip(i as int), remaining as nat),
        decreases n - i,
    {
        let ghost rest_now = full.skip(i as int);
        proof {
            assert(rest_now.len() > 0);
            assert(rest_now.drop_first() =~= full.skip(i + 1));
        }
        if remaining == 0 {
            return Err(LoginFailed::PollsExhausted);
        }
        let p = queue.remove(0);
        proof {
            assert(poll_models(queue@) =~= full.skip(i + 1));
            assert(p@ == rest_now[0]);
        }
        match p {
            QrPoll::Confirmed(t) => {
                return Ok(t);
            },
            QrPoll::Expired => {
                return Err(LoginFailed::SessionExpired);
            },
            QrPoll::New | QrPoll::Scanned | QrPoll::PollFailed => {
                proof {
                    assert(spec_login(rest_now, remaining as nat) == spec_login(
                        full.skip(i + 1),
                        (remaining - 1) as nat,
                    ));
                }
            },
        }
        remaining = remaining - 1;
        i = i + 1;
    }
    proof {
        assert(full.skip(n as int) =~= Seq::<QrPollModel>::empty());
    }
    Err(LoginFailed::PollsExhausted)
}

} // verus!
