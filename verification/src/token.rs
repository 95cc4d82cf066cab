use vstd::prelude::*;

verus! {

/// A short-lived access credential, replaced wholesale on every refresh and
/// never partially mutated.
pub struct Credential {
    pub access_token: String,
    pub expires_at: u64,
}

/// Mathematical model of a `Credential`.
pub struct CredentialModel {
    pub access_token: Seq<char>,
    pub expires_at: u64,
}

impl View for Credential {
    type V = CredentialModel;

    open spec fn view(&self) -> CredentialModel {
        CredentialModel { access_token: self.access_token@, expires_at: self.expires_at }
    }
}

impl Clone for Credential {
    fn clone(&self) -> (r: Credential)
        ensures
            r@ == self@,
    {
        Credential { access_token: self.access_token.clone(), expires_at: self.expires_at }
    }
}

/// Why a refresh exchange failed: a revoked refresh token is fatal for the
/// session; a network failure may be retried by the caller at a higher level.
#[derive(Clone, Copy, PartialEq, Eq, Structural, Debug)]
pub enum RefreshError {
    Revoked,
    Network,
}

/// What a caller asking for a credential must do next: use the one returned,
/// perform the one network refresh itself, or await the refresh already in
/// flight and read its outcome.
pub enum TokenAction {
    Use(Credential),
    BeginRefresh,
    AwaitRefresh,
}

/// Mathematical model of a `TokenAction`.
pub enum TokenActionModel {
    Use(CredentialModel),
    BeginRefresh,
    AwaitRefresh,
}

impl View for TokenAction {
    type V = TokenActionModel;

    open spec fn view(&self) -> TokenActionModel {
        match self {
            TokenAction::Use(c) => TokenActionModel::Use(c@),
            TokenAction::BeginRefresh => TokenActionModel::BeginRefresh,
            TokenAction::AwaitRefresh => TokenActionModel::AwaitRefresh,
        }
    }
}

/// Mathematical model of the token manager: the held credential, the
/// long-lived refresh token, whether a refresh exchange is in flight, how many
/// exchanges were ever started, and the outcome of the last one.
pub struct TokenManagerModel {
    pub credential: Option<CredentialModel>,
    pub refresh_token: Seq<char>,
    pub in_flight: bool,
    pub safety_margin: u64,
    pub refreshes_started: nat,
    pub last_outcome: Option<Result<CredentialModel, RefreshError>>,
}

/// The credential may still be used at `now`: more than the safety margin
/// remains before it expires.
pub open spec fn credential_usable(c: CredentialModel, now: u64, margin: u64) -> bool {
    now + margin < c.expires_at
}

/// One `get_valid_credential` step. While a refresh is in flight every caller
/// awaits that one outcome; a usable credential is handed out unchanged; and
/// only otherwise does the caller start the single new exchange.
pub open spec fn spec_acquire(m: TokenManagerModel, now: u64) -> (TokenManagerModel, TokenActionModel) {
    if m.in_flight {
        (m, TokenActionModel::AwaitRefresh)
    } else if m.credential is Some && credential_usable(m.credential->0, now, m.safety_margin) {
        (m, TokenActionModel::Use(m.credential->0))
    } else {
        (
            TokenManagerModel {
                in_flight: true,
                refreshes_started: m.refreshes_started + 1,
                ..m
            },
            TokenActionModel::BeginRefresh,
        )
    }
}

/// One `force_refresh` step: join the in-flight exchange, or start the one new
/// exchange unconditionally.
pub open spec fn spec_force(m: TokenManagerModel) -> (TokenManagerModel, TokenActionModel) {
    if m.in_flight {
        (m, TokenActionModel::AwaitRefresh)
    } else {
        (
            TokenManagerModel {
                in_flight: true,
                refreshes_started: m.refreshes_started + 1,
                ..m
            },
            TokenActionModel::BeginRefresh,
        )
    }
}

/// The model of a refresh outcome: on success, the new credential and the
/// rotated refresh token.
pub open spec fn outcome_model(o: Result<(Credential, String), RefreshError>) -> Result<
    (CredentialModel, Seq<char>),
    RefreshError,
> {
    match o {
        Ok((c, rt)) => Ok((c@, rt@)),
        Err(e) => Err(e),
    }
}

/// The effect of completing the in-flight exchange: one recorded outcome. On
/// success the credential and the refresh token are replaced wholesale; on
/// failure the previous credential stays and is not retried here.
pub open spec fn spec_complete(
    m: TokenManagerModel,
    o: Result<(CredentialModel, Seq<char>), RefreshError>,
) -> TokenManagerModel {
    match o {
        Ok((c, rt)) => TokenManagerModel {
            credential: Some(c),
            refresh_token: rt,
            in_flight: false,
            last_outcome: Some(Ok(c)),
            ..m
        },
        Err(e) => TokenManagerModel { in_flight: false, last_outcome: Some(Err(e)), ..m },
    }
}

/// Keeps the access credential valid without redundant network exchanges:
/// at most one refresh is ever in flight, and concurrent callers share its
/// outcome instead of starting their own.
pub struct TokenManager {
    credential: Option<Credential>,
    refresh_token: String,
    in_flight: bool,
    safety_margin: u64,
    refreshes_started: Ghost<nat>,
    last_outcome: Option<Result<Credential, RefreshError>>,
}

impl View for TokenManager {
    type V = TokenManagerModel;

    closed spec fn view(&self) -> TokenManagerModel {
        TokenManagerModel {
            credential: match self.credential {
                Some(c) => Some(c@),
                None => None,
            },
            refresh_token: self.refresh_token@,
            in_flight: self.in_flight,
            safety_margin: self.safety_margin,
            refreshes_started: self.refreshes_started@,
            last_outcome: match self.last_outcome {
                None => None,
                Some(Ok(c)) => Some(Ok(c@)),
                Some(Err(e)) => Some(Err(e)),
            },
        }
    }
}

impl TokenManager {
    /// A fresh manager: no credential yet, nothing in flight, no exchange
    /// started, keeping at least `safety_margin` seconds of validity in hand.
    pub fn new(refresh_token: String, safety_margin: u64) -> (m: TokenManager)
        ensures
            m@ == (TokenManagerModel {
                credential: None,
                refresh_token: refresh_token@,
                in_flight: false,
                safety_margin,
                refreshes_started: 0,
                last_outcome: None,
            }),
    {
        TokenManager {
            credential: None,
            refresh_token,
            in_flight: false,
            safety_margin,
            refreshes_started: Ghost(0),
            last_outcome: None,
        }
    }

    /// Never hands out an expired credential: a returned credential has more
    /// than the safety margin left, and while a refresh is in flight no second
    /// exchange is started.
    pub fn get_valid_credential(&mut self, now: u64) -> (a: TokenAction)
        ensures
            (final(self)@, a@) == spec_acquire(old(self)@, now),
            a@ matches TokenActionModel::Use(c) ==> now < c.expires_at,
    {
        if self.in_flight {
            return TokenAction::AwaitRefresh;
        }
        match &self.credential {
            Some(c) => {
                if self.safety_margin < c.expires_at && now < c.expires_at - self.safety_margin {
                    return TokenAction::Use(c.clone());
                }
                self.in_flight = true;
                proof {
                    self.refreshes_started@ = self.refreshes_started@ + 1;
                }
                TokenAction::BeginRefresh
            },
            None => {
                self.in_flight = true;
                proof {
                    self.refreshes_started@ = self.refreshes_started@ + 1;
                }
                TokenAction::BeginRefresh
            },
        }
    }

    /// Unconditionally exchange the refresh token — still joining an exchange
    /// already in flight rather than starting a second one.
    pub fn force_refresh(&mut self) -> (a: TokenAction)
        ensures
            (final(self)@, a@) == spec_force(old(self)@),
    {
        if self.in_flight {
            return TokenAction::AwaitRefresh;
        }
        self.in_flight = true;
        proof {
            self.refreshes_started@ = self.refreshes_started@ + 1;
        }
        TokenAction::BeginRefresh
    }

    /// Record the single outcome of the in-flight exchange, for every waiter
    /// to observe.
    pub fn complete_refresh(&mut self, outcome: Result<(Credential, String), RefreshError>)
        requires
            old(self)@.in_flight,
        ensures
            final(self)@ == spec_complete(old(self)@, outcome_model(outcome)),
    {
        self.in_flight = false;
        match outcome {
            Ok((c, rt)) => {
                self.last_outcome = Some(Ok(c.clone()));
                self.credential = Some(c);
                self.refresh_token = rt;
            },
            Err(e) => {
                self.last_outcome = Some(Err(e));
            },
        }
    }

    /// The outcome of the last completed exchange, shared by all waiters.
    pub fn last_refresh_outcome(&self) -> (r: Option<Result<Credential, RefreshError>>)
        ensures
            match r {
                None => self@.last_outcome is None,
                Some(Ok(c)) => self@.last_outcome == Some(Ok::<CredentialModel, RefreshError>(c@)),
                Some(Err(e)) => self@.last_outcome == Some(
                    Err::<CredentialModel, RefreshError>(e),
                ),
            },
    {
        match &self.last_outcome {
            None => None,
            Some(Ok(c)) => Some(Ok(c.clone())),
            Some(Err(e)) => Some(Err(*e)),
        }
    }

    /// The refresh token to persist; written to disk only after a successful
    /// exchange replaced it.
    pub fn refresh_token(&self) -> (r: &String)
        ensures
            r@ == self@.refresh_token,
    {
        &self.refresh_token
    }
}

/// The manager after a whole sequence of `get_valid_credential` calls.
pub open spec fn spec_acquire_all(m: TokenManagerModel, nows: Seq<u64>) -> TokenManagerModel
    decreases nows.len(),
{
    if nows.len() == 0 {
        m
    } else {
        spec_acquire_all(spec_acquire(m, nows[0]).0, nows.drop_first())
    }
}

/// Law: concurrent callers collapse into one network exchange. While a refresh
/// is in flight, any number of `get_valid_credential` calls leaves the manager
/// unchanged — in particular, the count of exchanges ever started — and every
/// such caller is told to await the one in-flight outcome; once it completes,
/// there is a single recorded outcome, and every caller that finds the new
/// credential usable is handed exactly that credential.
pub proof fn lemma_refresh_single_flight(
    m: TokenManagerModel,
    nows: Seq<u64>,
    o: Result<(CredentialModel, Seq<char>), RefreshError>,
    now: u64,
)
    requires
        m.in_flight,
    ensures
        spec_acquire_all(m, nows) == m,
        spec_acquire_all(m, nows).refreshes_started == m.refreshes_started,
        forall|t: u64| spec_acquire(m, t).1 == TokenActionModel::AwaitRefresh,
        ({
            let done = spec_complete(m, o);
            match o {
                Ok((c, rt)) => {
                    &&& done.last_outcome == Some(Ok::<CredentialModel, RefreshError>(c))
                    &&& credential_usable(c, now, done.safety_margin) ==> spec_acquire(done, now).1
                        == TokenActionModel::Use(c)
                },
                Err(e) => {
                    &&& done.last_outcome == Some(Err::<CredentialModel, RefreshError>(e))
                    &&& done.credential == m.credential
                },
            }
        }),
    decreases nows.len(),
{
    if nows.len() > 0 {
        lemma_refresh_single_flight(spec_acquire(m, nows[0]).0, nows.drop_first(), o, now);
    }
}

} // verus!
