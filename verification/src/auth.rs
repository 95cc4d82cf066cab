use vstd::prelude::*;

verus! {

/// What the gateway does with one request's credentials: serve it without
/// authentication, serve it as the named principal, or answer with a
/// challenge — never a crash.
pub enum AuthDecision {
    Open,
    Authorized(String),
    Challenge,
}

/// A coherent configuration names a username and a password together or not
/// at all.
pub fn auth_config_valid(user: &Option<String>, password: &Option<String>) -> (b: bool)
    ensures
        b == ((user is Some) <==> (password is Some)),
{
    match (user, password) {
        (Some(_), Some(_)) => true,
        (None, None) => true,
        _ => false,
    }
}

/// Decide one request: with no credentials configured every request is served;
/// otherwise only a request whose basic credentials match, character for
/// character, is served — as that principal — and everything else is
/// challenged.
pub fn check_basic_auth(
    user: &Option<String>,
    password: &Option<String>,
    provided: &Option<(String, String)>,
) -> (d: AuthDecision)
    ensures
        match (user, password) {
            (Some(u), Some(p)) => match provided {
                Some(c) => {
                    if c.0@ == u@ && c.1@ == p@ {
                        d matches AuthDecision::Authorized(principal) && principal@ == u@
                    } else {
                        d is Challenge
                    }
                },
                None => d is Challenge,
            },
            _ => d is Open,
        },
{
    match (user, password) {
        (Some(u), Some(p)) => match provided {
            Some(c) => {
                if c.0 == *u && c.1 == *p {
                    AuthDecision::Authorized(c.0.clone())
                } else {
                    AuthDecision::Challenge
                }
            },
            None => AuthDecision::Challenge,
        },
        _ => AuthDecision::Open,
    }
}

} // verus!
