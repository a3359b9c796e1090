//! Decisions of the login flow: how to read each answer while polling for a
//! device-flow token, how long to poll, and whether a saved token still
//! holds. The HTTP exchanges themselves are the caller's.
use vstd::prelude::*;
use crate::protocol::text_equals;

verus! {

/// The shortest wait between polls, in seconds.
pub const MIN_POLL_SECS: u64 = 5;

/// Why the device flow failed.
#[derive(Clone, Debug)]
pub enum LoginError {
    /// The device code expired.
    Expired,
    /// The user denied access.
    Denied,
    /// The identity provider reported another error.
    Other(String),
}

/// What the device flow does after one poll.
#[derive(Clone, Debug)]
pub enum PollStep {
    /// Poll again after the usual wait.
    Retry,
    /// Wait five seconds more, then poll again.
    SlowDown,
    /// The token has come.
    Done,
    /// Give up.
    Fail(LoginError),
}

/// The step after a poll that answered with `error` and, maybe, a token.
pub fn poll_step(error: Option<&str>, has_token: bool) -> (r: PollStep)
    ensures
        error matches Some(e) ==> {
            &&& e@ == "authorization_pending"@ ==> r is Retry
            &&& e@ == "slow_down"@ ==> r is SlowDown
            &&& e@ == "expired_token"@ ==> (r matches PollStep::Fail(f) && f is Expired)
            &&& e@ == "access_denied"@ ==> (r matches PollStep::Fail(f) && f is Denied)
            &&& (e@ != "authorization_pending"@ && e@ != "slow_down"@ && e@ != "expired_token"@
                && e@ != "access_denied"@) ==> (r matches PollStep::Fail(f) && (f matches LoginError::Other(m) && m@ == e@))
        },
        error is None && has_token ==> r is Done,
        error is None && !has_token ==> r is Retry,
{
    proof {
        reveal_strlit("authorization_pending");
        reveal_strlit("slow_down");
        reveal_strlit("expired_token");
        reveal_strlit("access_denied");
        assert("authorization_pending"@[0] != "slow_down"@[0]);
        assert("authorization_pending"@[0] != "expired_token"@[0]);
        assert("expired_token"@[0] != "access_denied"@[0]);
        assert("authorization_pending"@.len() != "access_denied"@.len());
        assert("slow_down"@.len() != "expired_token"@.len());
        assert("slow_down"@.len() != "access_denied"@.len());
    }
    match error {
        Some(e) => {
            if text_equals(e, "authorization_pending") {
                PollStep::Retry
            } else if text_equals(e, "slow_down") {
                PollStep::SlowDown
            } else if text_equals(e, "expired_token") {
                PollStep::Fail(LoginError::Expired)
            } else if text_equals(e, "access_denied") {
                PollStep::Fail(LoginError::Denied)
            } else {
                PollStep::Fail(LoginError::Other(e.to_owned()))
            }
        },
        None => if has_token {
            PollStep::Done
        } else {
            PollStep::Retry
        },
    }
}

/// The wait between polls: the provider's interval, at least five seconds.
pub fn poll_interval(interval: u64) -> (r: u64)
    ensures
        r == if interval < MIN_POLL_SECS { MIN_POLL_SECS } else { interval },
{
    if interval < MIN_POLL_SECS {
        MIN_POLL_SECS
    } else {
        interval
    }
}

/// How many polls fit before the device code expires (at most `u32::MAX`).
pub fn poll_budget(expires_in: u64, interval: u64) -> (r: u32)
    ensures
        r as int == if expires_in / (if interval < MIN_POLL_SECS { MIN_POLL_SECS } else { interval })
            <= u32::MAX {
            (expires_in / (if interval < MIN_POLL_SECS { MIN_POLL_SECS } else { interval })) as int
        } else {
            u32::MAX as int
        },
{
    let q = expires_in / poll_interval(interval);
    if q <= u32::MAX as u64 {
        q as u32
    } else {
        u32::MAX
    }
}

/// Whether a saved token is still good, given the status of a request made
/// with it: only 401 says it is not (other failures are taken as network trouble).
pub fn token_still_valid(status: u16) -> (r: bool)
    ensures
        r == (status != 401),
{
    status != 401
}

} // verus!
