//! What logging in decides: which index to log in to, and the steps of the
//! device flow (how long to wait between polls, and what each answer of the
//! token endpoint means)
use vstd::prelude::*;

use crate::strmap::StrMap;
use crate::text::str_to_string;

verus! {

/// Why no index could be picked for a login
#[derive(Debug)]
pub enum LoginIndexError {
    /// The index is not among the manifest's indices
    NotFound(String),
}

/// The index URL to log in to, when none is named: the default index of the
/// tool's configuration outside a project
pub open spec fn spec_login_index(
    index: Option<Seq<char>>,
    index_url: Option<Seq<char>>,
    manifest_indices: Option<Map<Seq<char>, Seq<char>>>,
    default_index: Seq<char>,
) -> Result<Seq<char>, Seq<char>> {
    match index {
        Some(i) => match index_url {
            Some(u) => Ok(u),
            None => {
                let m = manifest_indices->Some_0;
                if m.dom().contains(i) {
                    Ok(m[i])
                } else {
                    Err(i)
                }
            },
        },
        None => match manifest_indices {
            None => Ok(default_index),
            Some(m) => if m.dom().contains("default"@) {
                Ok(m["default"@])
            } else {
                Err("default"@)
            },
        },
    }
}

/// The map a table of indices stands for
pub open spec fn indices_map(m: StrMap<String>) -> Map<Seq<char>, Seq<char>> {
    Map::new(|k: Seq<char>| m.contains_key(k), |k: Seq<char>| m.spec_get(k)->Some_0@)
}

/// The index to log in to: the named index when it reads as a URL
/// (`index_url` is what reading it gave), else the manifest's index of that
/// name; with none named, the manifest's `default` index, or the configured
/// default index outside a project. A named index that is no URL needs a
/// manifest to be looked up in.
pub fn login_index(
    index: Option<&str>,
    index_url: Option<String>,
    manifest_indices: Option<&StrMap<String>>,
    default_index: &str,
) -> (r: Result<String, LoginIndexError>)
    requires
        index is Some && index_url is None ==> manifest_indices is Some,
        manifest_indices matches Some(m) ==> m.wf(),
    ensures
        ({
            let s = spec_login_index(
                match index { Some(i) => Some(i@), None => None },
                match index_url { Some(u) => Some(u@), None => None },
                match manifest_indices { Some(m) => Some(indices_map(*m)), None => None },
                default_index@,
            );
            match r {
                Ok(u) => s == Ok::<Seq<char>, Seq<char>>(u@),
                Err(LoginIndexError::NotFound(n)) => s == Err::<Seq<char>, Seq<char>>(n@),
            }
        }),
{
    let name = match index {
        Some(i) => match index_url {
            Some(u) => return Ok(u),
            None => str_to_string(i),
        },
        None => match manifest_indices {
            None => return Ok(str_to_string(default_index)),
            Some(_) => str_to_string("default"),
        },
    };
    proof {
        reveal_strlit("default");
    }
    match manifest_indices {
        Some(m) => match m.get(name.as_str()) {
            Some(u) => Ok(u.clone()),
            None => Err(LoginIndexError::NotFound(name)),
        },
        None => Err(LoginIndexError::NotFound(name)),
    }
}

/// What the token endpoint answered to a poll
#[derive(Debug)]
pub enum AccessTokenResponse {
    /// The user authorized the login: the access token
    Success(String),
    /// The user has not answered yet
    AuthorizationPending,
    /// Polls come too fast: the interval to keep from now on, in seconds
    SlowDown(u64),
    /// The code expired
    ExpiredToken,
    /// The user denied the login
    AccessDenied,
}

/// What an answer means for the login
#[derive(Debug)]
pub enum FlowOutcome {
    /// Logged in, with this access token
    Token(String),
    /// Poll again
    Continue,
    /// The code expired: log in again
    Expired,
    /// The user denied the login
    Denied,
}

/// Where a device flow stands: the seconds left before the code expires and
/// the seconds to wait between polls
#[derive(Debug, Clone, Copy, PartialEq, Eq, Structural)]
pub struct DeviceFlow {
    pub time_left: u64,
    pub interval: u64,
}

impl DeviceFlow {
    /// A flow for a code that expires in `expires_in` seconds, polled every `interval` seconds
    pub fn new(expires_in: u64, interval: u64) -> (r: DeviceFlow)
        ensures
            r.time_left == expires_in,
            r.interval == interval,
    {
        DeviceFlow { time_left: expires_in, interval }
    }

    /// Before a poll: while time is left, the seconds to wait, which are
    /// counted off the time left; none when the code has expired
    pub fn next_poll(&mut self) -> (r: Option<u64>)
        ensures
            old(self).time_left > 0 ==> r == Some(old(self).interval) && final(self).interval == old(self).interval
                && final(self).time_left == (if old(self).time_left > old(self).interval {
                    old(self).time_left - old(self).interval
                } else {
                    0
                }),
            old(self).time_left == 0 ==> r is None && *final(self) == *old(self),
    {
        if self.time_left == 0 {
            return None;
        }
        let wait = self.interval;
        self.time_left = self.time_left.saturating_sub(wait);
        Some(wait)
    }

    /// After a poll: what the answer means; a slow-down answer sets the interval
    pub fn on_response(&mut self, response: AccessTokenResponse) -> (r: FlowOutcome)
        ensures
            match response {
                AccessTokenResponse::Success(t) => r == FlowOutcome::Token(t) && *final(self) == *old(self),
                AccessTokenResponse::AuthorizationPending => r == FlowOutcome::Continue && *final(self) == *old(self),
                AccessTokenResponse::SlowDown(n) => r == FlowOutcome::Continue
                    && final(self).interval == n && final(self).time_left == old(self).time_left,
                AccessTokenResponse::ExpiredToken => r == FlowOutcome::Expired && *final(self) == *old(self),
                AccessTokenResponse::AccessDenied => r == FlowOutcome::Denied && *final(self) == *old(self),
            },
    {
        match response {
            AccessTokenResponse::Success(t) => FlowOutcome::Token(t),
            AccessTokenResponse::AuthorizationPending => FlowOutcome::Continue,
            AccessTokenResponse::SlowDown(n) => {
                self.interval = n;
                FlowOutcome::Continue
            },
            AccessTokenResponse::ExpiredToken => FlowOutcome::Expired,
            AccessTokenResponse::AccessDenied => FlowOutcome::Denied,
        }
    }
}

/// The token stored after logging in: a token given on the command line as
/// it is, one from the device flow as a bearer token
pub fn login_token(given: bool, token: &str) -> (r: String)
    ensures
        r@ == (if given { token@ } else { "Bearer "@ + token@ }),
{
    if given {
        str_to_string(token)
    } else {
        let mut s = str_to_string("Bearer ");
        s.append(token);
        s
    }
}

} // verus!
