//! Decisions of the remote-repository set-up: the address a data repository
//! is cloned from, and what to do with each reply while waiting for a
//! device authorization.
use vstd::prelude::*;

verus! {

/// How many times a device authorization is polled before giving up.
pub const MAX_POLL_ATTEMPTS: u32 = 60;

/// Seconds added to the polling interval when the server asks to slow down.
pub const SLOW_DOWN_SECS: u64 = 5;

/// What one poll for an access token brought back.
#[derive(Clone, Debug, PartialEq, Eq)]
pub enum PollReply {
    /// The reply holds an access token.
    Token(String),
    /// The reply holds an error code and no token.
    Error(String),
    /// The reply holds neither.
    Empty,
}

/// What to do after a poll.
#[derive(Clone, Debug, PartialEq, Eq)]
pub enum PollAction {
    /// Authorization is complete, with this access token.
    Authorized(String),
    /// Poll again after the usual interval.
    Wait,
    /// Poll again after the usual interval and `SLOW_DOWN_SECS` more.
    SlowDown,
    /// Give up, with this message.
    Fail(String),
}

/// The message with which polling fails on error code `e`.
pub open spec fn poll_failure_message(e: Seq<char>) -> Seq<char> {
    if e == "expired_token"@ {
        "Device code expired. Please try again."@
    } else if e == "access_denied"@ {
        "User denied authorization."@
    } else {
        "OAuth error: "@ + e
    }
}

/// The address of a user's data repository on GitHub.
pub open spec fn remote_address(user: Seq<char>) -> Seq<char> {
    "git@github.com:"@ + user + "/guidebook-local.git"@
}

fn same_text(a: &str, b: &str) -> (r: bool)
    ensures
        r == (a@ == b@),
{
    let n = a.unicode_len();
    if n != b.unicode_len() {
        return false;
    }
    let mut i: usize = 0;
    while i < n
        invariant
            n == a@.len() == b@.len(),
            i <= n,
            forall|k: int| 0 <= k < i ==> a@[k] == b@[k],
        decreases n - i,
    {
        if a.get_char(i) != b.get_char(i) {
            return false;
        }
        i += 1;
    }
    assert(a@ =~= b@);
    true
}

/// What to do after a poll that brought back `reply`.
pub fn next_poll_action(reply: PollReply) -> (r: PollAction)
    ensures
        match reply {
            PollReply::Token(t) => r == PollAction::Authorized(t),
            PollReply::Empty => r == PollAction::Wait,
            PollReply::Error(e) => if e@ == "authorization_pending"@ {
                r == PollAction::Wait
            } else if e@ == "slow_down"@ {
                r == PollAction::SlowDown
            } else {
                r matches PollAction::Fail(m) && m@ == poll_failure_message(e@)
            },
        },
{
    match reply {
        PollReply::Token(t) => PollAction::Authorized(t),
        PollReply::Empty => PollAction::Wait,
        PollReply::Error(e) => {
            if same_text(e.as_str(), "authorization_pending") {
                PollAction::Wait
            } else if same_text(e.as_str(), "slow_down") {
                PollAction::SlowDown
            } else if same_text(e.as_str(), "expired_token") {
                PollAction::Fail(String::from_str("Device code expired. Please try again."))
            } else if same_text(e.as_str(), "access_denied") {
                PollAction::Fail(String::from_str("User denied authorization."))
            } else {
                let mut m = String::from_str("OAuth error: ");
                m.append(e.as_str());
                PollAction::Fail(m)
            }
        },
    }
}

/// The address of `user`'s data repository on GitHub.
pub fn clone_remote(user: &str) -> (r: String)
    ensures
        r@ == remote_address(user@),
{
    let mut s = String::from_str("git@github.com:");
    s.append(user);
    s.append("/guidebook-local.git");
    s
}

} // verus!
