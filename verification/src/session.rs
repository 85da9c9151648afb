//! The upstream session: the crumb token obtained at bootstrap, the time of
//! the last dispatched request, and the rate gate that keeps a minimum
//! interval between requests. The session never issues requests itself; the
//! shell performs them and feeds the outcomes in, so every decision here is
//! checked.
use vstd::prelude::*;

use crate::errors::ScoutError;

verus! {

/// The minimum interval between two dispatched fetches, in milliseconds.
pub const MIN_FETCH_INTERVAL_MS: u64 = 60000;

/// Per-process upstream session state.
#[derive(Debug)]
pub struct Session {
    /// The anti-automation token, when the bootstrap obtained one.
    pub crumb: Option<String>,
    /// When the last gated request was dispatched; updated only on requests
    /// that really went out.
    pub last_request_ms: Option<u64>,
    /// The configured minimum interval between dispatched fetches.
    pub min_interval_ms: u64,
}

/// What the rate gate answers at time `now`: `None` to proceed, or the
/// remaining wait in milliseconds. A clock reading before the recorded
/// dispatch counts as no time elapsed.
pub open spec fn spec_gate(last: Option<u64>, now: u64, interval: u64) -> Option<int> {
    match last {
        None => None,
        Some(t) => {
            let elapsed = if now >= t {
                now - t
            } else {
                0
            };
            if elapsed >= interval {
                None
            } else {
                Some(interval - elapsed)
            }
        },
    }
}

/// The rate gate law: after a dispatch at `t0`, a fetch attempted at `t1`
/// within the interval is refused with exactly the remaining wait
/// `interval - (t1 - t0)`; attempted at or after the full interval, it
/// proceeds.
pub proof fn lemma_rate_gate(t0: u64, t1: u64, interval: u64)
    requires
        t0 <= t1,
    ensures
        t1 - t0 < interval ==> spec_gate(Some(t0), t1, interval) == Some(interval - (t1 - t0)),
        t1 - t0 >= interval ==> spec_gate(Some(t0), t1, interval) is None,
{
}

impl Session {
    /// Builds the session from the two bootstrap outcomes: the cookie-seeding
    /// landing request must have succeeded, else construction fails; a failed
    /// crumb request is not fatal, the crumb is simply absent. An obtained
    /// crumb is stored trimmed.
    pub fn from_bootstrap(landing_ok: bool, crumb_text: Option<String>) -> (r: Result<
        Session,
        ScoutError,
    >)
        ensures
            match r {
                Ok(s) => landing_ok && s.last_request_ms is None && s.min_interval_ms
                    == MIN_FETCH_INTERVAL_MS && (match crumb_text {
                    Some(t) => s.crumb matches Some(c) && c@ == crate::format::spec_trim(t@),
                    None => s.crumb is None,
                }),
                Err(e) => !landing_ok && e == ScoutError::SessionBootstrapFailed,
            },
    {
        if !landing_ok {
            return Err(ScoutError::SessionBootstrapFailed);
        }
        let crumb = match crumb_text {
            Some(t) => Some(crate::format::trim_string(t.as_str())),
            None => None,
        };
        Ok(
            Session {
                crumb,
                last_request_ms: None,
                min_interval_ms: MIN_FETCH_INTERVAL_MS,
            },
        )
    }

    /// Asks the rate gate whether a fetch may go out now: `None` to proceed,
    /// or the remaining wait in milliseconds.
    pub fn check_gate(&self, now_ms: u64) -> (r: Option<u64>)
        ensures
            match r {
                Some(w) => spec_gate(self.last_request_ms, now_ms, self.min_interval_ms) == Some(
                    w as int,
                ),
                None => spec_gate(self.last_request_ms, now_ms, self.min_interval_ms) is None,
            },
    {
        match &self.last_request_ms {
            None => None,
            Some(t) => {
                let elapsed = if now_ms >= *t {
                    now_ms - *t
                } else {
                    0
                };
                if elapsed >= self.min_interval_ms {
                    None
                } else {
                    Some(self.min_interval_ms - elapsed)
                }
            },
        }
    }

    /// Passes the rate gate or reports `RateLimited`. On success the dispatch
    /// time is recorded — and only then: a refused fetch leaves the session
    /// unchanged.
    pub fn gated_dispatch(&mut self, now_ms: u64) -> (r: Result<(), ScoutError>)
        ensures
            match r {
                Ok(()) => spec_gate(
                    old(self).last_request_ms,
                    now_ms,
                    old(self).min_interval_ms,
                ) is None && final(self).last_request_ms == Some(now_ms) && final(self).crumb
                    == old(self).crumb && final(self).min_interval_ms == old(self).min_interval_ms,
                Err(e) => (exists|w: int|
                    spec_gate(old(self).last_request_ms, now_ms, old(self).min_interval_ms)
                        == Some(w) && e == (ScoutError::RateLimited { retry_after_ms: w as u64 }))
                    && *final(self) == *old(self),
            },
    {
        match self.check_gate(now_ms) {
            None => {
                self.last_request_ms = Some(now_ms);
                Ok(())
            },
            Some(w) => Err(ScoutError::RateLimited { retry_after_ms: w }),
        }
    }

    /// Hands out the crumb for an endpoint that needs one, or reports
    /// `MissingCredential`.
    pub fn require_crumb(&self) -> (r: Result<&String, ScoutError>)
        ensures
            match r {
                Ok(c) => self.crumb == Some(*c),
                Err(e) => self.crumb is None && e == ScoutError::MissingCredential,
            },
    {
        match &self.crumb {
            Some(c) => Ok(c),
            None => Err(ScoutError::MissingCredential),
        }
    }
}

} // verus!
