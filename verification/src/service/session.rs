//! The PIN session: opened by a successful PIN check, kept alive by
//! activity, closed explicitly or after [`SESSION_TIMEOUT_MS`] of
//! inactivity.
use vstd::prelude::*;

verus! {

/// Inactivity after which a session expires, in milliseconds.
pub const SESSION_TIMEOUT_MS: u64 = 30_000;

/// A monotonic millisecond clock, supplied by the user of the service.
pub trait Clock {
    /// Current time in milliseconds.
    fn now_ms(&self) -> u64;
}

/// The session: the time of the last activity, or nothing when closed.
#[derive(Debug, Clone, Copy, PartialEq, Eq, Structural)]
pub struct Session {
    last_activity_ms: Option<u64>,
}

/// A session last active at `last` is still active at `now`.
pub open spec fn spec_active_at(last: Option<u64>, now: u64) -> bool {
    match last {
        None => false,
        Some(t) => (if now >= t { now - t } else { 0 }) < SESSION_TIMEOUT_MS,
    }
}

impl View for Session {
    type V = Option<u64>;

    closed spec fn view(&self) -> Option<u64> {
        self.last_activity_ms
    }
}

impl Session {
    /// A closed session.
    pub fn new() -> (r: Self)
        ensures
            r@ == None::<u64>,
    {
        Session { last_activity_ms: None }
    }

    /// Open the session at `now_ms`.
    pub fn open(&mut self, now_ms: u64)
        ensures
            final(self)@ == Some(now_ms),
    {
        self.last_activity_ms = Some(now_ms);
    }

    /// Close the session.
    pub fn close(&mut self)
        ensures
            final(self)@ == None::<u64>,
    {
        self.last_activity_ms = None;
    }

    /// Record activity at `now_ms`; a closed session stays closed.
    pub fn touch(&mut self, now_ms: u64)
        ensures
            final(self)@ == (if old(self)@ is Some { Some(now_ms) } else { None::<u64> }),
    {
        if self.last_activity_ms.is_some() {
            self.last_activity_ms = Some(now_ms);
        }
    }

    /// The session is open and less than [`SESSION_TIMEOUT_MS`] has passed
    /// since its last activity (a clock that went backwards counts as no
    /// time passed).
    pub fn is_active(&self, now_ms: u64) -> (r: bool)
        ensures
            r == spec_active_at(self@, now_ms),
    {
        match self.last_activity_ms {
            None => false,
            Some(last) => now_ms.saturating_sub(last) < SESSION_TIMEOUT_MS,
        }
    }
}

impl Default for Session {
    fn default() -> (r: Self)
        ensures
            r@ == None::<u64>,
    {
        Session::new()
    }
}

/// A session is active right after it is opened or touched, and stays
/// active for exactly [`SESSION_TIMEOUT_MS`] milliseconds after that.
pub proof fn lemma_session_window(t: u64, now: u64)
    requires
        t <= now,
    ensures
        spec_active_at(Some(t), now) <==> now - t < SESSION_TIMEOUT_MS,
{
}

/// A closed session is never active.
pub proof fn lemma_closed_inactive(now: u64)
    ensures
        !spec_active_at(None, now),
{
}

} // verus!
