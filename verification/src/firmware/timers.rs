//! The state machine's timers: the PIN session deadline while the user is
//! active and the error display deadline while an error is shown. Times
//! are milliseconds of a monotonic clock.
use vstd::prelude::*;
use crate::firmware::state_machine::{ERROR_DISPLAY_MS, Event, TokenState, spec_on_event};
use crate::service::session::SESSION_TIMEOUT_MS;

verus! {

/// How long the state task sleeps when no deadline is pending.
pub const IDLE_WAKE_MS: u64 = 3_600_000;

/// `a + b`, or the largest time when it would overflow.
pub open spec fn spec_sat_add(a: u64, b: u64) -> u64 {
    if a + b > u64::MAX { u64::MAX } else { (a + b) as u64 }
}

/// The next time the state task must wake: the earlier deadline, or an
/// hour from now when none is pending.
pub open spec fn spec_earliest(a: Option<u64>, b: Option<u64>, now: u64) -> u64 {
    match (a, b) {
        (Some(x), Some(y)) => if x < y { x } else { y },
        (Some(x), None) => x,
        (None, Some(y)) => y,
        (None, None) => spec_sat_add(now, IDLE_WAKE_MS),
    }
}

/// The next time the state task must wake.
pub fn earliest(a: Option<u64>, b: Option<u64>, now: u64) -> (r: u64)
    ensures
        r == spec_earliest(a, b, now),
{
    match (a, b) {
        (Some(x), Some(y)) => if x < y { x } else { y },
        (Some(x), None) => x,
        (None, Some(y)) => y,
        (None, None) => now.saturating_add(IDLE_WAKE_MS),
    }
}

/// The deadline `d` has passed at `now`.
pub open spec fn spec_due(d: Option<u64>, now: u64) -> bool {
    d matches Some(t) && t <= now
}

/// Turn a timer wake-up into an event: a passed session deadline ends the
/// session, else a passed error deadline ends the error display; the
/// deadline that fired is cleared. A wake-up with no passed deadline is
/// read as the session end.
pub fn derive_timer_event(now: u64, session_deadline: &mut Option<u64>, error_deadline: &mut Option<u64>) -> (r: Event)
    ensures
        spec_due(*old(session_deadline), now) ==> (r == Event::SessionEnded && *final(session_deadline) == None::<u64>
            && *final(error_deadline) == *old(error_deadline)),
        !spec_due(*old(session_deadline), now) && spec_due(*old(error_deadline), now) ==> (r == Event::ErrorDisplayElapsed
            && *final(error_deadline) == None::<u64> && *final(session_deadline) == *old(session_deadline)),
        !spec_due(*old(session_deadline), now) && !spec_due(*old(error_deadline), now) ==> (r == Event::SessionEnded
            && *final(session_deadline) == *old(session_deadline) && *final(error_deadline) == *old(error_deadline)),
{
    if let Some(d) = *session_deadline {
        if d <= now {
            *session_deadline = None;
            return Event::SessionEnded;
        }
    }
    if let Some(d) = *error_deadline {
        if d <= now {
            *error_deadline = None;
            return Event::ErrorDisplayElapsed;
        }
    }
    Event::SessionEnded
}

/// States in which the user is active and the session timer runs.
pub open spec fn spec_user_active(s: TokenState) -> bool {
    s == TokenState::Authenticated || s == TokenState::WaitingForTouch || s == TokenState::Signing
}

/// Events that count as user activity and restart the session timer.
pub open spec fn spec_refreshes(e: Event) -> bool {
    e == Event::PinVerified || e == Event::SignComplete || e == Event::SignRequested || e == Event::TouchPressed
}

/// The session deadline after an event that left the token in `state`.
pub open spec fn spec_session_deadline(state: TokenState, e: Event, now: u64, d: Option<u64>) -> Option<u64> {
    if spec_user_active(state) {
        if spec_refreshes(e) || d is None { Some(spec_sat_add(now, SESSION_TIMEOUT_MS)) } else { d }
    } else {
        None
    }
}

/// The error deadline after an event that left the token in `state`.
pub open spec fn spec_error_deadline(state: TokenState, now: u64, d: Option<u64>) -> Option<u64> {
    if state == TokenState::Error {
        if d is None { Some(spec_sat_add(now, ERROR_DISPLAY_MS)) } else { d }
    } else {
        None
    }
}

/// Re-arm or clear the timers after `last_event` left the token in
/// `state`: the session timer runs exactly while the user is active and is
/// restarted by user activity; the error timer runs exactly while an error
/// is shown.
pub fn update_timers(
    state: TokenState,
    last_event: Event,
    now: u64,
    session_deadline: &mut Option<u64>,
    error_deadline: &mut Option<u64>,
)
    ensures
        *final(session_deadline) == spec_session_deadline(state, last_event, now, *old(session_deadline)),
        *final(error_deadline) == spec_error_deadline(state, now, *old(error_deadline)),
        (*final(session_deadline)) is Some <==> spec_user_active(state),
        (*final(error_deadline)) is Some <==> state == TokenState::Error,
{
    let user_active_state = match state {
        TokenState::Authenticated | TokenState::WaitingForTouch | TokenState::Signing => true,
        _ => false,
    };
    if user_active_state {
        let refresh = match last_event {
            Event::PinVerified | Event::SignComplete | Event::SignRequested | Event::TouchPressed => true,
            _ => false,
        };
        if refresh || session_deadline.is_none() {
            *session_deadline = Some(now.saturating_add(SESSION_TIMEOUT_MS));
        }
    } else {
        *session_deadline = None;
    }
    let is_error = match state {
        TokenState::Error => true,
        _ => false,
    };
    if is_error {
        if error_deadline.is_none() {
            *error_deadline = Some(now.saturating_add(ERROR_DISPLAY_MS));
        }
    } else {
        *error_deadline = None;
    }
}

/// What the state task does with one event.
#[derive(Debug, Clone, Copy, PartialEq, Eq, Structural)]
pub struct StepOutcome {
    /// The state after the event.
    pub next: TokenState,
    /// The state changed, so it must be published.
    pub changed: bool,
    /// The token just entered `Signing`: the waiting signature may go on.
    pub confirm_touch: bool,
}

/// What one step of the state task yields on `event` in `state`.
pub open spec fn spec_step(state: TokenState, event: Event) -> StepOutcome {
    let next = spec_on_event(state, event);
    StepOutcome { next, changed: next != state, confirm_touch: next != state && next == TokenState::Signing }
}

/// One step of the state task: move the state machine on `event` at
/// `now`, then re-arm the timers.
pub fn state_step(
    state: TokenState,
    event: Event,
    now: u64,
    session_deadline: &mut Option<u64>,
    error_deadline: &mut Option<u64>,
) -> (r: StepOutcome)
    ensures
        r == spec_step(state, event),
        r.next == spec_on_event(state, event),
        r.changed == (r.next != state),
        r.confirm_touch == (r.changed && r.next == TokenState::Signing),
        *final(session_deadline) == spec_session_deadline(r.next, event, now, *old(session_deadline)),
        *final(error_deadline) == spec_error_deadline(r.next, now, *old(error_deadline)),
{
    let next = state.on_event(event);
    let changed = next != state;
    let confirm_touch = changed && next == TokenState::Signing;
    update_timers(next, event, now, session_deadline, error_deadline);
    StepOutcome { next, changed, confirm_touch }
}

/// The touch confirmation is only ever given for a touch while waiting.
pub proof fn lemma_confirm_only_on_touch(state: TokenState, event: Event)
    ensures
        (spec_on_event(state, event) != state && spec_on_event(state, event) == TokenState::Signing) ==> (
            state == TokenState::WaitingForTouch && event == Event::TouchPressed),
{
}

/// The state task's run over `events` from `s0`, step by step: the state
/// it ends in, the states it publishes in order (`s0` at start, then each
/// new state), and how many touch confirmations it gives.
pub open spec fn spec_replay(s0: TokenState, events: Seq<Event>) -> (TokenState, Seq<TokenState>, nat)
    decreases events.len(),
{
    if events.len() == 0 {
        (s0, seq![s0], 0nat)
    } else {
        let prev = spec_replay(s0, events.drop_last());
        let o = spec_step(prev.0, events.last());
        (o.next, if o.changed { prev.1.push(o.next) } else { prev.1 }, prev.2 + if o.confirm_touch { 1nat } else { 0nat })
    }
}

/// How many of `events` are touches.
pub open spec fn spec_touch_count(events: Seq<Event>) -> nat
    decreases events.len(),
{
    if events.len() == 0 {
        0
    } else {
        spec_touch_count(events.drop_last()) + if events.last() == Event::TouchPressed { 1nat } else { 0nat }
    }
}

/// Over any run of events, the state task publishes the start state first,
/// the last state it published is always the state it is in, it never
/// publishes the same state twice in a row, and it gives no more touch
/// confirmations than there were touches.
pub proof fn lemma_replay(s0: TokenState, events: Seq<Event>)
    ensures
        spec_replay(s0, events).1.len() >= 1,
        spec_replay(s0, events).1[0] == s0,
        spec_replay(s0, events).1.last() == spec_replay(s0, events).0,
        forall|i: int| 0 <= i < spec_replay(s0, events).1.len() - 1
            ==> #[trigger] spec_replay(s0, events).1[i] != spec_replay(s0, events).1[i + 1],
        spec_replay(s0, events).2 <= spec_touch_count(events),
    decreases events.len(),
{
    if events.len() > 0 {
        let prev = spec_replay(s0, events.drop_last());
        lemma_replay(s0, events.drop_last());
        lemma_confirm_only_on_touch(prev.0, events.last());
        let o = spec_step(prev.0, events.last());
        if o.changed {
            let p = prev.1.push(o.next);
            assert forall|i: int| 0 <= i < p.len() - 1 implies #[trigger] p[i] != p[i + 1] by {
                if i < prev.1.len() - 1 {
                    assert(p[i] == prev.1[i] && p[i + 1] == prev.1[i + 1]);
                } else {
                    assert(p[i] == prev.1.last());
                }
            }
        }
    }
}

} // verus!
