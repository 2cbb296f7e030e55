//! The token's state machine: what the LEDs show, and how requests, the
//! touch button and timers move the token between states.
use vstd::prelude::*;

verus! {

/// The token's state.
#[derive(Debug, Clone, Copy, PartialEq, Eq, Structural)]
pub enum TokenState {
    /// Starting up.
    Booting,
    /// Ready, no PIN session.
    Idle,
    /// A PIN session is open.
    Authenticated,
    /// A signature was requested; waiting for the user's touch.
    WaitingForTouch,
    /// The user touched; the chip is signing.
    Signing,
    /// An error is being shown.
    Error,
}

/// How long an error is shown before the token returns to idle.
pub const ERROR_DISPLAY_MS: u64 = 5_000;

/// How long a signature request waits for the user's touch.
pub const TOUCH_TIMEOUT_MS: u64 = 30_000;

/// What moves the state machine.
#[derive(Debug, Clone, Copy, PartialEq, Eq, Structural)]
pub enum Event {
    /// Start-up finished.
    BootComplete,
    /// The PIN checked out.
    PinVerified,
    /// The PIN session ended.
    SessionEnded,
    /// A signature was requested.
    SignRequested,
    /// The user touched the button.
    TouchPressed,
    /// No touch came in time.
    TouchTimeout,
    /// The signature is done.
    SignComplete,
    /// Something failed.
    ErrorRaised,
    /// The error has been shown long enough.
    ErrorDisplayElapsed,
}

/// What the two LEDs show.
#[derive(Debug, Clone, Copy, PartialEq, Eq, Structural)]
pub enum LedPattern {
    /// Both off.
    AllOff,
    /// Green on.
    GreenSolid,
    /// Green pulsing slowly.
    GreenSlowPulse,
    /// Green blinking fast.
    GreenFastBlink,
    /// Yellow on.
    YellowSolid,
    /// Yellow blinking.
    YellowBlink,
    /// Green and yellow in turn.
    AlternateBoth,
}

/// The pattern each state shows.
pub open spec fn spec_led_pattern(s: TokenState) -> LedPattern {
    match s {
        TokenState::Booting => LedPattern::YellowBlink,
        TokenState::Idle => LedPattern::GreenSolid,
        TokenState::Authenticated => LedPattern::GreenSlowPulse,
        TokenState::WaitingForTouch => LedPattern::YellowSolid,
        TokenState::Signing => LedPattern::AlternateBoth,
        TokenState::Error => LedPattern::GreenFastBlink,
    }
}

/// The transition function: an error wins from any state; otherwise only
/// the listed pairs move, and every other event leaves the state as is.
pub open spec fn spec_on_event(s: TokenState, e: Event) -> TokenState {
    match (s, e) {
        (TokenState::Booting, Event::BootComplete) => TokenState::Idle,
        (TokenState::Idle, Event::PinVerified) => TokenState::Authenticated,
        (TokenState::Authenticated, Event::PinVerified) => TokenState::Authenticated,
        (TokenState::Authenticated, Event::SessionEnded) => TokenState::Idle,
        (TokenState::WaitingForTouch, Event::SessionEnded) => TokenState::Idle,
        (TokenState::Authenticated, Event::SignRequested) => TokenState::WaitingForTouch,
        (TokenState::WaitingForTouch, Event::TouchPressed) => TokenState::Signing,
        (TokenState::WaitingForTouch, Event::TouchTimeout) => TokenState::Authenticated,
        (TokenState::Signing, Event::SignComplete) => TokenState::Authenticated,
        (_, Event::ErrorRaised) => TokenState::Error,
        (TokenState::Error, Event::ErrorDisplayElapsed) => TokenState::Idle,
        _ => s,
    }
}

impl TokenState {
    /// The state the token starts in.
    pub fn initial() -> (r: Self)
        ensures
            r == TokenState::Booting,
    {
        TokenState::Booting
    }

    /// The LED pattern of this state.
    pub fn led_pattern(self) -> (r: LedPattern)
        ensures
            r == spec_led_pattern(self),
    {
        match self {
            TokenState::Booting => LedPattern::YellowBlink,
            TokenState::Idle => LedPattern::GreenSolid,
            TokenState::Authenticated => LedPattern::GreenSlowPulse,
            TokenState::WaitingForTouch => LedPattern::YellowSolid,
            TokenState::Signing => LedPattern::AlternateBoth,
            TokenState::Error => LedPattern::GreenFastBlink,
        }
    }

    /// The state after `event`.
    pub fn on_event(self, event: Event) -> (r: Self)
        ensures
            r == spec_on_event(self, event),
    {
        match (self, event) {
            (TokenState::Booting, Event::BootComplete) => TokenState::Idle,
            (TokenState::Idle, Event::PinVerified) => TokenState::Authenticated,
            (TokenState::Authenticated, Event::PinVerified) => TokenState::Authenticated,
            (TokenState::Authenticated, Event::SessionEnded) => TokenState::Idle,
            (TokenState::WaitingForTouch, Event::SessionEnded) => TokenState::Idle,
            (TokenState::Authenticated, Event::SignRequested) => TokenState::WaitingForTouch,
            (TokenState::WaitingForTouch, Event::TouchPressed) => TokenState::Signing,
            (TokenState::WaitingForTouch, Event::TouchTimeout) => TokenState::Authenticated,
            (TokenState::Signing, Event::SignComplete) => TokenState::Authenticated,
            (_, Event::ErrorRaised) => TokenState::Error,
            (TokenState::Error, Event::ErrorDisplayElapsed) => TokenState::Idle,
            _ => self,
        }
    }
}

/// No signature without a touch: the only way into `Signing` is a touch
/// while waiting for one.
pub proof fn lemma_signing_needs_touch(s: TokenState, e: Event)
    ensures
        spec_on_event(s, e) == TokenState::Signing && s != TokenState::Signing ==> (s == TokenState::WaitingForTouch
            && e == Event::TouchPressed),
{
}

/// Waiting for a touch is only entered from an open session, on a
/// signature request.
pub proof fn lemma_waiting_needs_session(s: TokenState, e: Event)
    ensures
        spec_on_event(s, e) == TokenState::WaitingForTouch && s != TokenState::WaitingForTouch ==> (
            s == TokenState::Authenticated && e == Event::SignRequested),
{
}

/// An error event leads to the error state from every state.
pub proof fn lemma_error_overrides(s: TokenState)
    ensures
        spec_on_event(s, Event::ErrorRaised) == TokenState::Error,
{
}

/// Only an open session, or a sign already underway, leaves a state
/// in which signing can happen: from `Idle`, `Booting` or `Error`, no
/// single event reaches `WaitingForTouch` or `Signing`.
pub proof fn lemma_no_signing_without_session(s: TokenState, e: Event)
    requires
        s == TokenState::Idle || s == TokenState::Booting || s == TokenState::Error,
    ensures
        spec_on_event(s, e) != TokenState::WaitingForTouch,
        spec_on_event(s, e) != TokenState::Signing,
{
}

/// The touch timeout leaves room to show an error in between.
pub proof fn lemma_timeouts_ordered()
    ensures
        ERROR_DISPLAY_MS < TOUCH_TIMEOUT_MS,
{
}

} // verus!
