//! The token's state machine, the button debouncer, the LED animation and
//! the timers of the state task.

use mini_hsm::firmware::animation::{
    ALTERNATE_INTERVAL_MS, SLOW_PULSE_INTERVAL_MS, STEADY_INTERVAL_MS, apply_pattern, led_frame,
};
use mini_hsm::firmware::io::{Button, DEBOUNCE_STABLE_SAMPLES, Debouncer, Led, sample_once};
use mini_hsm::firmware::state_machine::{ERROR_DISPLAY_MS, Event, LedPattern, TOUCH_TIMEOUT_MS, TokenState};
use mini_hsm::firmware::timers::{IDLE_WAKE_MS, derive_timer_event, earliest, state_step, update_timers};
use mini_hsm::service::session::SESSION_TIMEOUT_MS;

#[derive(Debug, Clone, PartialEq, Eq)]
struct MockLed {
    state: bool,
    transitions: u32,
}

impl MockLed {
    fn new() -> Self {
        Self { state: false, transitions: 0 }
    }
}

impl Led for MockLed {
    fn lit(&self) -> bool {
        self.state
    }

    fn on(&mut self) {
        if !self.state {
            self.transitions += 1;
        }
        self.state = true;
    }

    fn off(&mut self) {
        if self.state {
            self.transitions += 1;
        }
        self.state = false;
    }
}

struct MockButton {
    pressed: bool,
}

impl MockButton {
    fn new(pressed: bool) -> Self {
        Self { pressed }
    }
}

impl Button for MockButton {
    fn is_pressed_raw(&self) -> bool {
        self.pressed
    }
}

// ---------------------------------------------------------------- debouncer

#[test]
fn debouncer_holds_initial_state_until_threshold() {
    let mut d = Debouncer::new(false);
    for _ in 0..4 {
        assert_eq!(d.sample(true), None);
    }
    assert_eq!(d.sample(true), Some(true));
    assert!(d.stable());
}

#[test]
fn debouncer_ignores_brief_noise() {
    let mut d = Debouncer::new(false);
    for _ in 0..10 {
        assert_eq!(d.sample(true), None);
        assert_eq!(d.sample(false), None);
    }
    assert!(!d.stable());
}

#[test]
fn debouncer_resets_counter_on_revert() {
    let mut d = Debouncer::new(false);
    for _ in 0..3 {
        assert_eq!(d.sample(true), None);
    }
    assert_eq!(d.sample(false), None);
    for _ in 0..4 {
        assert_eq!(d.sample(true), None);
    }
    assert_eq!(d.sample(true), Some(true));
}

#[test]
fn debouncer_handles_release_after_press() {
    let mut d = Debouncer::new(false);
    for _ in 0..4 {
        d.sample(true);
    }
    assert_eq!(d.sample(true), Some(true));
    for _ in 0..4 {
        assert_eq!(d.sample(false), None);
    }
    assert_eq!(d.sample(false), Some(false));
}

#[test]
fn debouncer_reports_a_change_once_per_run() {
    let mut d = Debouncer::new(false);
    for _ in 0..4 {
        assert_eq!(d.sample(true), None);
    }
    assert_eq!(d.sample(true), Some(true));
    for _ in 0..12 {
        assert_eq!(d.sample(true), None);
        assert!(d.stable());
    }
}

#[test]
fn debouncer_starting_pressed_reports_release() {
    let mut d = Debouncer::new(true);
    assert!(d.stable());
    for _ in 0..(DEBOUNCE_STABLE_SAMPLES - 1) {
        assert_eq!(d.sample(false), None);
    }
    assert_eq!(d.sample(false), Some(false));
    assert!(!d.stable());
}

#[test]
fn mock_led_tracks_transitions() {
    let mut led = MockLed::new();
    led.on();
    led.on();
    led.off();
    assert_eq!(led.transitions, 2);
    assert!(!led.state);
}

#[test]
fn mock_button_returns_configured_state() {
    let pressed = MockButton::new(true);
    let released = MockButton::new(false);
    assert!(pressed.is_pressed_raw());
    assert!(!released.is_pressed_raw());
}

#[test]
fn sample_once_does_not_post_on_no_transition() {
    let button = MockButton { pressed: false };
    let mut debouncer = Debouncer::new(false);
    for _ in 0..(DEBOUNCE_STABLE_SAMPLES + 2) {
        assert_eq!(sample_once(&button, &mut debouncer), None);
    }
    assert!(!debouncer.stable());
}

#[test]
fn sample_once_promotes_after_stable_count() {
    let button = MockButton { pressed: true };
    let mut debouncer = Debouncer::new(false);
    for _ in 0..(DEBOUNCE_STABLE_SAMPLES - 1) {
        assert_eq!(sample_once(&button, &mut debouncer), None);
        assert!(!debouncer.stable());
    }
    assert_eq!(sample_once(&button, &mut debouncer), Some(Event::TouchPressed));
    assert!(debouncer.stable());
}

#[test]
fn sample_once_does_not_post_a_release() {
    let button = MockButton { pressed: false };
    let mut debouncer = Debouncer::new(true);
    for _ in 0..DEBOUNCE_STABLE_SAMPLES {
        assert_eq!(sample_once(&button, &mut debouncer), None);
    }
    assert!(!debouncer.stable());
}

// ---------------------------------------------------------------- state machine

#[test]
fn led_pattern_per_state() {
    assert_eq!(TokenState::Booting.led_pattern(), LedPattern::YellowBlink);
    assert_eq!(TokenState::Idle.led_pattern(), LedPattern::GreenSolid);
    assert_eq!(TokenState::Authenticated.led_pattern(), LedPattern::GreenSlowPulse);
    assert_eq!(TokenState::WaitingForTouch.led_pattern(), LedPattern::YellowSolid);
    assert_eq!(TokenState::Signing.led_pattern(), LedPattern::AlternateBoth);
    assert_eq!(TokenState::Error.led_pattern(), LedPattern::GreenFastBlink);
}

#[test]
fn happy_path_boot_to_signed() {
    let s = TokenState::initial();
    assert_eq!(s, TokenState::Booting);
    let s = s.on_event(Event::BootComplete);
    assert_eq!(s, TokenState::Idle);
    let s = s.on_event(Event::PinVerified);
    assert_eq!(s, TokenState::Authenticated);
    let s = s.on_event(Event::SignRequested);
    assert_eq!(s, TokenState::WaitingForTouch);
    let s = s.on_event(Event::TouchPressed);
    assert_eq!(s, TokenState::Signing);
    let s = s.on_event(Event::SignComplete);
    assert_eq!(s, TokenState::Authenticated);
}

#[test]
fn touch_timeout_returns_to_authenticated() {
    let s = TokenState::Authenticated.on_event(Event::SignRequested).on_event(Event::TouchTimeout);
    assert_eq!(s, TokenState::Authenticated);
}

#[test]
fn session_expiry_returns_to_idle_from_authenticated() {
    assert_eq!(TokenState::Authenticated.on_event(Event::SessionEnded), TokenState::Idle);
}

#[test]
fn session_expiry_returns_to_idle_from_waiting_for_touch() {
    assert_eq!(TokenState::WaitingForTouch.on_event(Event::SessionEnded), TokenState::Idle);
}

#[test]
fn sign_request_ignored_outside_authenticated() {
    for s in [TokenState::Booting, TokenState::Idle, TokenState::WaitingForTouch, TokenState::Signing, TokenState::Error] {
        assert_eq!(s.on_event(Event::SignRequested), s, "sign request from {:?} should be a no-op", s);
    }
}

#[test]
fn touch_press_ignored_outside_waiting() {
    for s in [TokenState::Booting, TokenState::Idle, TokenState::Authenticated, TokenState::Signing, TokenState::Error] {
        assert_eq!(s.on_event(Event::TouchPressed), s, "touch press from {:?} should be a no-op", s);
    }
}

#[test]
fn error_event_overrides_any_state() {
    for s in [
        TokenState::Booting,
        TokenState::Idle,
        TokenState::Authenticated,
        TokenState::WaitingForTouch,
        TokenState::Signing,
        TokenState::Error,
    ] {
        assert_eq!(s.on_event(Event::ErrorRaised), TokenState::Error, "{:?} should transition to Error", s);
    }
}

#[test]
fn error_display_elapsed_returns_to_idle() {
    assert_eq!(TokenState::Error.on_event(Event::ErrorDisplayElapsed), TokenState::Idle);
}

#[test]
fn error_display_elapsed_outside_error_is_noop() {
    for s in [
        TokenState::Booting,
        TokenState::Idle,
        TokenState::Authenticated,
        TokenState::WaitingForTouch,
        TokenState::Signing,
    ] {
        assert_eq!(s.on_event(Event::ErrorDisplayElapsed), s, "ErrorDisplayElapsed from {:?} should be a no-op", s);
    }
}

#[test]
fn repeated_pin_verified_stays_authenticated() {
    let s = TokenState::Idle
        .on_event(Event::PinVerified)
        .on_event(Event::PinVerified)
        .on_event(Event::PinVerified);
    assert_eq!(s, TokenState::Authenticated);
}

#[test]
fn repeated_session_ended_stays_idle() {
    let s = TokenState::Idle.on_event(Event::SessionEnded).on_event(Event::SessionEnded);
    assert_eq!(s, TokenState::Idle);
}

#[test]
fn timeout_constants_are_reasonable() {
    assert_eq!(TOUCH_TIMEOUT_MS, 30_000);
    assert!(ERROR_DISPLAY_MS < TOUCH_TIMEOUT_MS);
}

#[test]
fn signing_is_reached_only_through_a_touch_while_waiting() {
    let all_states = [
        TokenState::Booting,
        TokenState::Idle,
        TokenState::Authenticated,
        TokenState::WaitingForTouch,
        TokenState::Signing,
        TokenState::Error,
    ];
    let all_events = [
        Event::BootComplete,
        Event::PinVerified,
        Event::SessionEnded,
        Event::SignRequested,
        Event::TouchPressed,
        Event::TouchTimeout,
        Event::SignComplete,
        Event::ErrorRaised,
        Event::ErrorDisplayElapsed,
    ];
    for s in all_states {
        for e in all_events {
            let n = s.on_event(e);
            if n == TokenState::Signing && s != TokenState::Signing {
                assert_eq!((s, e), (TokenState::WaitingForTouch, Event::TouchPressed));
            }
            if n == TokenState::WaitingForTouch && s != TokenState::WaitingForTouch {
                assert_eq!(s, TokenState::Authenticated);
            }
        }
    }
}

// ---------------------------------------------------------------- animation

#[test]
fn alternate_pattern_lights_one_led_at_a_time() {
    let mut green = MockLed::new();
    let mut yellow = MockLed::new();
    let wait = apply_pattern(LedPattern::AlternateBoth, true, &mut green, &mut yellow);
    assert_eq!(wait, ALTERNATE_INTERVAL_MS);
    assert!(green.state && !yellow.state);
    apply_pattern(LedPattern::AlternateBoth, false, &mut green, &mut yellow);
    assert!(!green.state && yellow.state);
}

#[test]
fn steady_and_pulsing_frames() {
    let f = led_frame(LedPattern::GreenSolid, false);
    assert!(f.green && !f.yellow);
    assert_eq!(f.interval_ms, STEADY_INTERVAL_MS);
    let f = led_frame(LedPattern::GreenSlowPulse, false);
    assert!(!f.green && !f.yellow);
    assert_eq!(f.interval_ms, SLOW_PULSE_INTERVAL_MS);
    let f = led_frame(LedPattern::AllOff, true);
    assert!(!f.green && !f.yellow);
}

// ---------------------------------------------------------------- timers

#[test]
fn earliest_picks_the_first_deadline_or_an_hour() {
    assert_eq!(earliest(Some(10), Some(5), 0), 5);
    assert_eq!(earliest(Some(10), None, 0), 10);
    assert_eq!(earliest(None, Some(7), 0), 7);
    assert_eq!(earliest(None, None, 100), 100 + IDLE_WAKE_MS);
    assert_eq!(earliest(None, None, u64::MAX - 1), u64::MAX);
}

#[test]
fn timer_event_prefers_the_session_deadline() {
    let mut session = Some(100);
    let mut error = Some(50);
    assert_eq!(derive_timer_event(100, &mut session, &mut error), Event::SessionEnded);
    assert_eq!(session, None);
    assert_eq!(error, Some(50));
    assert_eq!(derive_timer_event(100, &mut session, &mut error), Event::ErrorDisplayElapsed);
    assert_eq!(error, None);
}

#[test]
fn timer_event_without_a_passed_deadline_ends_the_session() {
    let mut session = Some(200);
    let mut error = None;
    assert_eq!(derive_timer_event(100, &mut session, &mut error), Event::SessionEnded);
    assert_eq!(session, Some(200));
}

#[test]
fn timers_follow_the_state() {
    let mut session = None;
    let mut error = None;
    update_timers(TokenState::Authenticated, Event::PinVerified, 1_000, &mut session, &mut error);
    assert_eq!(session, Some(1_000 + SESSION_TIMEOUT_MS));
    assert_eq!(error, None);
    // Activity restarts the session timer; a timeout does not.
    update_timers(TokenState::Authenticated, Event::TouchTimeout, 2_000, &mut session, &mut error);
    assert_eq!(session, Some(1_000 + SESSION_TIMEOUT_MS));
    update_timers(TokenState::WaitingForTouch, Event::SignRequested, 3_000, &mut session, &mut error);
    assert_eq!(session, Some(3_000 + SESSION_TIMEOUT_MS));
    update_timers(TokenState::Error, Event::ErrorRaised, 4_000, &mut session, &mut error);
    assert_eq!(session, None);
    assert_eq!(error, Some(4_000 + ERROR_DISPLAY_MS));
    update_timers(TokenState::Error, Event::ErrorRaised, 4_500, &mut session, &mut error);
    assert_eq!(error, Some(4_000 + ERROR_DISPLAY_MS));
    update_timers(TokenState::Idle, Event::ErrorDisplayElapsed, 9_000, &mut session, &mut error);
    assert_eq!(error, None);
}

#[test]
fn state_step_confirms_only_the_touch() {
    let mut session = None;
    let mut error = None;
    let out = state_step(TokenState::Authenticated, Event::SignRequested, 10, &mut session, &mut error);
    assert_eq!(out.next, TokenState::WaitingForTouch);
    assert!(out.changed && !out.confirm_touch);
    let out = state_step(out.next, Event::TouchPressed, 20, &mut session, &mut error);
    assert_eq!(out.next, TokenState::Signing);
    assert!(out.changed && out.confirm_touch);
    assert_eq!(session, Some(20 + SESSION_TIMEOUT_MS));
    let out = state_step(out.next, Event::TouchPressed, 30, &mut session, &mut error);
    assert!(!out.changed && !out.confirm_touch);
}
