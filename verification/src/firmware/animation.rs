//! LED animation: what each pattern shows on a given tick, and for how
//! long until the next tick.
use vstd::prelude::*;
use crate::firmware::io::Led;
use crate::firmware::state_machine::{LedPattern, TokenState, spec_led_pattern};

verus! {

/// Tick of the slow green pulse, in milliseconds.
pub const SLOW_PULSE_INTERVAL_MS: u64 = 500;

/// Tick of the fast green blink.
pub const FAST_BLINK_INTERVAL_MS: u64 = 100;

/// Tick of the yellow blink.
pub const YELLOW_BLINK_INTERVAL_MS: u64 = 250;

/// Tick of the green and yellow alternation.
pub const ALTERNATE_INTERVAL_MS: u64 = 100;

/// How long a steady pattern waits before it is drawn again.
pub const STEADY_INTERVAL_MS: u64 = 60_000;

/// One animation step: both LED levels and the wait until the next step.
#[derive(Debug, Clone, Copy, PartialEq, Eq, Structural)]
pub struct LedFrame {
    /// Green LED on.
    pub green: bool,
    /// Yellow LED on.
    pub yellow: bool,
    /// Milliseconds until the next step.
    pub interval_ms: u64,
}

/// The frame of `pattern` on a high or low tick.
pub open spec fn spec_led_frame(pattern: LedPattern, tick_high: bool) -> LedFrame {
    match pattern {
        LedPattern::AllOff => LedFrame { green: false, yellow: false, interval_ms: STEADY_INTERVAL_MS },
        LedPattern::GreenSolid => LedFrame { green: true, yellow: false, interval_ms: STEADY_INTERVAL_MS },
        LedPattern::GreenSlowPulse => LedFrame { green: tick_high, yellow: false, interval_ms: SLOW_PULSE_INTERVAL_MS },
        LedPattern::GreenFastBlink => LedFrame { green: tick_high, yellow: false, interval_ms: FAST_BLINK_INTERVAL_MS },
        LedPattern::YellowSolid => LedFrame { green: false, yellow: true, interval_ms: STEADY_INTERVAL_MS },
        LedPattern::YellowBlink => LedFrame { green: false, yellow: tick_high, interval_ms: YELLOW_BLINK_INTERVAL_MS },
        LedPattern::AlternateBoth => LedFrame { green: tick_high, yellow: !tick_high, interval_ms: ALTERNATE_INTERVAL_MS },
    }
}

/// The frame of `pattern` on a high or low tick.
pub fn led_frame(pattern: LedPattern, tick_high: bool) -> (r: LedFrame)
    ensures
        r == spec_led_frame(pattern, tick_high),
{
    match pattern {
        LedPattern::AllOff => LedFrame { green: false, yellow: false, interval_ms: STEADY_INTERVAL_MS },
        LedPattern::GreenSolid => LedFrame { green: true, yellow: false, interval_ms: STEADY_INTERVAL_MS },
        LedPattern::GreenSlowPulse => LedFrame { green: tick_high, yellow: false, interval_ms: SLOW_PULSE_INTERVAL_MS },
        LedPattern::GreenFastBlink => LedFrame { green: tick_high, yellow: false, interval_ms: FAST_BLINK_INTERVAL_MS },
        LedPattern::YellowSolid => LedFrame { green: false, yellow: true, interval_ms: STEADY_INTERVAL_MS },
        LedPattern::YellowBlink => LedFrame { green: false, yellow: tick_high, interval_ms: YELLOW_BLINK_INTERVAL_MS },
        LedPattern::AlternateBoth => LedFrame { green: tick_high, yellow: !tick_high, interval_ms: ALTERNATE_INTERVAL_MS },
    }
}

/// Draw one step of `pattern` on the two LEDs; returns the wait until the
/// next step.
pub fn apply_pattern<G: Led, Y: Led>(pattern: LedPattern, tick_high: bool, led_green: &mut G, led_yellow: &mut Y) -> (r: u64)
    ensures
        r == spec_led_frame(pattern, tick_high).interval_ms,
        final(led_green).lit() == spec_led_frame(pattern, tick_high).green,
        final(led_yellow).lit() == spec_led_frame(pattern, tick_high).yellow,
{
    let frame = led_frame(pattern, tick_high);
    if frame.green {
        led_green.on();
    } else {
        led_green.off();
    }
    if frame.yellow {
        led_yellow.on();
    } else {
        led_yellow.off();
    }
    frame.interval_ms
}

/// Alternation always lights exactly one of the two LEDs.
pub proof fn lemma_alternation_lights_one(tick_high: bool)
    ensures
        spec_led_frame(LedPattern::AlternateBoth, tick_high).green != spec_led_frame(LedPattern::AlternateBoth, tick_high).yellow,
{
}

/// What the token shows in each state, on every tick: idle is steady
/// green; waiting for the touch is steady yellow with green off; an open
/// session pulses green slowly and an error blinks it fast, both with
/// yellow off; signing alternates the two LEDs, one lit at a time; booting
/// blinks yellow with green off. Steady looks are redrawn once a minute.
pub proof fn lemma_state_looks(tick: bool)
    ensures
        ({
            let f = spec_led_frame(spec_led_pattern(TokenState::Idle), tick);
            f.green && !f.yellow && f.interval_ms == 60_000
        }),
        ({
            let f = spec_led_frame(spec_led_pattern(TokenState::WaitingForTouch), tick);
            !f.green && f.yellow && f.interval_ms == 60_000
        }),
        ({
            let f = spec_led_frame(spec_led_pattern(TokenState::Authenticated), tick);
            f.green == tick && !f.yellow && f.interval_ms == 500
        }),
        ({
            let f = spec_led_frame(spec_led_pattern(TokenState::Error), tick);
            f.green == tick && !f.yellow && f.interval_ms == 100
        }),
        ({
            let f = spec_led_frame(spec_led_pattern(TokenState::Signing), tick);
            f.green == tick && f.yellow == !tick && f.interval_ms == 100
        }),
        ({
            let f = spec_led_frame(spec_led_pattern(TokenState::Booting), tick);
            !f.green && f.yellow == tick && f.interval_ms == 250
        }),
        ({
            let f = spec_led_frame(LedPattern::AllOff, tick);
            !f.green && !f.yellow && f.interval_ms == 60_000
        }),
{
}

/// Waiting for the touch never looks like idle: on any two ticks the two
/// frames differ in both LEDs.
pub proof fn lemma_touch_prompt_differs_from_idle(t1: bool, t2: bool)
    ensures
        spec_led_frame(spec_led_pattern(TokenState::WaitingForTouch), t1).green
            != spec_led_frame(spec_led_pattern(TokenState::Idle), t2).green,
        spec_led_frame(spec_led_pattern(TokenState::WaitingForTouch), t1).yellow
            != spec_led_frame(spec_led_pattern(TokenState::Idle), t2).yellow,
{
}

} // verus!
