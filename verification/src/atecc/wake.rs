//! Wake, idle and sleep sequences.
use vstd::prelude::*;
use crate::atecc::driver::{Atecc, spec_unit_outcome, spec_extends, spec_delta};
use crate::atecc::error::{AteccError, AteccErrorKind, spec_error_kind};
use crate::atecc::hal::{AteccHal, HalOp};
use crate::atecc::opcodes::{WAKE_DELAY_US, WAKE_LOW_DURATION_US, WORD_ADDRESS_IDLE, WORD_ADDRESS_SLEEP};

verus! {

/// The four bytes a healthy chip answers to a wake pulse.
pub open spec fn spec_wake_response_ok() -> Seq<u8> {
    seq![0x04u8, 0x11u8, 0x33u8, 0x43u8]
}

/// The four bytes a chip in self-test failure answers to a wake pulse.
pub open spec fn spec_wake_response_selftest_fail() -> Seq<u8> {
    seq![0x04u8, 0x07u8, 0xC4u8, 0x40u8]
}

/// What the wake sequence returns, given the HAL calls it made; `None`
/// when `d` is not a trace the sequence can produce.
pub open spec fn spec_wake_outcome(addr: u8, d: Seq<HalOp>) -> Option<Result<(), AteccErrorKind>> {
    if d.len() == 1 && d[0] == (HalOp::PulseSdaLow { duration_us: WAKE_LOW_DURATION_US, ok: false }) {
        Some(Err(AteccErrorKind::Hal))
    } else if d.len() == 3
        && d[0] == (HalOp::PulseSdaLow { duration_us: WAKE_LOW_DURATION_US, ok: true })
        && d[1] == (HalOp::DelayUs { duration_us: WAKE_DELAY_US }) {
        match d[2] {
            HalOp::I2cRead { addr: a, data, ok } => {
                if a != addr || data.len() != 4 {
                    None
                } else if !ok {
                    Some(Err(AteccErrorKind::Hal))
                } else if data == spec_wake_response_ok() {
                    Some(Ok(()))
                } else if data == spec_wake_response_selftest_fail() {
                    Some(Err(AteccErrorKind::SelfTestFailure))
                } else {
                    Some(Err(AteccErrorKind::WakeFailed))
                }
            },
            _ => None,
        }
    } else {
        None
    }
}

/// What sending a one-byte token returns, given the HAL calls it made.
pub open spec fn spec_token_outcome(addr: u8, token: u8, d: Seq<HalOp>) -> Option<Result<(), AteccErrorKind>> {
    if d.len() == 1 {
        match d[0] {
            HalOp::I2cWrite { addr: a, data, ok } => {
                if a == addr && data == seq![token] {
                    Some(if ok { Ok(()) } else { Err(AteccErrorKind::Hal) })
                } else {
                    None
                }
            },
            _ => None,
        }
    } else {
        None
    }
}

/// Wake the chip: pulse SDA low, wait for it to come up, then check its
/// four-byte answer against the healthy and self-test-failure patterns.
pub fn wake<H: AteccHal>(atecc: &mut Atecc<H>) -> (r: Result<(), AteccError<H::Error>>)
    ensures
        final(atecc).address() == old(atecc).address(),
        spec_extends(old(atecc).bus_log(), final(atecc).bus_log()),
        spec_wake_outcome(old(atecc).address(), spec_delta(old(atecc).bus_log(), final(atecc).bus_log()))
            == Some(spec_unit_outcome(r)),
{
    let ghost start = atecc.bus_log();
    let ghost addr = atecc.address();
    match atecc.bus_pulse(WAKE_LOW_DURATION_US) {
        Ok(()) => {},
        Err(e) => {
            assert(spec_delta(start, atecc.bus_log()) =~= seq![HalOp::PulseSdaLow { duration_us: WAKE_LOW_DURATION_US, ok: false }]);
            assert(atecc.bus_log().take(start.len() as int) =~= start);
            return Err(AteccError::Hal(e));
        },
    }
    atecc.bus_delay_us(WAKE_DELAY_US);
    let mut response = [0u8; 4];
    let rr = atecc.bus_read(&mut response);
    let ghost d = spec_delta(start, atecc.bus_log());
    assert(d =~= seq![
        HalOp::PulseSdaLow { duration_us: WAKE_LOW_DURATION_US, ok: true },
        HalOp::DelayUs { duration_us: WAKE_DELAY_US },
        HalOp::I2cRead { addr, data: response@, ok: rr is Ok },
    ]);
    assert(atecc.bus_log().take(start.len() as int) =~= start);
    match rr {
        Ok(()) => {},
        Err(e) => return Err(AteccError::Hal(e)),
    }
    let is_ok = response[0] == 0x04 && response[1] == 0x11 && response[2] == 0x33 && response[3] == 0x43;
    let is_selftest = response[0] == 0x04 && response[1] == 0x07 && response[2] == 0xC4 && response[3] == 0x40;
    proof {
        if is_ok {
            assert(response@ =~= spec_wake_response_ok());
        } else {
            assert(response@ != spec_wake_response_ok()) by {
                if response@ == spec_wake_response_ok() {
                    assert(response@[0] == 0x04 && response@[1] == 0x11 && response@[2] == 0x33 && response@[3] == 0x43);
                }
            }
        }
        if is_selftest {
            assert(response@ =~= spec_wake_response_selftest_fail());
        } else {
            assert(response@ != spec_wake_response_selftest_fail()) by {
                if response@ == spec_wake_response_selftest_fail() {
                    assert(response@[0] == 0x04 && response@[1] == 0x07 && response@[2] == 0xC4 && response@[3] == 0x40);
                }
            }
        }
    }
    if is_ok {
        Ok(())
    } else if is_selftest {
        Err(AteccError::SelfTestFailure)
    } else {
        Err(AteccError::WakeFailed)
    }
}

/// Send the idle token: the chip keeps its volatile state.
pub fn idle<H: AteccHal>(atecc: &mut Atecc<H>) -> (r: Result<(), AteccError<H::Error>>)
    ensures
        final(atecc).address() == old(atecc).address(),
        spec_extends(old(atecc).bus_log(), final(atecc).bus_log()),
        spec_token_outcome(old(atecc).address(), WORD_ADDRESS_IDLE, spec_delta(old(atecc).bus_log(), final(atecc).bus_log()))
            == Some(spec_unit_outcome(r)),
{
    send_token(atecc, WORD_ADDRESS_IDLE)
}

/// Send the sleep token: the chip clears its volatile state.
pub fn sleep<H: AteccHal>(atecc: &mut Atecc<H>) -> (r: Result<(), AteccError<H::Error>>)
    ensures
        final(atecc).address() == old(atecc).address(),
        spec_extends(old(atecc).bus_log(), final(atecc).bus_log()),
        spec_token_outcome(old(atecc).address(), WORD_ADDRESS_SLEEP, spec_delta(old(atecc).bus_log(), final(atecc).bus_log()))
            == Some(spec_unit_outcome(r)),
{
    send_token(atecc, WORD_ADDRESS_SLEEP)
}

fn send_token<H: AteccHal>(atecc: &mut Atecc<H>, token: u8) -> (r: Result<(), AteccError<H::Error>>)
    ensures
        final(atecc).address() == old(atecc).address(),
        spec_extends(old(atecc).bus_log(), final(atecc).bus_log()),
        spec_token_outcome(old(atecc).address(), token, spec_delta(old(atecc).bus_log(), final(atecc).bus_log()))
            == Some(spec_unit_outcome(r)),
{
    let ghost start = atecc.bus_log();
    let buf = [token];
    let r = atecc.bus_write(&buf);
    assert(buf@ =~= seq![token]);
    assert(spec_delta(start, atecc.bus_log()) =~= seq![HalOp::I2cWrite { addr: atecc.address(), data: buf@, ok: r is Ok }]);
    assert(atecc.bus_log().take(start.len() as int) =~= start);
    match r {
        Ok(()) => Ok(()),
        Err(e) => Err(AteccError::Hal(e)),
    }
}

} // verus!
