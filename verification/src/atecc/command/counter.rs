//! `Counter` command: read or increment one of the chip's two monotonic
//! counters. Counter0 backs the PIN slot and Counter1 the PUK slot; each
//! CheckMac against those slots bumps its counter.
use vstd::prelude::*;
use crate::atecc::command::spec_fixed_command;
use crate::atecc::driver::{Atecc, AteccChannel, spec_delta, spec_extends};
use crate::atecc::error::{AteccError, AteccErrorKind, spec_error_kind};
use crate::atecc::hal::{AteccHal, HalOp};
use crate::atecc::opcodes::{EXEC_TIME_COUNTER_MS, OP_COUNTER};

verus! {

/// `param1` mode: read the counter.
pub const COUNTER_MODE_READ: u8 = 0x00;

/// `param1` mode: increment the counter, then return its new value.
pub const COUNTER_MODE_INCREMENT: u8 = 0x01;

/// One of the chip's two monotonic counters.
#[derive(Debug, Clone, Copy, PartialEq, Eq, Structural)]
pub enum CounterId {
    /// Counter0, which tracks PIN attempts.
    Counter0,
    /// Counter1, which tracks PUK attempts.
    Counter1,
}

impl CounterId {
    /// The counter's `param2`.
    pub open spec fn spec_param2(self) -> u16 {
        match self {
            CounterId::Counter0 => 0x0000,
            CounterId::Counter1 => 0x0001,
        }
    }

    /// The counter's `param2`.
    pub fn as_param2(self) -> (r: u16)
        ensures
            r == self.spec_param2(),
    {
        match self {
            CounterId::Counter0 => 0x0000,
            CounterId::Counter1 => 0x0001,
        }
    }
}

/// The little-endian value of four bytes.
pub open spec fn spec_le_u32(b: Seq<u8>) -> u32 {
    (b[0] as int + b[1] as int * 0x100 + b[2] as int * 0x1_0000 + b[3] as int * 0x100_0000) as u32
}

/// Trace and outcome of one Counter command in mode `mode`: the counter
/// value, little-endian in the four payload bytes.
pub open spec fn spec_counter_command(addr: u8, mode: u8, counter: CounterId, d: Seq<HalOp>) -> Option<Result<u32, AteccErrorKind>> {
    match spec_fixed_command(addr, OP_COUNTER, mode, counter.spec_param2(), Seq::empty(), EXEC_TIME_COUNTER_MS, 4, d) {
        Some(Ok(p)) => Some(Ok(spec_le_u32(p))),
        Some(Err(e)) => Some(Err(e)),
        None => None,
    }
}

/// A counter value with the HAL payload of its error dropped.
pub open spec fn spec_u32_outcome<E>(r: Result<u32, AteccError<E>>) -> Result<u32, AteccErrorKind> {
    match r {
        Ok(v) => Ok(v),
        Err(e) => Err(spec_error_kind(e)),
    }
}

impl<H: AteccHal> Atecc<H> {
    /// One Counter command in mode `mode`.
    pub(crate) fn counter_internal(&mut self, mode: u8, counter: CounterId) -> (r: Result<u32, AteccError<H::Error>>)
        ensures
            final(self).address() == old(self).address(),
            spec_extends(old(self).bus_log(), final(self).bus_log()),
            spec_counter_command(old(self).address(), mode, counter, spec_delta(old(self).bus_log(), final(self).bus_log()))
                == Some(spec_u32_outcome(r)),
    {
        let empty: [u8; 0] = [];
        assert(empty@ =~= Seq::<u8>::empty());
        let p = self.execute_fixed(OP_COUNTER, mode, counter.as_param2(), &empty, EXEC_TIME_COUNTER_MS, 4)?;
        let value: u32 = p[0] as u32 + (p[1] as u32) * 0x100 + (p[2] as u32) * 0x1_0000 + (p[3] as u32) * 0x100_0000;
        Ok(value)
    }
}

impl<'a, H: AteccHal> AteccChannel<'a, H> {
    /// Read a counter without changing it.
    pub fn counter_read(&mut self, counter: CounterId) -> (r: Result<u32, AteccError<H::Error>>)
        ensures
            final(self).address() == old(self).address(),
            spec_extends(old(self).bus_log(), final(self).bus_log()),
            spec_counter_command(old(self).address(), COUNTER_MODE_READ, counter, spec_delta(old(self).bus_log(), final(self).bus_log()))
                == Some(spec_u32_outcome(r)),
    {
        proof { self.lemma_view(); }
        let r = self.driver.counter_internal(COUNTER_MODE_READ, counter);
        proof { self.lemma_view(); }
        r
    }

    /// Increment a counter by one and return its new value. The chip
    /// refuses once the counter has reached its maximum.
    pub fn counter_increment(&mut self, counter: CounterId) -> (r: Result<u32, AteccError<H::Error>>)
        ensures
            final(self).address() == old(self).address(),
            spec_extends(old(self).bus_log(), final(self).bus_log()),
            spec_counter_command(old(self).address(), COUNTER_MODE_INCREMENT, counter, spec_delta(old(self).bus_log(), final(self).bus_log()))
                == Some(spec_u32_outcome(r)),
    {
        proof { self.lemma_view(); }
        let r = self.driver.counter_internal(COUNTER_MODE_INCREMENT, counter);
        proof { self.lemma_view(); }
        r
    }
}

} // verus!
