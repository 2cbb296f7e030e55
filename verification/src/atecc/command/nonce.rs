//! `Nonce` command: load `TempKey` or the message digest buffer. The random
//! mode mixes a host number into the chip's RNG output and returns that
//! output; the passthrough mode loads a 32-byte value verbatim, as the
//! Sign and Verify commands need for an external digest.
use vstd::prelude::*;
use crate::atecc::command::{copy_bytes, spec_fixed_command};
use crate::atecc::driver::{
    Atecc, AteccChannel, spec_bytes_outcome, spec_delta, spec_extends, spec_status_command, spec_unit_outcome,
};
use crate::atecc::error::{AteccError, AteccErrorKind};
use crate::atecc::hal::{AteccHal, HalOp};
use crate::atecc::opcodes::{EXEC_TIME_NONCE_MS, OP_NONCE};

verus! {

/// Size of the host number of a random Nonce.
pub const NONCE_NUMIN_SIZE: usize = 20;

/// Size of the RNG output a random Nonce returns.
pub const NONCE_NUMOUT_SIZE: usize = 32;

/// Size of the value a passthrough Nonce loads.
pub const NONCE_PASSTHROUGH_SIZE: usize = 32;

/// `param1` mode: random, with the seed updated.
pub const NONCE_MODE_RANDOM: u8 = 0x00;

/// `param1` mode: passthrough of a host value.
pub const NONCE_MODE_PASSTHROUGH: u8 = 0x03;

/// `param1` bit that targets the message digest buffer instead of
/// `TempKey`.
pub const NONCE_TARGET_MSGDIGBUF_BIT: u8 = 0x40;

/// Where a passthrough Nonce stores its value.
#[derive(Debug, Clone, Copy, PartialEq, Eq, Structural)]
pub enum NonceTarget {
    /// The `TempKey` register, used by Verify.
    TempKey,
    /// The message digest buffer, used by Sign.
    MsgDigBuf,
}

impl NonceTarget {
    /// `param1` of a passthrough Nonce to this target.
    pub open spec fn spec_param1(self) -> u8 {
        match self {
            NonceTarget::TempKey => 0x03,
            NonceTarget::MsgDigBuf => 0x43,
        }
    }

    /// `param1` of a passthrough Nonce to this target.
    pub fn passthrough_param1(self) -> (r: u8)
        ensures
            r == self.spec_param1(),
    {
        match self {
            NonceTarget::TempKey => NONCE_MODE_PASSTHROUGH,
            NonceTarget::MsgDigBuf => {
                assert((0x03u8 | 0x40u8) == 0x43u8) by (bit_vector);
                NONCE_MODE_PASSTHROUGH | NONCE_TARGET_MSGDIGBUF_BIT
            },
        }
    }
}

/// Trace and outcome of one random Nonce with host number `num_in`.
pub open spec fn spec_nonce_random_command(addr: u8, num_in: Seq<u8>, d: Seq<HalOp>) -> Option<Result<Seq<u8>, AteccErrorKind>> {
    spec_fixed_command(addr, OP_NONCE, NONCE_MODE_RANDOM, 0, num_in, EXEC_TIME_NONCE_MS, NONCE_NUMOUT_SIZE as nat, d)
}

/// Trace and outcome of one passthrough Nonce of `value` to `target`.
pub open spec fn spec_nonce_passthrough_command(addr: u8, target: NonceTarget, value: Seq<u8>, d: Seq<HalOp>) -> Option<Result<(), AteccErrorKind>> {
    spec_status_command(addr, OP_NONCE, target.spec_param1(), 0, value, EXEC_TIME_NONCE_MS, d)
}

impl<H: AteccHal> Atecc<H> {
    /// One random Nonce on an awake chip.
    pub(crate) fn nonce_random_command(&mut self, num_in: &[u8; NONCE_NUMIN_SIZE]) -> (r: Result<[u8; NONCE_NUMOUT_SIZE], AteccError<H::Error>>)
        ensures
            final(self).address() == old(self).address(),
            spec_extends(old(self).bus_log(), final(self).bus_log()),
            spec_nonce_random_command(old(self).address(), num_in@, spec_delta(old(self).bus_log(), final(self).bus_log()))
                == Some(spec_bytes_outcome(r)),
    {
        let payload = self.execute_fixed(OP_NONCE, NONCE_MODE_RANDOM, 0x0000, num_in, EXEC_TIME_NONCE_MS, NONCE_NUMOUT_SIZE)?;
        let mut out = [0u8; NONCE_NUMOUT_SIZE];
        copy_bytes(&mut out, payload.as_slice());
        Ok(out)
    }

    /// One passthrough Nonce on an awake chip.
    pub(crate) fn nonce_passthrough_command(&mut self, target: NonceTarget, value: &[u8; NONCE_PASSTHROUGH_SIZE]) -> (r: Result<(), AteccError<H::Error>>)
        ensures
            final(self).address() == old(self).address(),
            spec_extends(old(self).bus_log(), final(self).bus_log()),
            spec_nonce_passthrough_command(old(self).address(), target, value@, spec_delta(old(self).bus_log(), final(self).bus_log()))
                == Some(spec_unit_outcome(r)),
    {
        self.execute_command_status(OP_NONCE, target.passthrough_param1(), 0x0000, value, EXEC_TIME_NONCE_MS)
    }
}

impl<'a, H: AteccHal> AteccChannel<'a, H> {
    /// Random Nonce: the chip combines `num_in` with its RNG output, loads
    /// `TempKey`, and returns the RNG output.
    pub fn nonce_random(&mut self, num_in: &[u8; NONCE_NUMIN_SIZE]) -> (r: Result<[u8; NONCE_NUMOUT_SIZE], AteccError<H::Error>>)
        ensures
            final(self).address() == old(self).address(),
            spec_extends(old(self).bus_log(), final(self).bus_log()),
            spec_nonce_random_command(old(self).address(), num_in@, spec_delta(old(self).bus_log(), final(self).bus_log()))
                == Some(spec_bytes_outcome(r)),
    {
        proof { self.lemma_view(); }
        let r = self.driver.nonce_random_command(num_in);
        proof { self.lemma_view(); }
        r
    }

    /// Passthrough Nonce: load `value` verbatim into `target`.
    pub fn nonce_passthrough(&mut self, target: NonceTarget, value: &[u8; NONCE_PASSTHROUGH_SIZE]) -> (r: Result<(), AteccError<H::Error>>)
        ensures
            final(self).address() == old(self).address(),
            spec_extends(old(self).bus_log(), final(self).bus_log()),
            spec_nonce_passthrough_command(old(self).address(), target, value@, spec_delta(old(self).bus_log(), final(self).bus_log()))
                == Some(spec_unit_outcome(r)),
    {
        proof { self.lemma_view(); }
        let r = self.driver.nonce_passthrough_command(target, value);
        proof { self.lemma_view(); }
        r
    }
}

} // verus!
