//! `Random` command: 32 bytes from the chip's hardware RNG, reseeded first.
use vstd::prelude::*;
use crate::atecc::command::{copy_bytes, lemma_wake_then, spec_fixed_command, spec_wake_then};
use crate::atecc::driver::{
    Atecc, AteccChannel, spec_bytes_outcome, spec_delta, spec_extends,
};
use crate::atecc::error::{AteccError, AteccErrorKind};
use crate::atecc::hal::{AteccHal, HalOp};
use crate::atecc::opcodes::{EXEC_TIME_RANDOM_MS, OP_RANDOM};
use crate::atecc::wake::wake;

verus! {

/// Number of bytes one Random command returns.
pub const RANDOM_OUTPUT_LEN: usize = 32;

/// `param1` of Random: reseed the RNG before producing the output.
pub const RANDOM_MODE_SEED_UPDATE: u8 = 0x00;

/// Trace and outcome of one Random command.
pub open spec fn spec_random_command(addr: u8, d: Seq<HalOp>) -> Option<Result<Seq<u8>, AteccErrorKind>> {
    spec_fixed_command(addr, OP_RANDOM, RANDOM_MODE_SEED_UPDATE, 0, Seq::empty(), EXEC_TIME_RANDOM_MS, RANDOM_OUTPUT_LEN as nat, d)
}

impl<H: AteccHal> Atecc<H> {
    /// One Random command on an awake chip.
    pub(crate) fn random_command(&mut self) -> (r: Result<[u8; RANDOM_OUTPUT_LEN], AteccError<H::Error>>)
        ensures
            final(self).address() == old(self).address(),
            spec_extends(old(self).bus_log(), final(self).bus_log()),
            spec_random_command(old(self).address(), spec_delta(old(self).bus_log(), final(self).bus_log()))
                == Some(spec_bytes_outcome(r)),
    {
        let empty: [u8; 0] = [];
        assert(empty@ =~= Seq::<u8>::empty());
        let payload = self.execute_fixed(OP_RANDOM, RANDOM_MODE_SEED_UPDATE, 0x0000, &empty, EXEC_TIME_RANDOM_MS, RANDOM_OUTPUT_LEN)?;
        let mut out = [0u8; RANDOM_OUTPUT_LEN];
        copy_bytes(&mut out, payload.as_slice());
        Ok(out)
    }
}

impl<'a, H: AteccHal> AteccChannel<'a, H> {
    /// Ask the chip for 32 random bytes.
    pub fn random(&mut self) -> (r: Result<[u8; RANDOM_OUTPUT_LEN], AteccError<H::Error>>)
        ensures
            final(self).address() == old(self).address(),
            spec_extends(old(self).bus_log(), final(self).bus_log()),
            spec_random_command(old(self).address(), spec_delta(old(self).bus_log(), final(self).bus_log()))
                == Some(spec_bytes_outcome(r)),
    {
        proof { self.lemma_view(); }
        let r = self.driver.random_command();
        proof { self.lemma_view(); }
        r
    }
}

impl<H: AteccHal> Atecc<H> {
    /// Wake the chip and ask it for 32 random bytes. The chip is left awake.
    pub fn random(&mut self) -> (r: Result<[u8; RANDOM_OUTPUT_LEN], AteccError<H::Error>>)
        ensures
            final(self).address() == old(self).address(),
            spec_extends(old(self).bus_log(), final(self).bus_log()),
            spec_wake_then(
                old(self).address(), spec_delta(old(self).bus_log(), final(self).bus_log()),
                |d: Seq<HalOp>| spec_random_command(old(self).address(), d), spec_bytes_outcome(r),
            ),
    {
        let ghost start = self.bus_log();
        let ghost addr = self.address();
        match wake(self) {
            Ok(()) => {},
            Err(e) => return Err(e),
        }
        let ghost mid = self.bus_log();
        let r = self.random_command();
        proof {
            lemma_wake_then(addr, start, mid, self.bus_log(), |d: Seq<HalOp>| spec_random_command(addr, d), spec_bytes_outcome(r));
        }
        r
    }
}

} // verus!
