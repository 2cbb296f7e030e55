//! `Info` command: four bytes of chip status, such as the silicon
//! revision (`00 00 60 02` for an ATECC608B in its default clock mode).
use vstd::prelude::*;
use crate::atecc::command::{copy_bytes, spec_fixed_command};
use crate::atecc::driver::{Atecc, AteccChannel, spec_bytes_outcome, spec_delta, spec_extends};
use crate::atecc::error::{AteccError, AteccErrorKind};
use crate::atecc::hal::{AteccHal, HalOp};
use crate::atecc::opcodes::{EXEC_TIME_INFO_MS, OP_INFO};

verus! {

/// `param1` mode: the silicon revision.
pub const INFO_MODE_REVISION: u8 = 0x00;

/// `param1` mode: the key-valid bit of a slot.
pub const INFO_MODE_KEY_VALID: u8 = 0x01;

/// `param1` mode: the general device state.
pub const INFO_MODE_STATE: u8 = 0x02;

/// `param1` mode: the GPIO state byte.
pub const INFO_MODE_GPIO: u8 = 0x03;

/// `param1` mode: the persistent latch state.
pub const INFO_MODE_VOLATILE_KEY_PERMISSION: u8 = 0x04;

/// Trace and outcome of one Info command in mode `mode`.
pub open spec fn spec_info_command(addr: u8, mode: u8, d: Seq<HalOp>) -> Option<Result<Seq<u8>, AteccErrorKind>> {
    spec_fixed_command(addr, OP_INFO, mode, 0, Seq::empty(), EXEC_TIME_INFO_MS, 4, d)
}

impl<H: AteccHal> Atecc<H> {
    /// One Info command in mode `mode` on an awake chip.
    pub(crate) fn info_command(&mut self, mode: u8) -> (r: Result<[u8; 4], AteccError<H::Error>>)
        ensures
            final(self).address() == old(self).address(),
            spec_extends(old(self).bus_log(), final(self).bus_log()),
            spec_info_command(old(self).address(), mode, spec_delta(old(self).bus_log(), final(self).bus_log()))
                == Some(spec_bytes_outcome(r)),
    {
        let empty: [u8; 0] = [];
        assert(empty@ =~= Seq::<u8>::empty());
        let payload = self.execute_fixed(OP_INFO, mode, 0x0000, &empty, EXEC_TIME_INFO_MS, 4)?;
        let mut out = [0u8; 4];
        copy_bytes(&mut out, payload.as_slice());
        Ok(out)
    }
}

impl<'a, H: AteccHal> AteccChannel<'a, H> {
    /// Read the chip's four revision bytes: two reserved zero bytes, the
    /// device family, and the clock-divider variant.
    pub fn info_revision(&mut self) -> (r: Result<[u8; 4], AteccError<H::Error>>)
        ensures
            final(self).address() == old(self).address(),
            spec_extends(old(self).bus_log(), final(self).bus_log()),
            spec_info_command(old(self).address(), INFO_MODE_REVISION, spec_delta(old(self).bus_log(), final(self).bus_log()))
                == Some(spec_bytes_outcome(r)),
    {
        proof { self.lemma_view(); }
        let r = self.driver.info_command(INFO_MODE_REVISION);
        proof { self.lemma_view(); }
        r
    }

    /// Read the chip's four state bytes; only the low byte carries the
    /// lock and configuration bits.
    pub fn info_state(&mut self) -> (r: Result<[u8; 4], AteccError<H::Error>>)
        ensures
            final(self).address() == old(self).address(),
            spec_extends(old(self).bus_log(), final(self).bus_log()),
            spec_info_command(old(self).address(), INFO_MODE_STATE, spec_delta(old(self).bus_log(), final(self).bus_log()))
                == Some(spec_bytes_outcome(r)),
    {
        proof { self.lemma_view(); }
        let r = self.driver.info_command(INFO_MODE_STATE);
        proof { self.lemma_view(); }
        r
    }
}

} // verus!
