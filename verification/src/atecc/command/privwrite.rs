//! `PrivWrite` command, cleartext form: load a P-256 private scalar from
//! the host into a slot. The chip accepts it only while the data zone is
//! unlocked; the user identity keys are generated on chip instead.
use vstd::prelude::*;
use crate::atecc::command::write_at;
use crate::atecc::driver::{Atecc, AteccChannel, spec_delta, spec_extends, spec_status_command, spec_unit_outcome};
use crate::atecc::error::{AteccError, AteccErrorKind};
use crate::atecc::hal::{AteccHal, HalOp};
use crate::atecc::opcodes::{EXEC_TIME_PRIVWRITE_MS, OP_PRIVWRITE};
use crate::atecc::slot::Slot;

verus! {

/// Cleartext data field: four zero bytes, then the 32-byte scalar.
pub const PRIVWRITE_CLEARTEXT_SIZE: usize = 36;

/// `param1` of a cleartext PrivWrite.
pub const PRIVWRITE_MODE_CLEARTEXT: u8 = 0x00;

/// Data field of a cleartext PrivWrite of `key`.
pub open spec fn spec_privwrite_data(key: Seq<u8>) -> Seq<u8> {
    seq![0u8, 0u8, 0u8, 0u8] + key
}

/// Trace and outcome of one cleartext PrivWrite.
pub open spec fn spec_privwrite_command(addr: u8, slot: u8, key: Seq<u8>, d: Seq<HalOp>) -> Option<Result<(), AteccErrorKind>> {
    spec_status_command(addr, OP_PRIVWRITE, PRIVWRITE_MODE_CLEARTEXT, slot as u16, spec_privwrite_data(key), EXEC_TIME_PRIVWRITE_MS, d)
}

impl<H: AteccHal> Atecc<H> {
    /// One cleartext PrivWrite on an awake chip.
    pub(crate) fn privwrite_cleartext_command(&mut self, slot: Slot, private_key: &[u8; 32]) -> (r: Result<(), AteccError<H::Error>>)
        ensures
            final(self).address() == old(self).address(),
            spec_extends(old(self).bus_log(), final(self).bus_log()),
            spec_privwrite_command(old(self).address(), slot.index(), private_key@,
                spec_delta(old(self).bus_log(), final(self).bus_log())) == Some(spec_unit_outcome(r)),
    {
        let mut data = [0u8; PRIVWRITE_CLEARTEXT_SIZE];
        write_at(&mut data, 4, private_key);
        assert(data@ =~= spec_privwrite_data(private_key@));
        self.execute_command_status(OP_PRIVWRITE, PRIVWRITE_MODE_CLEARTEXT, slot.as_u8() as u16, &data, EXEC_TIME_PRIVWRITE_MS)
    }
}

impl<'a, H: AteccHal> AteccChannel<'a, H> {
    /// Write the 32-byte big-endian scalar `private_key` into `slot` in
    /// cleartext.
    pub fn privwrite_cleartext(&mut self, slot: Slot, private_key: &[u8; 32]) -> (r: Result<(), AteccError<H::Error>>)
        ensures
            final(self).address() == old(self).address(),
            spec_extends(old(self).bus_log(), final(self).bus_log()),
            spec_privwrite_command(old(self).address(), slot.index(), private_key@,
                spec_delta(old(self).bus_log(), final(self).bus_log())) == Some(spec_unit_outcome(r)),
    {
        proof { self.lemma_view(); }
        let r = self.driver.privwrite_cleartext_command(slot, private_key);
        proof { self.lemma_view(); }
        r
    }
}

} // verus!
