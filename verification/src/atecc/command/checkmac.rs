//! `CheckMac` command: the chip hashes a slot's contents with a challenge
//! and `other_data`, and compares the digest with the response the host
//! computed. This is how a PIN or PUK is checked against its stored hash;
//! each call bumps the slot's attempt counter whatever the outcome.
use vstd::prelude::*;
use crate::atecc::command::{lemma_wake_then, spec_bool_outcome, spec_compare_outcome, spec_wake_then, write_at};
use crate::atecc::driver::{Atecc, AteccChannel, spec_delta, spec_extends, spec_status_command};
use crate::atecc::error::{AteccError, AteccErrorKind, ChipError};
use crate::atecc::hal::{AteccHal, HalOp};
use crate::atecc::opcodes::{EXEC_TIME_CHECKMAC_MS, OP_CHECKMAC};
use crate::atecc::slot::Slot;
use crate::atecc::wake::wake;

verus! {

/// Size of the challenge.
pub const CHECKMAC_CHALLENGE_SIZE: usize = 32;

/// Size of the host-computed response under test.
pub const CHECKMAC_CLIENT_RESPONSE_SIZE: usize = 32;

/// Size of `other_data`: the opcode, mode, key id and serial-number bytes
/// the chip hashes into its own digest.
pub const CHECKMAC_OTHER_DATA_SIZE: usize = 13;

/// Data field of a CheckMac: challenge, response, other data.
pub const CHECKMAC_DATA_SIZE: usize = 77;

/// `param1`: the challenge comes from the data field, the key from the
/// slot in `param2`.
pub const CHECKMAC_MODE_CHALLENGE: u8 = 0x00;

/// Trace and outcome of one CheckMac against `slot`: `true` on a match,
/// `false` on a miscompare.
pub open spec fn spec_checkmac_command(
    addr: u8,
    slot: u8,
    challenge: Seq<u8>,
    client_resp: Seq<u8>,
    other_data: Seq<u8>,
    d: Seq<HalOp>,
) -> Option<Result<bool, AteccErrorKind>> {
    spec_compare_outcome(
        spec_status_command(
            addr, OP_CHECKMAC, CHECKMAC_MODE_CHALLENGE, slot as u16, challenge + client_resp + other_data,
            EXEC_TIME_CHECKMAC_MS, d,
        ),
    )
}

impl<H: AteccHal> Atecc<H> {
    /// One CheckMac on an awake chip.
    pub(crate) fn checkmac_command(
        &mut self,
        slot: Slot,
        challenge: &[u8; CHECKMAC_CHALLENGE_SIZE],
        client_resp: &[u8; CHECKMAC_CLIENT_RESPONSE_SIZE],
        other_data: &[u8; CHECKMAC_OTHER_DATA_SIZE],
    ) -> (r: Result<bool, AteccError<H::Error>>)
        ensures
            final(self).address() == old(self).address(),
            spec_extends(old(self).bus_log(), final(self).bus_log()),
            spec_checkmac_command(old(self).address(), slot.index(), challenge@, client_resp@, other_data@,
                spec_delta(old(self).bus_log(), final(self).bus_log())) == Some(spec_bool_outcome(r)),
    {
        let mut data = [0u8; CHECKMAC_DATA_SIZE];
        write_at(&mut data, 0, challenge);
        write_at(&mut data, CHECKMAC_CHALLENGE_SIZE, client_resp);
        write_at(&mut data, CHECKMAC_CHALLENGE_SIZE + CHECKMAC_CLIENT_RESPONSE_SIZE, other_data);
        assert(data@ =~= challenge@ + client_resp@ + other_data@);
        let result = self.execute_command_status(
            OP_CHECKMAC, CHECKMAC_MODE_CHALLENGE, slot.as_u8() as u16, &data, EXEC_TIME_CHECKMAC_MS,
        );
        match result {
            Ok(()) => Ok(true),
            Err(AteccError::Chip(ChipError::CheckMacOrVerifyFailed)) => Ok(false),
            Err(other) => Err(other),
        }
    }

    /// Wake the chip and check `client_resp` against the contents of
    /// `slot`. The chip is left awake.
    pub fn checkmac(
        &mut self,
        slot: Slot,
        challenge: &[u8; CHECKMAC_CHALLENGE_SIZE],
        client_resp: &[u8; CHECKMAC_CLIENT_RESPONSE_SIZE],
        other_data: &[u8; CHECKMAC_OTHER_DATA_SIZE],
    ) -> (r: Result<bool, AteccError<H::Error>>)
        ensures
            final(self).address() == old(self).address(),
            spec_extends(old(self).bus_log(), final(self).bus_log()),
            spec_wake_then(
                old(self).address(), spec_delta(old(self).bus_log(), final(self).bus_log()),
                |d: Seq<HalOp>| spec_checkmac_command(old(self).address(), slot.index(), challenge@, client_resp@, other_data@, d),
                spec_bool_outcome(r),
            ),
    {
        let ghost start = self.bus_log();
        let ghost addr = self.address();
        match wake(self) {
            Ok(()) => {},
            Err(e) => return Err(e),
        }
        let ghost mid = self.bus_log();
        let r = self.checkmac_command(slot, challenge, client_resp, other_data);
        proof {
            lemma_wake_then(
                addr, start, mid, self.bus_log(),
                |d: Seq<HalOp>| spec_checkmac_command(addr, slot.index(), challenge@, client_resp@, other_data@, d),
                spec_bool_outcome(r),
            );
        }
        r
    }
}

impl<'a, H: AteccHal> AteccChannel<'a, H> {
    /// Check the host-computed `client_resp` against the contents of
    /// `slot`. A match is `Ok(true)`, a miscompare `Ok(false)`.
    pub fn checkmac(
        &mut self,
        slot: Slot,
        challenge: &[u8; CHECKMAC_CHALLENGE_SIZE],
        client_resp: &[u8; CHECKMAC_CLIENT_RESPONSE_SIZE],
        other_data: &[u8; CHECKMAC_OTHER_DATA_SIZE],
    ) -> (r: Result<bool, AteccError<H::Error>>)
        ensures
            final(self).address() == old(self).address(),
            spec_extends(old(self).bus_log(), final(self).bus_log()),
            spec_checkmac_command(old(self).address(), slot.index(), challenge@, client_resp@, other_data@,
                spec_delta(old(self).bus_log(), final(self).bus_log())) == Some(spec_bool_outcome(r)),
    {
        proof { self.lemma_view(); }
        let r = self.driver.checkmac_command(slot, challenge, client_resp, other_data);
        proof { self.lemma_view(); }
        r
    }
}

} // verus!
