//! `Lock` command: permanently lock the config zone, the data zone, or one
//! slot. Locks are irreversible; nothing in this crate issues one on its
//! own, and the config-zone lock carries the CRC of the zone as the caller
//! believes it to be, which the chip checks before locking.
use vstd::prelude::*;
use crate::atecc::driver::{Atecc, AteccChannel, spec_delta, spec_extends, spec_status_command, spec_unit_outcome};
use crate::atecc::error::{AteccError, AteccErrorKind};
use crate::atecc::hal::{AteccHal, HalOp};
use crate::atecc::opcodes::{EXEC_TIME_LOCK_MS, OP_LOCK};
use crate::atecc::slot::Slot;

verus! {

/// Mode of a config-zone lock that checks the CRC in `param2`.
pub const LOCK_MODE_CONFIG_ZONE_VERIFY_CRC: u8 = 0x00;

/// Mode of a data-zone lock without CRC check: the secret slots cannot be
/// read back, so the host has no CRC to offer.
pub const LOCK_MODE_DATA_ZONE_NO_CRC: u8 = 0x81;

/// Base mode of a one-slot lock without CRC check; the slot goes in bits
/// 2..=5.
pub const LOCK_MODE_SLOT_NO_CRC_BASE: u8 = 0x82;

/// `param1` of the lock of slot `slot`.
pub open spec fn spec_lock_slot_mode(slot: u8) -> u8 {
    (LOCK_MODE_SLOT_NO_CRC_BASE + (slot % 16) * 4) as u8
}

/// `param1` of the lock of `slot`: the base mode with the slot index in
/// bits 2..=5.
pub fn lock_slot_mode(slot: Slot) -> (r: u8)
    ensures
        r == spec_lock_slot_mode(slot.index()),
{
    let s = slot.as_u8();
    assert((0x82u8 | ((s & 0x0Fu8) << 2u8)) == (0x82u8 + (s % 16) * 4) as u8) by (bit_vector);
    LOCK_MODE_SLOT_NO_CRC_BASE | ((s & 0x0F) << 2)
}

/// Trace and outcome of one Lock command.
pub open spec fn spec_lock_command(addr: u8, mode: u8, param2: u16, d: Seq<HalOp>) -> Option<Result<(), AteccErrorKind>> {
    spec_status_command(addr, OP_LOCK, mode, param2, Seq::empty(), EXEC_TIME_LOCK_MS, d)
}

impl<H: AteccHal> Atecc<H> {
    /// One Lock command on an awake chip.
    pub(crate) fn lock_command(&mut self, mode: u8, param2: u16) -> (r: Result<(), AteccError<H::Error>>)
        ensures
            final(self).address() == old(self).address(),
            spec_extends(old(self).bus_log(), final(self).bus_log()),
            spec_lock_command(old(self).address(), mode, param2, spec_delta(old(self).bus_log(), final(self).bus_log()))
                == Some(spec_unit_outcome(r)),
    {
        let empty: [u8; 0] = [];
        assert(empty@ =~= Seq::<u8>::empty());
        self.execute_command_status(OP_LOCK, mode, param2, &empty, EXEC_TIME_LOCK_MS)
    }
}

impl<'a, H: AteccHal> AteccChannel<'a, H> {
    /// Permanently lock the config zone. `expected_crc` is the CRC of the
    /// zone as the caller read it; the chip refuses if its own differs.
    pub fn lock_config_zone(&mut self, expected_crc: u16) -> (r: Result<(), AteccError<H::Error>>)
        ensures
            final(self).address() == old(self).address(),
            spec_extends(old(self).bus_log(), final(self).bus_log()),
            spec_lock_command(old(self).address(), LOCK_MODE_CONFIG_ZONE_VERIFY_CRC, expected_crc,
                spec_delta(old(self).bus_log(), final(self).bus_log())) == Some(spec_unit_outcome(r)),
    {
        proof { self.lemma_view(); }
        let r = self.driver.lock_command(LOCK_MODE_CONFIG_ZONE_VERIFY_CRC, expected_crc);
        proof { self.lemma_view(); }
        r
    }

    /// Permanently lock the data and OTP zones, without a CRC check.
    pub fn lock_data_zone(&mut self) -> (r: Result<(), AteccError<H::Error>>)
        ensures
            final(self).address() == old(self).address(),
            spec_extends(old(self).bus_log(), final(self).bus_log()),
            spec_lock_command(old(self).address(), LOCK_MODE_DATA_ZONE_NO_CRC, 0,
                spec_delta(old(self).bus_log(), final(self).bus_log())) == Some(spec_unit_outcome(r)),
    {
        proof { self.lemma_view(); }
        let r = self.driver.lock_command(LOCK_MODE_DATA_ZONE_NO_CRC, 0x0000);
        proof { self.lemma_view(); }
        r
    }

    /// Permanently lock one data slot; the slot's configuration must allow
    /// it.
    pub fn lock_slot(&mut self, slot: Slot) -> (r: Result<(), AteccError<H::Error>>)
        ensures
            final(self).address() == old(self).address(),
            spec_extends(old(self).bus_log(), final(self).bus_log()),
            spec_lock_command(old(self).address(), spec_lock_slot_mode(slot.index()), 0,
                spec_delta(old(self).bus_log(), final(self).bus_log())) == Some(spec_unit_outcome(r)),
    {
        let mode = lock_slot_mode(slot);
        proof { self.lemma_view(); }
        let r = self.driver.lock_command(mode, 0x0000);
        proof { self.lemma_view(); }
        r
    }
}

} // verus!
