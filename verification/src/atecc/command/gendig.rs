//! `GenDig` command: mix a zone's contents (in this project the I/O
//! protection key of slot 8) with `TempKey` and store the digest back in
//! `TempKey`, so that host and chip share a key for an encrypted write.
use vstd::prelude::*;
use crate::atecc::command::{lemma_wake_then, spec_wake_then};
use crate::atecc::driver::{
    Atecc, AteccChannel, spec_delta, spec_extends, spec_status_command, spec_unit_outcome,
};
use crate::atecc::error::{AteccError, AteccErrorKind};
use crate::atecc::hal::{AteccHal, HalOp};
use crate::atecc::opcodes::{EXEC_TIME_GENDIG_MS, OP_GENDIG};
use crate::atecc::wake::wake;

verus! {

/// The zone a GenDig pulls its source data from.
#[derive(Debug, Clone, Copy, PartialEq, Eq, Structural)]
pub enum GenDigZone {
    /// The config zone.
    Config,
    /// The OTP zone.
    Otp,
    /// A data slot.
    Data,
}

impl GenDigZone {
    /// The zone's `param1`.
    pub open spec fn spec_param1(self) -> u8 {
        match self {
            GenDigZone::Config => 0x00,
            GenDigZone::Otp => 0x01,
            GenDigZone::Data => 0x02,
        }
    }

    /// The zone's `param1`.
    pub fn as_param1(self) -> (r: u8)
        ensures
            r == self.spec_param1(),
    {
        match self {
            GenDigZone::Config => 0x00,
            GenDigZone::Otp => 0x01,
            GenDigZone::Data => 0x02,
        }
    }
}

/// Trace and outcome of one GenDig command.
pub open spec fn spec_gendig_command(addr: u8, zone: GenDigZone, key_id: u16, d: Seq<HalOp>) -> Option<Result<(), AteccErrorKind>> {
    spec_status_command(addr, OP_GENDIG, zone.spec_param1(), key_id, Seq::empty(), EXEC_TIME_GENDIG_MS, d)
}

impl<H: AteccHal> Atecc<H> {
    /// One GenDig command on an awake chip.
    pub(crate) fn gendig_command(&mut self, zone: GenDigZone, key_id: u16) -> (r: Result<(), AteccError<H::Error>>)
        ensures
            final(self).address() == old(self).address(),
            spec_extends(old(self).bus_log(), final(self).bus_log()),
            spec_gendig_command(old(self).address(), zone, key_id, spec_delta(old(self).bus_log(), final(self).bus_log()))
                == Some(spec_unit_outcome(r)),
    {
        let empty: [u8; 0] = [];
        assert(empty@ =~= Seq::<u8>::empty());
        self.execute_command_status(OP_GENDIG, zone.as_param1(), key_id, &empty, EXEC_TIME_GENDIG_MS)
    }

    /// Wake the chip and run a GenDig against `zone` and `key_id`. The chip
    /// is left awake.
    pub fn gendig(&mut self, zone: GenDigZone, key_id: u16) -> (r: Result<(), AteccError<H::Error>>)
        ensures
            final(self).address() == old(self).address(),
            spec_extends(old(self).bus_log(), final(self).bus_log()),
            spec_wake_then(
                old(self).address(), spec_delta(old(self).bus_log(), final(self).bus_log()),
                |d: Seq<HalOp>| spec_gendig_command(old(self).address(), zone, key_id, d), spec_unit_outcome(r),
            ),
    {
        let ghost start = self.bus_log();
        let ghost addr = self.address();
        match wake(self) {
            Ok(()) => {},
            Err(e) => return Err(e),
        }
        let ghost mid = self.bus_log();
        let r = self.gendig_command(zone, key_id);
        proof {
            lemma_wake_then(addr, start, mid, self.bus_log(), |d: Seq<HalOp>| spec_gendig_command(addr, zone, key_id, d), spec_unit_outcome(r));
        }
        r
    }
}

impl<'a, H: AteccHal> AteccChannel<'a, H> {
    /// Run a GenDig against `zone` and `key_id`, with no extra data. The
    /// chip answers with a status only.
    pub fn gendig(&mut self, zone: GenDigZone, key_id: u16) -> (r: Result<(), AteccError<H::Error>>)
        ensures
            final(self).address() == old(self).address(),
            spec_extends(old(self).bus_log(), final(self).bus_log()),
            spec_gendig_command(old(self).address(), zone, key_id, spec_delta(old(self).bus_log(), final(self).bus_log()))
                == Some(spec_unit_outcome(r)),
    {
        proof { self.lemma_view(); }
        let r = self.driver.gendig_command(zone, key_id);
        proof { self.lemma_view(); }
        r
    }
}

} // verus!
