//! `GenKey` command: create a P-256 key pair inside a slot, or compute the
//! public key of the private key a slot already holds. The public key is
//! 64 bytes, `X || Y`, each coordinate big-endian.
use vstd::prelude::*;
use crate::atecc::command::{copy_bytes, lemma_wake_then, spec_fixed_command, spec_wake_then};
use crate::atecc::driver::{Atecc, AteccChannel, spec_bytes_outcome, spec_delta, spec_extends};
use crate::atecc::error::{AteccError, AteccErrorKind};
use crate::atecc::hal::{AteccHal, HalOp};
use crate::atecc::opcodes::{EXEC_TIME_GENKEY_MS, OP_GENKEY};
use crate::atecc::slot::Slot;
use crate::atecc::wake::wake;

verus! {

/// Size of a raw P-256 public key, `X || Y`.
pub const PUBLIC_KEY_SIZE: usize = 64;

/// `param1` mode: generate a new private key in the slot.
pub const GENKEY_MODE_CREATE: u8 = 0x04;

/// `param1` mode: only output the public key of the slot's private key.
pub const GENKEY_MODE_PUBLIC: u8 = 0x00;

/// Trace and outcome of one GenKey command in mode `mode` on `slot`.
pub open spec fn spec_genkey_command(addr: u8, mode: u8, slot: u8, d: Seq<HalOp>) -> Option<Result<Seq<u8>, AteccErrorKind>> {
    spec_fixed_command(addr, OP_GENKEY, mode, slot as u16, Seq::empty(), EXEC_TIME_GENKEY_MS, PUBLIC_KEY_SIZE as nat, d)
}

impl<H: AteccHal> Atecc<H> {
    /// One GenKey command in mode `mode` on an awake chip.
    pub(crate) fn genkey_internal(&mut self, mode: u8, slot: Slot) -> (r: Result<[u8; PUBLIC_KEY_SIZE], AteccError<H::Error>>)
        ensures
            final(self).address() == old(self).address(),
            spec_extends(old(self).bus_log(), final(self).bus_log()),
            spec_genkey_command(old(self).address(), mode, slot.index(), spec_delta(old(self).bus_log(), final(self).bus_log()))
                == Some(spec_bytes_outcome(r)),
    {
        let empty: [u8; 0] = [];
        assert(empty@ =~= Seq::<u8>::empty());
        let param2: u16 = slot.as_u8() as u16;
        let payload = self.execute_fixed(OP_GENKEY, mode, param2, &empty, EXEC_TIME_GENKEY_MS, PUBLIC_KEY_SIZE)?;
        let mut out = [0u8; PUBLIC_KEY_SIZE];
        copy_bytes(&mut out, payload.as_slice());
        Ok(out)
    }

    /// Wake the chip and run one GenKey in mode `mode`. The chip is left
    /// awake.
    fn genkey_after_wake(&mut self, mode: u8, slot: Slot) -> (r: Result<[u8; PUBLIC_KEY_SIZE], AteccError<H::Error>>)
        ensures
            final(self).address() == old(self).address(),
            spec_extends(old(self).bus_log(), final(self).bus_log()),
            spec_wake_then(
                old(self).address(), spec_delta(old(self).bus_log(), final(self).bus_log()),
                |d: Seq<HalOp>| spec_genkey_command(old(self).address(), mode, slot.index(), d), spec_bytes_outcome(r),
            ),
    {
        let ghost start = self.bus_log();
        let ghost addr = self.address();
        match wake(self) {
            Ok(()) => {},
            Err(e) => return Err(e),
        }
        let ghost mid = self.bus_log();
        let r = self.genkey_internal(mode, slot);
        proof {
            lemma_wake_then(addr, start, mid, self.bus_log(), |d: Seq<HalOp>| spec_genkey_command(addr, mode, slot.index(), d), spec_bytes_outcome(r));
        }
        r
    }

    /// Wake the chip and generate a new private key in `slot`; returns its
    /// public key. The chip is left awake.
    pub fn genkey_create(&mut self, slot: Slot) -> (r: Result<[u8; PUBLIC_KEY_SIZE], AteccError<H::Error>>)
        ensures
            final(self).address() == old(self).address(),
            spec_extends(old(self).bus_log(), final(self).bus_log()),
            spec_wake_then(
                old(self).address(), spec_delta(old(self).bus_log(), final(self).bus_log()),
                |d: Seq<HalOp>| spec_genkey_command(old(self).address(), GENKEY_MODE_CREATE, slot.index(), d), spec_bytes_outcome(r),
            ),
    {
        self.genkey_after_wake(GENKEY_MODE_CREATE, slot)
    }

    /// Wake the chip and compute the public key of the private key in
    /// `slot`, without changing it. The chip is left awake.
    pub fn genkey_public(&mut self, slot: Slot) -> (r: Result<[u8; PUBLIC_KEY_SIZE], AteccError<H::Error>>)
        ensures
            final(self).address() == old(self).address(),
            spec_extends(old(self).bus_log(), final(self).bus_log()),
            spec_wake_then(
                old(self).address(), spec_delta(old(self).bus_log(), final(self).bus_log()),
                |d: Seq<HalOp>| spec_genkey_command(old(self).address(), GENKEY_MODE_PUBLIC, slot.index(), d), spec_bytes_outcome(r),
            ),
    {
        self.genkey_after_wake(GENKEY_MODE_PUBLIC, slot)
    }
}

impl<'a, H: AteccHal> AteccChannel<'a, H> {
    /// Generate a new private key in `slot`; returns its public key.
    pub fn genkey_create(&mut self, slot: Slot) -> (r: Result<[u8; PUBLIC_KEY_SIZE], AteccError<H::Error>>)
        ensures
            final(self).address() == old(self).address(),
            spec_extends(old(self).bus_log(), final(self).bus_log()),
            spec_genkey_command(old(self).address(), GENKEY_MODE_CREATE, slot.index(), spec_delta(old(self).bus_log(), final(self).bus_log()))
                == Some(spec_bytes_outcome(r)),
    {
        proof { self.lemma_view(); }
        let r = self.driver.genkey_internal(GENKEY_MODE_CREATE, slot);
        proof { self.lemma_view(); }
        r
    }

    /// Compute the public key of the private key in `slot`.
    pub fn genkey_public(&mut self, slot: Slot) -> (r: Result<[u8; PUBLIC_KEY_SIZE], AteccError<H::Error>>)
        ensures
            final(self).address() == old(self).address(),
            spec_extends(old(self).bus_log(), final(self).bus_log()),
            spec_genkey_command(old(self).address(), GENKEY_MODE_PUBLIC, slot.index(), spec_delta(old(self).bus_log(), final(self).bus_log()))
                == Some(spec_bytes_outcome(r)),
    {
        proof { self.lemma_view(); }
        let r = self.driver.genkey_internal(GENKEY_MODE_PUBLIC, slot);
        proof { self.lemma_view(); }
        r
    }
}

} // verus!
