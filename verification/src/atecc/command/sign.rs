//! `Sign` command, external mode: sign the 32-byte digest loaded in the
//! message digest buffer with the private key of a slot. The signature is
//! 64 bytes, `R || S`, each big-endian.
use vstd::prelude::*;
use crate::atecc::command::{copy_bytes, spec_fixed_command};
use crate::atecc::driver::{Atecc, AteccChannel, spec_bytes_outcome, spec_delta, spec_extends};
use crate::atecc::error::{AteccError, AteccErrorKind};
use crate::atecc::hal::{AteccHal, HalOp};
use crate::atecc::opcodes::{EXEC_TIME_SIGN_MS, OP_SIGN};
use crate::atecc::slot::Slot;

verus! {

/// Size of a raw ECDSA P-256 signature, `R || S`.
pub const SIGNATURE_SIZE: usize = 64;

/// `param1`: external message (bit 7) taken from the message digest buffer
/// (bit 5), the source this chip requires for external signing.
pub const SIGN_MODE_EXTERNAL_FROM_MSGDIGBUF: u8 = 0xA0;

/// Trace and outcome of one external Sign with the key of `slot`.
pub open spec fn spec_sign_command(addr: u8, slot: u8, d: Seq<HalOp>) -> Option<Result<Seq<u8>, AteccErrorKind>> {
    spec_fixed_command(addr, OP_SIGN, SIGN_MODE_EXTERNAL_FROM_MSGDIGBUF, slot as u16, Seq::empty(), EXEC_TIME_SIGN_MS, SIGNATURE_SIZE as nat, d)
}

impl<H: AteccHal> Atecc<H> {
    /// One external Sign on an awake chip.
    pub(crate) fn sign_external_command(&mut self, slot: Slot) -> (r: Result<[u8; SIGNATURE_SIZE], AteccError<H::Error>>)
        ensures
            final(self).address() == old(self).address(),
            spec_extends(old(self).bus_log(), final(self).bus_log()),
            spec_sign_command(old(self).address(), slot.index(), spec_delta(old(self).bus_log(), final(self).bus_log()))
                == Some(spec_bytes_outcome(r)),
    {
        let empty: [u8; 0] = [];
        assert(empty@ =~= Seq::<u8>::empty());
        let param2: u16 = slot.as_u8() as u16;
        let payload = self.execute_fixed(OP_SIGN, SIGN_MODE_EXTERNAL_FROM_MSGDIGBUF, param2, &empty, EXEC_TIME_SIGN_MS, SIGNATURE_SIZE)?;
        let mut out = [0u8; SIGNATURE_SIZE];
        copy_bytes(&mut out, payload.as_slice());
        Ok(out)
    }
}

impl<'a, H: AteccHal> AteccChannel<'a, H> {
    /// Sign the digest in the message digest buffer with the key of
    /// `slot`. The digest must have been loaded by a passthrough Nonce with
    /// that target just before.
    pub fn sign_external(&mut self, slot: Slot) -> (r: Result<[u8; SIGNATURE_SIZE], AteccError<H::Error>>)
        ensures
            final(self).address() == old(self).address(),
            spec_extends(old(self).bus_log(), final(self).bus_log()),
            spec_sign_command(old(self).address(), slot.index(), spec_delta(old(self).bus_log(), final(self).bus_log()))
                == Some(spec_bytes_outcome(r)),
    {
        proof { self.lemma_view(); }
        let r = self.driver.sign_external_command(slot);
        proof { self.lemma_view(); }
        r
    }
}

} // verus!
