//! `Verify` command, external mode: check an ECDSA P-256 signature over
//! the digest in `TempKey` against a public key supplied by the host.
use vstd::prelude::*;
use crate::atecc::command::{spec_bool_outcome, spec_compare_outcome, write_at};
use crate::atecc::command::genkey::PUBLIC_KEY_SIZE;
use crate::atecc::command::sign::SIGNATURE_SIZE;
use crate::atecc::driver::{Atecc, AteccChannel, spec_delta, spec_extends, spec_status_command};
use crate::atecc::error::{AteccError, AteccErrorKind, ChipError};
use crate::atecc::hal::{AteccHal, HalOp};
use crate::atecc::opcodes::{EXEC_TIME_VERIFY_MS, OP_VERIFY};

verus! {

/// Data field of an external Verify: signature then public key.
pub const VERIFY_EXTERNAL_DATA_SIZE: usize = 128;

/// `param1`: external verify.
pub const VERIFY_MODE_EXTERNAL: u8 = 0x02;

/// `param2`: the P-256 curve.
pub const VERIFY_KEY_P256: u16 = 0x0004;

/// Trace and outcome of one external Verify: `true` on a valid signature,
/// `false` when the chip reports a miscompare.
pub open spec fn spec_verify_command(addr: u8, signature: Seq<u8>, public_key: Seq<u8>, d: Seq<HalOp>) -> Option<Result<bool, AteccErrorKind>> {
    spec_compare_outcome(
        spec_status_command(addr, OP_VERIFY, VERIFY_MODE_EXTERNAL, VERIFY_KEY_P256, signature + public_key, EXEC_TIME_VERIFY_MS, d),
    )
}

impl<H: AteccHal> Atecc<H> {
    /// One external Verify on an awake chip.
    pub(crate) fn verify_external_command(
        &mut self,
        signature: &[u8; SIGNATURE_SIZE],
        public_key: &[u8; PUBLIC_KEY_SIZE],
    ) -> (r: Result<bool, AteccError<H::Error>>)
        ensures
            final(self).address() == old(self).address(),
            spec_extends(old(self).bus_log(), final(self).bus_log()),
            spec_verify_command(old(self).address(), signature@, public_key@,
                spec_delta(old(self).bus_log(), final(self).bus_log())) == Some(spec_bool_outcome(r)),
    {
        let mut data = [0u8; VERIFY_EXTERNAL_DATA_SIZE];
        write_at(&mut data, 0, signature);
        write_at(&mut data, SIGNATURE_SIZE, public_key);
        assert(data@ =~= signature@ + public_key@);
        let result = self.execute_command_status(OP_VERIFY, VERIFY_MODE_EXTERNAL, VERIFY_KEY_P256, &data, EXEC_TIME_VERIFY_MS);
        match result {
            Ok(()) => Ok(true),
            Err(AteccError::Chip(ChipError::CheckMacOrVerifyFailed)) => Ok(false),
            Err(other) => Err(other),
        }
    }
}

impl<'a, H: AteccHal> AteccChannel<'a, H> {
    /// Verify `signature` (`R || S`) under `public_key` (`X || Y`) against
    /// the digest in `TempKey`. A clean miscompare is `Ok(false)`.
    pub fn verify_external(
        &mut self,
        signature: &[u8; SIGNATURE_SIZE],
        public_key: &[u8; PUBLIC_KEY_SIZE],
    ) -> (r: Result<bool, AteccError<H::Error>>)
        ensures
            final(self).address() == old(self).address(),
            spec_extends(old(self).bus_log(), final(self).bus_log()),
            spec_verify_command(old(self).address(), signature@, public_key@,
                spec_delta(old(self).bus_log(), final(self).bus_log())) == Some(spec_bool_outcome(r)),
    {
        proof { self.lemma_view(); }
        let r = self.driver.verify_external_command(signature, public_key);
        proof { self.lemma_view(); }
        r
    }
}

} // verus!
