//! Errors of the crypto service.
use vstd::prelude::*;
use crate::atecc::error::{AteccError, AteccErrorKind, spec_error_kind};
use crate::atecc::slot::Slot;
use crate::service::pin::FormatError;

verus! {

/// What a crypto-service operation can fail with.
#[derive(Debug)]
pub enum CryptoServiceError<HalError> {
    /// The driver failed.
    Atecc(AteccError<HalError>),
    /// A PIN, PUK or numeric argument was malformed.
    InvalidFormat(FormatError),
    /// The PIN was wrong; `tries_remaining` attempts are left in the batch.
    PinIncorrect { tries_remaining: u8 },
    /// The PIN batch is exhausted; only the PUK can recover.
    PinBlocked,
    /// The PUK was wrong; `tries_remaining` attempts are left.
    PukIncorrect { tries_remaining: u8 },
    /// The PUK batch is exhausted.
    Bricked,
    /// The operation needs an active PIN session.
    PinRequired,
    /// The chip is not provisioned yet.
    NotProvisioned,
    /// The slot is not allowed for the operation.
    InvalidSlot { slot: Slot },
    /// Emergency reset needs both PIN and PUK batches exhausted.
    EmergencyResetNotPermitted { pin_tries_remaining: u8, puk_tries_remaining: u8 },
}

/// The driver error kind inside a service error, if any.
pub open spec fn spec_atecc_kind<E>(e: CryptoServiceError<E>) -> Option<AteccErrorKind> {
    match e {
        CryptoServiceError::Atecc(inner) => Some(spec_error_kind(inner)),
        _ => None,
    }
}

impl<HalError> CryptoServiceError<HalError> {
    /// The driver error kind, for the driver variant; `None` for failures
    /// decided above the driver.
    pub fn atecc_kind(&self) -> (r: Option<AteccErrorKind>)
        ensures
            r == spec_atecc_kind(*self),
    {
        match self {
            CryptoServiceError::Atecc(err) => Some(err.kind()),
            _ => None,
        }
    }
}

} // verus!
