//! Response status codes.
use vstd::prelude::*;

verus! {

/// The status byte of a response.
#[derive(Debug, Clone, Copy, PartialEq, Eq, Structural)]
pub enum ResponseStatus {
    /// Success.
    Success,
    /// Unknown opcode.
    InvalidCommand,
    /// Malformed payload.
    InvalidPayload,
    /// Slot not allowed.
    InvalidSlot,
    /// The chip could not be reached.
    AteccCommunicationError,
    /// The chip refused the command.
    AteccChipError,
    /// No touch confirmation in time.
    TouchTimeout,
    /// The chip is not provisioned.
    NotProvisioned,
    /// Wrong magic word on a destructive request.
    LockMagicMismatch,
    /// The chip rejected the lock CRC.
    LockCrcMismatch,
    /// The token is busy.
    Busy,
    /// Wrong PIN; the payload holds the attempts left.
    WrongPin,
    /// The request needs a PIN session.
    PinRequired,
    /// The PIN is blocked.
    PinBlocked,
    /// Wrong PUK; the payload holds the attempts left.
    WrongPuk,
    /// The PUK is exhausted.
    Bricked,
    /// Emergency reset refused; the payload holds the attempts left.
    EmergencyResetNotPermitted,
}

/// The status a byte encodes, if any.
pub open spec fn spec_status_from_byte(byte: u8) -> Option<ResponseStatus> {
    match byte {
        0x00 => Some(ResponseStatus::Success),
        0x01 => Some(ResponseStatus::InvalidCommand),
        0x02 => Some(ResponseStatus::InvalidPayload),
        0x03 => Some(ResponseStatus::InvalidSlot),
        0x04 => Some(ResponseStatus::AteccCommunicationError),
        0x05 => Some(ResponseStatus::AteccChipError),
        0x06 => Some(ResponseStatus::TouchTimeout),
        0x07 => Some(ResponseStatus::NotProvisioned),
        0x08 => Some(ResponseStatus::LockMagicMismatch),
        0x09 => Some(ResponseStatus::LockCrcMismatch),
        0x0A => Some(ResponseStatus::Busy),
        0x0B => Some(ResponseStatus::WrongPin),
        0x0C => Some(ResponseStatus::PinRequired),
        0x0D => Some(ResponseStatus::PinBlocked),
        0x0E => Some(ResponseStatus::WrongPuk),
        0x0F => Some(ResponseStatus::Bricked),
        0x10 => Some(ResponseStatus::EmergencyResetNotPermitted),
        _ => None,
    }
}

impl ResponseStatus {
    /// The status's byte.
    pub open spec fn spec_byte(self) -> u8 {
        match self {
            ResponseStatus::Success => 0x00,
            ResponseStatus::InvalidCommand => 0x01,
            ResponseStatus::InvalidPayload => 0x02,
            ResponseStatus::InvalidSlot => 0x03,
            ResponseStatus::AteccCommunicationError => 0x04,
            ResponseStatus::AteccChipError => 0x05,
            ResponseStatus::TouchTimeout => 0x06,
            ResponseStatus::NotProvisioned => 0x07,
            ResponseStatus::LockMagicMismatch => 0x08,
            ResponseStatus::LockCrcMismatch => 0x09,
            ResponseStatus::Busy => 0x0A,
            ResponseStatus::WrongPin => 0x0B,
            ResponseStatus::PinRequired => 0x0C,
            ResponseStatus::PinBlocked => 0x0D,
            ResponseStatus::WrongPuk => 0x0E,
            ResponseStatus::Bricked => 0x0F,
            ResponseStatus::EmergencyResetNotPermitted => 0x10,
        }
    }

    /// The status a byte encodes; `None` for an unknown byte.
    pub fn from_byte(byte: u8) -> (r: Option<Self>)
        ensures
            r == spec_status_from_byte(byte),
    {
        match byte {
            0x00 => Some(ResponseStatus::Success),
            0x01 => Some(ResponseStatus::InvalidCommand),
            0x02 => Some(ResponseStatus::InvalidPayload),
            0x03 => Some(ResponseStatus::InvalidSlot),
            0x04 => Some(ResponseStatus::AteccCommunicationError),
            0x05 => Some(ResponseStatus::AteccChipError),
            0x06 => Some(ResponseStatus::TouchTimeout),
            0x07 => Some(ResponseStatus::NotProvisioned),
            0x08 => Some(ResponseStatus::LockMagicMismatch),
            0x09 => Some(ResponseStatus::LockCrcMismatch),
            0x0A => Some(ResponseStatus::Busy),
            0x0B => Some(ResponseStatus::WrongPin),
            0x0C => Some(ResponseStatus::PinRequired),
            0x0D => Some(ResponseStatus::PinBlocked),
            0x0E => Some(ResponseStatus::WrongPuk),
            0x0F => Some(ResponseStatus::Bricked),
            0x10 => Some(ResponseStatus::EmergencyResetNotPermitted),
            _ => None,
        }
    }

    /// The status's byte.
    pub fn as_u8(self) -> (r: u8)
        ensures
            r == self.spec_byte(),
    {
        match self {
            ResponseStatus::Success => 0x00,
            ResponseStatus::InvalidCommand => 0x01,
            ResponseStatus::InvalidPayload => 0x02,
            ResponseStatus::InvalidSlot => 0x03,
            ResponseStatus::AteccCommunicationError => 0x04,
            ResponseStatus::AteccChipError => 0x05,
            ResponseStatus::TouchTimeout => 0x06,
            ResponseStatus::NotProvisioned => 0x07,
            ResponseStatus::LockMagicMismatch => 0x08,
            ResponseStatus::LockCrcMismatch => 0x09,
            ResponseStatus::Busy => 0x0A,
            ResponseStatus::WrongPin => 0x0B,
            ResponseStatus::PinRequired => 0x0C,
            ResponseStatus::PinBlocked => 0x0D,
            ResponseStatus::WrongPuk => 0x0E,
            ResponseStatus::Bricked => 0x0F,
            ResponseStatus::EmergencyResetNotPermitted => 0x10,
        }
    }
}

/// Every status survives a trip through its byte.
pub proof fn lemma_status_round_trip(s: ResponseStatus)
    ensures
        spec_status_from_byte(s.spec_byte()) == Some(s),
{
}

/// A byte that decodes to a status is that status's byte.
pub proof fn lemma_status_byte_round_trip(byte: u8)
    ensures
        spec_status_from_byte(byte) matches Some(s) ==> s.spec_byte() == byte,
{
}

/// A byte that is no status.
#[derive(Debug, Clone, Copy, PartialEq, Eq, Structural)]
pub struct UnknownStatus {
    /// The byte.
    pub byte: u8,
}

impl TryFrom<u8> for ResponseStatus {
    type Error = UnknownStatus;

    fn try_from(byte: u8) -> (r: Result<Self, UnknownStatus>) {
        match Self::from_byte(byte) {
            Some(s) => Ok(s),
            None => Err(UnknownStatus { byte }),
        }
    }
}

impl vstd::std_specs::convert::TryFromSpecImpl<u8> for ResponseStatus {
    open spec fn obeys_try_from_spec() -> bool {
        true
    }

    open spec fn try_from_spec(byte: u8) -> Result<Self, UnknownStatus> {
        match spec_status_from_byte(byte) {
            Some(s) => Ok(s),
            None => Err(UnknownStatus { byte }),
        }
    }
}

} // verus!
