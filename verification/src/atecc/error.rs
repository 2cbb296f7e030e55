//! Error types of the driver.
use vstd::prelude::*;

verus! {

/// Everything that can go wrong while talking to the chip.
#[derive(Debug)]
pub enum AteccError<HalError> {
    /// The HAL reported an error (I2C bus or GPIO).
    Hal(HalError),
    /// The wake response did not match `04 11 33 43`.
    WakeFailed,
    /// The chip answered the wake with the self-test-failure pattern.
    SelfTestFailure,
    /// The CRC of a received frame did not match.
    BadCrc,
    /// The chip returned a status frame that signals an error.
    Chip(ChipError),
    /// Polling for a response exceeded the watchdog window.
    Timeout,
    /// A received frame has an inconsistent length.
    MalformedResponse,
    /// A buffer is too small for the frame.
    BufferTooSmall,
}

/// [`AteccError`] without the HAL payload.
#[derive(Debug, Clone, Copy, PartialEq, Eq, Structural)]
pub enum AteccErrorKind {
    /// HAL error.
    Hal,
    /// Wrong wake response.
    WakeFailed,
    /// Self-test-failure pattern after wake.
    SelfTestFailure,
    /// Bad CRC on a received frame.
    BadCrc,
    /// Chip-side error status.
    Chip(ChipError),
    /// Polling exceeded the watchdog window.
    Timeout,
    /// Inconsistent frame length.
    MalformedResponse,
    /// Buffer too small.
    BufferTooSmall,
}

/// Sub-code of [`AteccErrorKind::Hal`] on the wire.
pub const ATECC_ERR_SUB_HAL: u8 = 0x01;
/// Sub-code of [`AteccErrorKind::WakeFailed`].
pub const ATECC_ERR_SUB_WAKE_FAILED: u8 = 0x02;
/// Sub-code of [`AteccErrorKind::SelfTestFailure`].
pub const ATECC_ERR_SUB_SELF_TEST_FAILURE: u8 = 0x03;
/// Sub-code of [`AteccErrorKind::BadCrc`].
pub const ATECC_ERR_SUB_BAD_CRC: u8 = 0x04;
/// Sub-code of [`AteccErrorKind::Timeout`].
pub const ATECC_ERR_SUB_TIMEOUT: u8 = 0x05;
/// Sub-code of [`AteccErrorKind::MalformedResponse`].
pub const ATECC_ERR_SUB_MALFORMED_RESPONSE: u8 = 0x06;
/// Sub-code of [`AteccErrorKind::BufferTooSmall`].
pub const ATECC_ERR_SUB_BUFFER_TOO_SMALL: u8 = 0x07;

/// Status bytes the chip uses to report an error.
#[derive(Debug, Clone, Copy, PartialEq, Eq, Structural)]
pub enum ChipError {
    /// `0x01`: CheckMac or Verify miscompare.
    CheckMacOrVerifyFailed,
    /// `0x03`: illegal length, opcode or parameter.
    ParseError,
    /// `0x05`: ECC computation fault.
    EccFault,
    /// `0x07`: self-test failure mode.
    SelfTestFailed,
    /// `0x08`: RNG health test error.
    HealthTestFailed,
    /// `0x0F`: execution error.
    ExecutionError,
    /// `0xEE`: watchdog about to expire.
    WatchdogAboutToExpire,
    /// `0xFF`: CRC or communication error on the command.
    CommandCrcError,
    /// Any other status byte.
    Unknown(u8),
}

/// The kind of a driver error.
pub open spec fn spec_error_kind<E>(e: AteccError<E>) -> AteccErrorKind {
    match e {
        AteccError::Hal(_) => AteccErrorKind::Hal,
        AteccError::WakeFailed => AteccErrorKind::WakeFailed,
        AteccError::SelfTestFailure => AteccErrorKind::SelfTestFailure,
        AteccError::BadCrc => AteccErrorKind::BadCrc,
        AteccError::Chip(c) => AteccErrorKind::Chip(c),
        AteccError::Timeout => AteccErrorKind::Timeout,
        AteccError::MalformedResponse => AteccErrorKind::MalformedResponse,
        AteccError::BufferTooSmall => AteccErrorKind::BufferTooSmall,
    }
}

/// Wire sub-code of an error kind; `0` for chip errors.
pub open spec fn spec_sub_code(k: AteccErrorKind) -> u8 {
    match k {
        AteccErrorKind::Hal => ATECC_ERR_SUB_HAL,
        AteccErrorKind::WakeFailed => ATECC_ERR_SUB_WAKE_FAILED,
        AteccErrorKind::SelfTestFailure => ATECC_ERR_SUB_SELF_TEST_FAILURE,
        AteccErrorKind::BadCrc => ATECC_ERR_SUB_BAD_CRC,
        AteccErrorKind::Timeout => ATECC_ERR_SUB_TIMEOUT,
        AteccErrorKind::MalformedResponse => ATECC_ERR_SUB_MALFORMED_RESPONSE,
        AteccErrorKind::BufferTooSmall => ATECC_ERR_SUB_BUFFER_TOO_SMALL,
        AteccErrorKind::Chip(_) => 0x00,
    }
}

/// Error kind of a wire sub-code; `None` for `0` and unassigned bytes.
pub open spec fn spec_from_sub_code(byte: u8) -> Option<AteccErrorKind> {
    if byte == ATECC_ERR_SUB_HAL {
        Some(AteccErrorKind::Hal)
    } else if byte == ATECC_ERR_SUB_WAKE_FAILED {
        Some(AteccErrorKind::WakeFailed)
    } else if byte == ATECC_ERR_SUB_SELF_TEST_FAILURE {
        Some(AteccErrorKind::SelfTestFailure)
    } else if byte == ATECC_ERR_SUB_BAD_CRC {
        Some(AteccErrorKind::BadCrc)
    } else if byte == ATECC_ERR_SUB_TIMEOUT {
        Some(AteccErrorKind::Timeout)
    } else if byte == ATECC_ERR_SUB_MALFORMED_RESPONSE {
        Some(AteccErrorKind::MalformedResponse)
    } else if byte == ATECC_ERR_SUB_BUFFER_TOO_SMALL {
        Some(AteccErrorKind::BufferTooSmall)
    } else {
        None
    }
}

/// Chip error of a status byte; `None` for the success byte `0`.
pub open spec fn spec_chip_error_from_byte(byte: u8) -> Option<ChipError> {
    if byte == 0x00 {
        None
    } else if byte == 0x01 {
        Some(ChipError::CheckMacOrVerifyFailed)
    } else if byte == 0x03 {
        Some(ChipError::ParseError)
    } else if byte == 0x05 {
        Some(ChipError::EccFault)
    } else if byte == 0x07 {
        Some(ChipError::SelfTestFailed)
    } else if byte == 0x08 {
        Some(ChipError::HealthTestFailed)
    } else if byte == 0x0F {
        Some(ChipError::ExecutionError)
    } else if byte == 0xEE {
        Some(ChipError::WatchdogAboutToExpire)
    } else if byte == 0xFF {
        Some(ChipError::CommandCrcError)
    } else {
        Some(ChipError::Unknown(byte))
    }
}

/// Status byte of a chip error.
pub open spec fn spec_chip_status_byte(e: ChipError) -> u8 {
    match e {
        ChipError::CheckMacOrVerifyFailed => 0x01,
        ChipError::ParseError => 0x03,
        ChipError::EccFault => 0x05,
        ChipError::SelfTestFailed => 0x07,
        ChipError::HealthTestFailed => 0x08,
        ChipError::ExecutionError => 0x0F,
        ChipError::WatchdogAboutToExpire => 0xEE,
        ChipError::CommandCrcError => 0xFF,
        ChipError::Unknown(b) => b,
    }
}

impl<HalError> AteccError<HalError> {
    /// Project the error onto its [`AteccErrorKind`].
    pub fn kind(&self) -> (k: AteccErrorKind)
        ensures
            k == spec_error_kind(*self),
    {
        match self {
            AteccError::Hal(_) => AteccErrorKind::Hal,
            AteccError::WakeFailed => AteccErrorKind::WakeFailed,
            AteccError::SelfTestFailure => AteccErrorKind::SelfTestFailure,
            AteccError::BadCrc => AteccErrorKind::BadCrc,
            AteccError::Chip(err) => AteccErrorKind::Chip(*err),
            AteccError::Timeout => AteccErrorKind::Timeout,
            AteccError::MalformedResponse => AteccErrorKind::MalformedResponse,
            AteccError::BufferTooSmall => AteccErrorKind::BufferTooSmall,
        }
    }
}

impl AteccErrorKind {
    /// The wire sub-code of this kind; `0x00` is reserved for chip errors,
    /// which travel with their own status byte.
    pub fn as_sub_code(self) -> (b: u8)
        ensures
            b == spec_sub_code(self),
    {
        match self {
            AteccErrorKind::Hal => ATECC_ERR_SUB_HAL,
            AteccErrorKind::WakeFailed => ATECC_ERR_SUB_WAKE_FAILED,
            AteccErrorKind::SelfTestFailure => ATECC_ERR_SUB_SELF_TEST_FAILURE,
            AteccErrorKind::BadCrc => ATECC_ERR_SUB_BAD_CRC,
            AteccErrorKind::Timeout => ATECC_ERR_SUB_TIMEOUT,
            AteccErrorKind::MalformedResponse => ATECC_ERR_SUB_MALFORMED_RESPONSE,
            AteccErrorKind::BufferTooSmall => ATECC_ERR_SUB_BUFFER_TOO_SMALL,
            AteccErrorKind::Chip(_) => 0x00,
        }
    }

    /// Map a wire sub-code back to a non-chip kind.
    pub fn from_sub_code(byte: u8) -> (k: Option<Self>)
        ensures
            k == spec_from_sub_code(byte),
    {
        match byte {
            ATECC_ERR_SUB_HAL => Some(AteccErrorKind::Hal),
            ATECC_ERR_SUB_WAKE_FAILED => Some(AteccErrorKind::WakeFailed),
            ATECC_ERR_SUB_SELF_TEST_FAILURE => Some(AteccErrorKind::SelfTestFailure),
            ATECC_ERR_SUB_BAD_CRC => Some(AteccErrorKind::BadCrc),
            ATECC_ERR_SUB_TIMEOUT => Some(AteccErrorKind::Timeout),
            ATECC_ERR_SUB_MALFORMED_RESPONSE => Some(AteccErrorKind::MalformedResponse),
            ATECC_ERR_SUB_BUFFER_TOO_SMALL => Some(AteccErrorKind::BufferTooSmall),
            _ => None,
        }
    }
}

impl ChipError {
    /// Map a raw status byte to a chip error; `None` for success (`0x00`).
    pub fn from_status_byte(byte: u8) -> (e: Option<Self>)
        ensures
            e == spec_chip_error_from_byte(byte),
    {
        match byte {
            0x00 => None,
            0x01 => Some(ChipError::CheckMacOrVerifyFailed),
            0x03 => Some(ChipError::ParseError),
            0x05 => Some(ChipError::EccFault),
            0x07 => Some(ChipError::SelfTestFailed),
            0x08 => Some(ChipError::HealthTestFailed),
            0x0F => Some(ChipError::ExecutionError),
            0xEE => Some(ChipError::WatchdogAboutToExpire),
            0xFF => Some(ChipError::CommandCrcError),
            other => Some(ChipError::Unknown(other)),
        }
    }

    /// The raw status byte of this error.
    pub fn as_status_byte(self) -> (b: u8)
        ensures
            b == spec_chip_status_byte(self),
    {
        match self {
            ChipError::CheckMacOrVerifyFailed => 0x01,
            ChipError::ParseError => 0x03,
            ChipError::EccFault => 0x05,
            ChipError::SelfTestFailed => 0x07,
            ChipError::HealthTestFailed => 0x08,
            ChipError::ExecutionError => 0x0F,
            ChipError::WatchdogAboutToExpire => 0xEE,
            ChipError::CommandCrcError => 0xFF,
            ChipError::Unknown(byte) => byte,
        }
    }
}

/// Every non-chip kind survives the trip through its sub-code, and its
/// sub-code is never the reserved `0x00`.
pub proof fn lemma_sub_code_round_trip(k: AteccErrorKind)
    requires
        !(k is Chip),
    ensures
        spec_from_sub_code(spec_sub_code(k)) == Some(k),
        spec_sub_code(k) != 0x00,
{
}

/// A sub-code that decodes to a kind encodes back to itself.
pub proof fn lemma_from_sub_code_inverse(byte: u8)
    requires
        spec_from_sub_code(byte) is Some,
    ensures
        spec_sub_code(spec_from_sub_code(byte).unwrap()) == byte,
        !(spec_from_sub_code(byte).unwrap() is Chip),
{
}

/// Distinct non-chip kinds have distinct sub-codes.
pub proof fn lemma_sub_codes_distinct(a: AteccErrorKind, b: AteccErrorKind)
    requires
        !(a is Chip),
        !(b is Chip),
        a != b,
    ensures
        spec_sub_code(a) != spec_sub_code(b),
{
}

/// Every non-zero status byte decodes to a chip error that encodes back to
/// the same byte; `0x00` decodes to nothing.
pub proof fn lemma_status_byte_round_trip(byte: u8)
    ensures
        byte == 0 <==> spec_chip_error_from_byte(byte) is None,
        byte != 0 ==> spec_chip_status_byte(spec_chip_error_from_byte(byte).unwrap()) == byte,
{
}

/// A chip error decodes back to itself from its status byte, unless it is an
/// `Unknown` holding a byte that has a name of its own (or the success byte).
pub proof fn lemma_chip_error_round_trip(e: ChipError)
    requires
        e matches ChipError::Unknown(b) ==> spec_chip_error_from_byte(b) == Some(ChipError::Unknown(b)),
    ensures
        spec_chip_error_from_byte(spec_chip_status_byte(e)) == Some(e),
{
}

} // verus!
