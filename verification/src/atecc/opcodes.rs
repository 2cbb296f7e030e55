//! Numeric constants of the ATECC608B wire protocol.
use vstd::prelude::*;

verus! {

/// Default 7-bit I2C address of the chip.
pub const I2C_ADDRESS: u8 = 0x60;

/// Word address that puts the chip to sleep.
pub const WORD_ADDRESS_SLEEP: u8 = 0x01;

/// Word address that puts the chip in idle mode.
pub const WORD_ADDRESS_IDLE: u8 = 0x02;

/// Word address that precedes every command frame.
pub const WORD_ADDRESS_COMMAND: u8 = 0x03;

/// Length of the low pulse on SDA that wakes the chip, in microseconds.
pub const WAKE_LOW_DURATION_US: u32 = 60;

/// Delay between the wake pulse and the first transfer, in microseconds.
pub const WAKE_DELAY_US: u32 = 4_500;

/// Period between two polls of a busy chip, in milliseconds.
pub const POLLING_PERIOD_MS: u32 = 2;

/// Total polling budget before a command is declared timed out.
pub const POLLING_MAX_MS: u32 = 2_500;

/// Largest packet the chip accepts.
pub const MAX_PACKET_SIZE: usize = 163;

/// Largest response the chip emits.
pub const MAX_RESPONSE_SIZE: usize = 155;

/// Count byte, opcode, param1, two param2 bytes and two CRC bytes.
pub const COMMAND_FRAME_OVERHEAD: usize = 7;

/// Largest data block a command frame may carry.
pub const MAX_COMMAND_DATA_LEN: usize = 155;

/// Opcode of `Info`.
pub const OP_INFO: u8 = 0x30;
/// Opcode of `Random`.
pub const OP_RANDOM: u8 = 0x1B;
/// Opcode of `Read`.
pub const OP_READ: u8 = 0x02;
/// Opcode of `Write`.
pub const OP_WRITE: u8 = 0x12;
/// Opcode of `Lock`.
pub const OP_LOCK: u8 = 0x17;
/// Opcode of `Nonce`.
pub const OP_NONCE: u8 = 0x16;
/// Opcode of `GenKey`.
pub const OP_GENKEY: u8 = 0x40;
/// Opcode of `Sign`.
pub const OP_SIGN: u8 = 0x41;
/// Opcode of `Verify`.
pub const OP_VERIFY: u8 = 0x45;
/// Opcode of `PrivWrite`.
pub const OP_PRIVWRITE: u8 = 0x46;
/// Opcode of `Counter`.
pub const OP_COUNTER: u8 = 0x24;
/// Opcode of `CheckMac`.
pub const OP_CHECKMAC: u8 = 0x28;
/// Opcode of `GenDig`.
pub const OP_GENDIG: u8 = 0x15;

/// Typical execution time of `Info`, in milliseconds.
pub const EXEC_TIME_INFO_MS: u32 = 5;
/// Typical execution time of `Random`.
pub const EXEC_TIME_RANDOM_MS: u32 = 23;
/// Typical execution time of `Read`.
pub const EXEC_TIME_READ_MS: u32 = 5;
/// Typical execution time of `Write`.
pub const EXEC_TIME_WRITE_MS: u32 = 45;
/// Typical execution time of `Lock`.
pub const EXEC_TIME_LOCK_MS: u32 = 35;
/// Typical execution time of `Nonce`.
pub const EXEC_TIME_NONCE_MS: u32 = 20;
/// Typical execution time of `GenKey`.
pub const EXEC_TIME_GENKEY_MS: u32 = 215;
/// Typical execution time of `Sign`.
pub const EXEC_TIME_SIGN_MS: u32 = 220;
/// Typical execution time of `Verify`.
pub const EXEC_TIME_VERIFY_MS: u32 = 295;
/// Typical execution time of `PrivWrite`.
pub const EXEC_TIME_PRIVWRITE_MS: u32 = 50;
/// Typical execution time of `Counter`.
pub const EXEC_TIME_COUNTER_MS: u32 = 25;
/// Typical execution time of `CheckMac`.
pub const EXEC_TIME_CHECKMAC_MS: u32 = 40;
/// Typical execution time of `GenDig`.
pub const EXEC_TIME_GENDIG_MS: u32 = 25;

} // verus!
