//! Driver for the ATECC608B secure element, generic over a bus HAL.

pub mod command;
pub mod crc;
pub mod driver;
pub mod error;
pub mod hal;
pub mod opcodes;
pub mod packet;
pub mod slot;
pub mod wake;
