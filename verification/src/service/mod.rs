//! The crypto service: PIN and PUK management, sessions, signing and
//! provisioning on top of the chip driver.

pub mod encrypted_write;
pub mod chip_ops;
pub mod error;
pub mod pin;
pub mod runs;
pub mod session;
pub mod sha;
pub mod slots;
pub mod service;
