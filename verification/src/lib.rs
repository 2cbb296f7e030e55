//! Verified building blocks of a USB hardware security module built around
//! the Microchip ATECC608B secure element: the chip driver, the PIN/PUK
//! crypto service, the USB-HID command protocol and the firmware logic.

pub mod atecc;
pub mod firmware;
pub mod protocol;
pub mod service;
