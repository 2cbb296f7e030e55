//! The USB-HID protocol between host and token: fixed-size reports that
//! carry an opcode or status byte, a little-endian payload length and the
//! payload.
use vstd::prelude::*;

pub mod commands;
pub mod frame;
pub mod hid_descriptor;
pub mod responses;

verus! {

/// USB vendor id of the token.
pub const USB_VID: u16 = 0xCAFE;

/// USB product id of the token.
pub const USB_PID: u16 = 0x1312;

/// Size of every HID report, both directions.
pub const HID_REPORT_SIZE: usize = 128;

/// Header of a report: opcode or status, then the payload length.
pub const HEADER_SIZE: usize = 3;

/// Largest payload a report can carry.
pub const MAX_PAYLOAD_SIZE: usize = 125;

} // verus!
