//! The HID report descriptor: one vendor-defined collection with a
//! 128-byte input report and a 128-byte output report.
use vstd::prelude::*;

verus! {

/// The HID report descriptor the token presents.
pub const HID_REPORT_DESCRIPTOR: [u8; 34] = [
    0x06, 0x00, 0xFF,
    0x09, 0x01,
    0xA1, 0x01,
    0x09, 0x20,
    0x15, 0x00,
    0x26, 0xFF, 0x00,
    0x75, 0x08,
    0x95, 0x80,
    0x81, 0x02,
    0x09, 0x21,
    0x15, 0x00,
    0x26, 0xFF, 0x00,
    0x75, 0x08,
    0x95, 0x80,
    0x91, 0x02,
    0xC0,
];

} // verus!
