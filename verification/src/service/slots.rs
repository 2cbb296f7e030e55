//! The project's slot map and retry limits.
use vstd::prelude::*;
use crate::atecc::slot::Slot;
use crate::service::pin::PIN_LEN;

verus! {

/// Index of the slot holding the PIN hash.
pub const SLOT_PIN_HASH_INDEX: u8 = 5;

/// Index of the slot holding the PUK hash.
pub const SLOT_PUK_HASH_INDEX: u8 = 6;

/// Index of the slot holding the I/O protection key.
pub const SLOT_IO_KEY_INDEX: u8 = 8;

/// PIN attempts per batch, tracked by Counter0.
pub const PIN_MAX_RETRIES: u8 = 5;

/// PUK attempts per batch, tracked by Counter1.
pub const PUK_MAX_RETRIES: u8 = 10;

/// The PIN slot.
pub fn slot_pin_hash() -> (r: Slot)
    ensures
        r.index() == SLOT_PIN_HASH_INDEX,
{
    Slot::const_new(SLOT_PIN_HASH_INDEX)
}

/// The PUK slot.
pub fn slot_puk_hash() -> (r: Slot)
    ensures
        r.index() == SLOT_PUK_HASH_INDEX,
{
    Slot::const_new(SLOT_PUK_HASH_INDEX)
}

/// The I/O protection key slot.
pub fn slot_io_key() -> (r: Slot)
    ensures
        r.index() == SLOT_IO_KEY_INDEX,
{
    Slot::const_new(SLOT_IO_KEY_INDEX)
}

/// The factory PIN, `"0000"`.
pub open spec fn spec_pin_default() -> Seq<u8> {
    seq![0x30u8, 0x30u8, 0x30u8, 0x30u8]
}

/// The factory PIN, `"0000"`.
pub fn pin_default() -> (r: [u8; PIN_LEN])
    ensures
        r@ == spec_pin_default(),
{
    let r: [u8; PIN_LEN] = [0x30, 0x30, 0x30, 0x30];
    assert(r@ =~= spec_pin_default());
    r
}

} // verus!
