//! Slot identifiers: the chip has sixteen data slots, numbered 0 to 15.
use vstd::prelude::*;

verus! {

/// Number of data slots on the chip.
pub const SLOT_COUNT: u8 = 16;

/// A slot index known to be below [`SLOT_COUNT`].
#[derive(Debug, Clone, Copy, PartialEq, Eq, Structural)]
pub struct Slot(u8);

impl Slot {
    #[verifier::type_invariant]
    spec fn in_range(self) -> bool {
        self.0 < SLOT_COUNT
    }

    /// The slot's index.
    pub closed spec fn index(self) -> u8 {
        self.0
    }

    /// Build a slot from a raw index; `None` when `index >= 16`.
    pub fn new(index: u8) -> (r: Option<Self>)
        ensures
            index < SLOT_COUNT ==> (r matches Some(s) && s.index() == index),
            index >= SLOT_COUNT ==> r is None,
    {
        if index < SLOT_COUNT {
            Some(Slot(index))
        } else {
            None
        }
    }

    /// Build a slot from an index the caller knows to be in range.
    pub fn const_new(index: u8) -> (r: Self)
        requires
            index < SLOT_COUNT,
        ensures
            r.index() == index,
    {
        Slot(index)
    }

    /// The raw slot index.
    pub fn as_u8(self) -> (r: u8)
        ensures
            r == self.index(),
            r < SLOT_COUNT,
    {
        proof {
            use_type_invariant(self);
        }
        self.0
    }
}

} // verus!
