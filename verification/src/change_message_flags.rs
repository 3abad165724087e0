use core::ops::BitOr;
use vstd::prelude::*;
use vstd::std_specs::ops::BitOrSpecImpl;

use crate::flags::{highest_bit, last_flag};

verus! {

/// Types of data included in the change message if the bit is set.
///
/// Serialized at the beginning of the message.
#[derive(Clone, Copy, Debug, PartialEq, Eq, Structural)]
pub struct ChangeMessageFlags(pub u8);

impl ChangeMessageFlags {
    /// Entity mappings are present.
    pub fn mappings() -> (flags: Self)
        ensures
            flags.bits_spec() == 0b00000001,
    {
        Self(0b00000001)
    }

    /// Despawns are present.
    pub fn despawns() -> (flags: Self)
        ensures
            flags.bits_spec() == 0b00000010,
    {
        Self(0b00000010)
    }

    /// Component removals are present.
    pub fn removals() -> (flags: Self)
        ensures
            flags.bits_spec() == 0b00000100,
    {
        Self(0b00000100)
    }

    /// Component changes are present.
    pub fn changes() -> (flags: Self)
        ensures
            flags.bits_spec() == 0b00001000,
    {
        Self(0b00001000)
    }

    /// The raw bits of the set.
    pub open spec fn bits_spec(self) -> u8 {
        self.0
    }

    /// All flags together.
    pub fn all() -> (flags: Self)
        ensures
            flags.bits_spec() == 0b00001111,
    {
        Self(0b00001111)
    }

    /// The raw bits of the set.
    pub fn bits(self) -> (bits: u8)
        ensures
            bits == self.bits_spec(),
    {
        self.0
    }

    /// Keeps any bits, known flags or not.
    pub fn from_bits_retain(bits: u8) -> (flags: Self)
        ensures
            flags.bits_spec() == bits,
    {
        Self(bits)
    }

    /// Whether no flag is set.
    pub fn is_empty(self) -> (empty: bool)
        ensures
            empty == (self.bits_spec() == 0),
    {
        self.0 == 0
    }

    /// Returns the last set flag in the message.
    pub fn last(self) -> (last: Self)
        requires
            self.bits_spec() != 0,
        ensures
            last.bits_spec() == last_flag(self.bits_spec()),
    {
        Self(highest_bit(self.0))
    }
}

impl BitOr for ChangeMessageFlags {
    type Output = Self;

    fn bitor(self, rhs: Self) -> (r: Self)
        ensures
            r.bits_spec() == self.bits_spec() | rhs.bits_spec(),
    {
        Self(self.0 | rhs.0)
    }
}

impl BitOrSpecImpl for ChangeMessageFlags {
    open spec fn obeys_bitor_spec() -> bool {
        true
    }

    open spec fn bitor_req(self, rhs: Self) -> bool {
        true
    }

    open spec fn bitor_spec(self, rhs: Self) -> Self {
        Self(self.0 | rhs.0)
    }
}

} // verus!
