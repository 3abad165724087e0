use core::ops::BitOr;
use vstd::prelude::*;
use vstd::std_specs::ops::BitOrSpecImpl;

use crate::flags::{highest_bit, last_flag};

verus! {

/// Types of arrays included in the init message if the bit is set.
///
/// Serialized at the beginning of the message.
#[derive(Clone, Copy, Debug, PartialEq, Eq, Structural)]
pub struct InitMessageArrays(pub u8);

impl InitMessageArrays {
    /// Entity mappings are present.
    pub fn mappings() -> (arrays: Self)
        ensures
            arrays.bits_spec() == 0b00000001,
    {
        Self(0b00000001)
    }

    /// Despawns are present.
    pub fn despawns() -> (arrays: Self)
        ensures
            arrays.bits_spec() == 0b00000010,
    {
        Self(0b00000010)
    }

    /// Component removals are present.
    pub fn removals() -> (arrays: Self)
        ensures
            arrays.bits_spec() == 0b00000100,
    {
        Self(0b00000100)
    }

    /// Component changes are present.
    pub fn changes() -> (arrays: Self)
        ensures
            arrays.bits_spec() == 0b00001000,
    {
        Self(0b00001000)
    }

    /// The raw bits of the set.
    pub open spec fn bits_spec(self) -> u8 {
        self.0
    }

    /// All flags together.
    pub fn all() -> (arrays: Self)
        ensures
            arrays.bits_spec() == 0b00001111,
    {
        Self(0b00001111)
    }

    /// The raw bits of the set.
    pub fn bits(self) -> (bits: u8)
        ensures
            bits == self.bits_spec(),
    {
        self.0
    }

    /// Keeps any bits, known flags or not.
    pub fn from_bits_retain(bits: u8) -> (arrays: Self)
        ensures
            arrays.bits_spec() == bits,
    {
        Self(bits)
    }

    /// Whether no flag is set.
    pub fn is_empty(self) -> (empty: bool)
        ensures
            empty == (self.bits_spec() == 0),
    {
        self.0 == 0
    }

    /// Returns the last array in the message for which the bit is set.
    pub fn last(self) -> (last: Self)
        requires
            self.bits_spec() != 0,
        ensures
            last.bits_spec() == last_flag(self.bits_spec()),
    {
        Self(highest_bit(self.0))
    }
}

impl BitOr for InitMessageArrays {
    type Output = Self;

    fn bitor(self, rhs: Self) -> (r: Self)
        ensures
            r.bits_spec() == self.bits_spec() | rhs.bits_spec(),
    {
        Self(self.0 | rhs.0)
    }
}

impl BitOrSpecImpl for InitMessageArrays {
    open spec fn obeys_bitor_spec() -> bool {
        true
    }

    open spec fn bitor_req(self, rhs: Self) -> bool {
        true
    }

    open spec fn bitor_spec(self, rhs: Self) -> Self {
        Self(self.0 | rhs.0)
    }
}

} // verus!
