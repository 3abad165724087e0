use vstd::prelude::*;

verus! {

/// Identifier for mutate messages.
///
/// Used for mutations acknowledgement. Serialized as a fixed-size little-endian integer.
#[derive(Clone, Copy, Debug, PartialEq, Eq, Structural, Hash)]
pub struct MutateIndex(pub u16);

impl MutateIndex {
    /// Returns the current value and increments `self` by 1.
    ///
    /// Wraps on overflow.
    pub fn advance(&mut self) -> (current: Self)
        ensures
            current == *old(self),
            final(self).0 == (if old(self).0 == u16::MAX { 0 } else { (old(self).0 + 1) as u16 }),
    {
        let next = *self;
        self.0 = self.0.wrapping_add(1);
        next
    }
}

impl Default for MutateIndex {
    fn default() -> (index: Self)
        ensures
            index.0 == 0,
    {
        MutateIndex(0)
    }
}

} // verus!
