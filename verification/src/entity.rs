use vstd::prelude::*;

verus! {

/// Largest generation an entity can carry (the top bit of the high half is reserved).
pub const MAX_GENERATION: u32 = 0x7FFF_FFFF;

/// Identifier of an entity: an index and a generation, packed into a `u64` with the
/// generation in the high half and the index in the low half.
///
/// The generation is never zero and never uses the reserved top bit.
#[derive(Clone, Copy, Debug, PartialEq, Eq, Structural, Hash)]
pub struct Entity {
    index: u32,
    generation: u32,
}

/// The packed form of an index and a generation.
pub open spec fn pack_bits(index: u32, generation: u32) -> u64 {
    (generation as int * 0x1_0000_0000 + index as int) as u64
}

/// Whether `bits` is the packed form of a valid entity.
pub open spec fn valid_entity_bits(bits: u64) -> bool {
    1 <= bits / 0x1_0000_0000 <= MAX_GENERATION
}

impl Entity {
    /// The invariant every entity keeps.
    #[verifier::type_invariant]
    closed spec fn inv(self) -> bool {
        1 <= self.generation <= MAX_GENERATION
    }

    /// Index of the entity.
    pub closed spec fn index_spec(self) -> u32 {
        self.index
    }

    /// Generation of the entity.
    pub closed spec fn generation_spec(self) -> u32 {
        self.generation
    }

    /// Whether the generation is in the valid range; every entity built by this type is.
    pub open spec fn wf(self) -> bool {
        1 <= self.generation_spec() <= MAX_GENERATION
    }

    /// Packed bits of the entity.
    pub open spec fn bits(self) -> u64 {
        pack_bits(self.index_spec(), self.generation_spec())
    }

    /// Two entities are equal exactly when their packed bits are.
    pub proof fn lemma_bits_injective(a: Self, b: Self)
        ensures
            (a.bits() == b.bits()) <==> (a == b),
    {
    }

    /// Two entities are equal exactly when their indices and generations are.
    pub proof fn lemma_eq_by_parts(a: Self, b: Self)
        ensures
            (a.index_spec() == b.index_spec() && a.generation_spec() == b.generation_spec())
                <==> (a == b),
    {
    }

    /// Creates an entity with the given index and a generation of 1.
    pub fn from_raw(index: u32) -> (entity: Self)
        ensures
            entity.index_spec() == index,
            entity.generation_spec() == 1,
            entity.wf(),
    {
        Entity { index, generation: 1 }
    }

    /// Creates an entity from an index and a generation.
    pub fn from_raw_and_generation(index: u32, generation: u32) -> (entity: Self)
        requires
            1 <= generation <= MAX_GENERATION,
        ensures
            entity.index_spec() == index,
            entity.generation_spec() == generation,
            entity.wf(),
    {
        Entity { index, generation }
    }

    /// An entity used as a placeholder: index `u32::MAX` and generation 1.
    pub fn placeholder() -> (entity: Self)
        ensures
            entity.index_spec() == u32::MAX,
            entity.generation_spec() == 1,
            entity.wf(),
    {
        Entity { index: u32::MAX, generation: 1 }
    }

    /// Every entity value in executable code is well formed.
    pub fn check_wf(&self)
        ensures
            self.wf(),
    {
        proof {
            use_type_invariant(self);
        }
    }

    /// Index of the entity.
    pub fn index(self) -> (index: u32)
        ensures
            index == self.index_spec(),
    {
        self.index
    }

    /// Generation of the entity.
    pub fn generation(self) -> (generation: u32)
        ensures
            generation == self.generation_spec(),
            1 <= generation <= MAX_GENERATION,
    {
        proof {
            use_type_invariant(self);
        }
        self.generation
    }

    /// Packs the entity into a `u64`: the generation in the high half, the index in the low half.
    pub fn to_bits(self) -> (bits: u64)
        ensures
            bits == self.bits(),
            valid_entity_bits(bits),
    {
        proof {
            use_type_invariant(self);
        }
        let g = self.generation as u64;
        let i = self.index as u64;
        assert((g << 32u64) | i == g * 0x1_0000_0000 + i) by (bit_vector)
            requires
                g < 0x1_0000_0000,
                i < 0x1_0000_0000,
        ;
        (g << 32u64) | i
    }

    /// Rebuilds an entity from bits that are the packed form of a valid entity.
    pub fn from_bits(bits: u64) -> (entity: Self)
        requires
            valid_entity_bits(bits),
        ensures
            entity.bits() == bits,
            entity.wf(),
    {
        let high = (bits >> 32u64) as u32;
        let low = (bits & 0xFFFF_FFFFu64) as u32;
        assert(bits >> 32u64 == bits / 0x1_0000_0000) by (bit_vector);
        assert(bits & 0xFFFF_FFFFu64 == bits % 0x1_0000_0000) by (bit_vector);
        Entity { index: low, generation: high }
    }

    /// Rebuilds an entity from bits, or `None` when they are not the packed form of a valid entity.
    pub fn try_from_bits(bits: u64) -> (entity: Option<Self>)
        ensures
            entity is Some <==> valid_entity_bits(bits),
            entity matches Some(e) ==> e.bits() == bits && e.wf(),
    {
        let high = bits >> 32u64;
        assert(bits >> 32u64 == bits / 0x1_0000_0000) by (bit_vector);
        if 1 <= high && high <= MAX_GENERATION as u64 {
            Some(Self::from_bits(bits))
        } else {
            None
        }
    }
}

} // verus!
