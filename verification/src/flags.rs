use vstd::prelude::*;

verus! {

/// The highest set bit of `bits` as a flag, or 0 when no bit is set.
pub open spec fn last_flag(bits: u8) -> u8 {
    if bits >= 128 {
        128
    } else if bits >= 64 {
        64
    } else if bits >= 32 {
        32
    } else if bits >= 16 {
        16
    } else if bits >= 8 {
        8
    } else if bits >= 4 {
        4
    } else if bits >= 2 {
        2
    } else if bits >= 1 {
        1
    } else {
        0
    }
}

/// Returns the highest set bit of a non-empty flag set.
pub fn highest_bit(bits: u8) -> (flag: u8)
    requires
        bits != 0,
    ensures
        flag == last_flag(bits),
{
    proof {
        vstd::std_specs::bits::axiom_u8_leading_zeros(bits);
    }
    let leading = bits.leading_zeros();
    let zeroes = u8::BITS - 1 - leading;
    let k = zeroes as u8;
    assert(1u8 << k == last_flag(bits)) by (bit_vector)
        requires
            k < 8,
            (bits >> k) & 1u8 != 0u8,
            bits >> ((k + 1) as u8) == 0u8,
    ;
    1u8 << k
}


/// The last flag of a non-empty set is one of its flags, a single bit, its own last flag,
/// and every other flag of the set lies below it.
pub proof fn lemma_last_flag(bits: u8)
    requires
        bits != 0,
    ensures
        last_flag(last_flag(bits)) == last_flag(bits),
        bits & last_flag(bits) == last_flag(bits),
        last_flag(bits) & ((last_flag(bits) - 1) as u8) == 0,
        bits & !last_flag(bits) < last_flag(bits),
{
    if bits >= 128 {
        assert(bits & 128u8 == 128u8 && bits & !128u8 < 128u8 && 128u8 & 127u8 == 0u8) by (bit_vector)
            requires
                bits >= 128u8,
        ;
    } else if bits >= 64 {
        assert(bits & 64u8 == 64u8 && bits & !64u8 < 64u8 && 64u8 & 63u8 == 0u8) by (bit_vector)
            requires
                bits >= 64u8,
            bits < 128u8,
        ;
    } else if bits >= 32 {
        assert(bits & 32u8 == 32u8 && bits & !32u8 < 32u8 && 32u8 & 31u8 == 0u8) by (bit_vector)
            requires
                bits >= 32u8,
            bits < 64u8,
        ;
    } else if bits >= 16 {
        assert(bits & 16u8 == 16u8 && bits & !16u8 < 16u8 && 16u8 & 15u8 == 0u8) by (bit_vector)
            requires
                bits >= 16u8,
            bits < 32u8,
        ;
    } else if bits >= 8 {
        assert(bits & 8u8 == 8u8 && bits & !8u8 < 8u8 && 8u8 & 7u8 == 0u8) by (bit_vector)
            requires
                bits >= 8u8,
            bits < 16u8,
        ;
    } else if bits >= 4 {
        assert(bits & 4u8 == 4u8 && bits & !4u8 < 4u8 && 4u8 & 3u8 == 0u8) by (bit_vector)
            requires
                bits >= 4u8,
            bits < 8u8,
        ;
    } else if bits >= 2 {
        assert(bits & 2u8 == 2u8 && bits & !2u8 < 2u8 && 2u8 & 1u8 == 0u8) by (bit_vector)
            requires
                bits >= 2u8,
            bits < 4u8,
        ;
    } else if bits >= 1 {
        assert(bits & 1u8 == 1u8 && bits & !1u8 < 1u8 && 1u8 & 0u8 == 0u8) by (bit_vector)
            requires
                bits >= 1u8,
            bits < 2u8,
        ;
    }
}

} // verus!
