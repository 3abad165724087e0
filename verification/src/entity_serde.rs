//! Custom serialization for entities to pack them more efficiently.

use bytes::Bytes;
use postcard::Error;
use vstd::prelude::*;

use crate::entity::{valid_entity_bits, Entity};
use crate::message_bytes::{bytes_as_slice, bytes_content, bytes_slice_from};
use crate::varint::{
    postcard_extend_u32, postcard_extend_u64, postcard_take_u32, postcard_take_u64,
    take_varint_u32, take_varint_u64, varint,
};

verus! {

/// The index of an entity shifted left by one, with the low bit set when the generation is
/// written too (generations above 1).
pub open spec fn flagged_index(entity: Entity) -> nat {
    (entity.index_spec() as nat) * 2 + (if entity.generation_spec() > 1 { 1nat } else { 0nat })
}

/// The bytes [`serialize_entity`] writes for `entity`: the flagged index, then the generation
/// minus one if the flag is set, each as a varint.
pub open spec fn entity_bytes(entity: Entity) -> Seq<u8> {
    varint(flagged_index(entity)) + (if entity.generation_spec() > 1 {
        varint((entity.generation_spec() - 1) as nat)
    } else {
        Seq::<u8>::empty()
    })
}

/// Reading the parts of a packed entity from `bytes`: the flagged index, the generation (one
/// more than the written value, or 1 when none is written) and the number of bytes read.
pub open spec fn take_entity_parts(bytes: Seq<u8>) -> Option<(nat, nat, nat)> {
    match take_varint_u64(bytes) {
        None => None,
        Some((flagged, end)) => if flagged % 2 == 1 {
            match take_varint_u32(bytes.skip(end as int)) {
                None => None,
                Some((generation, used)) => Some((flagged, generation + 1, end + used)),
            }
        } else {
            Some((flagged, 1nat, end))
        },
    }
}

/// The bits rebuilt from a flagged index and a generation: the generation in the high half,
/// OR-ed with the index.
pub open spec fn rebuilt_bits(flagged: u64, generation: u64) -> u64 {
    (generation << 32u64) | (flagged >> 1u64)
}

/// Whether reading an entity from `bytes` yields a valid entity when the parts can be read.
pub open spec fn decodes_to_valid_entity(bytes: Seq<u8>) -> bool {
    take_entity_parts(bytes) matches Some((flagged, generation, _)) ==> generation <= u32::MAX
        && valid_entity_bits(rebuilt_bits(flagged as u64, generation as u64))
}

/// Serializes `entity` by writing its index and generation as separate varints.
///
/// The index is first shifted left to make room for a bit flag that tells whether the
/// generation is written. It is written only when it is above 1, since 1 is the first
/// generation.
pub fn serialize_entity(message: &mut Vec<u8>, entity: Entity) -> (result: Result<(), Error>)
    ensures
        result is Ok,
        final(message)@ == old(message)@ + entity_bytes(entity),
{
    let index = entity.index();
    let generation = entity.generation();
    let flag = generation > 1;
    let flagged = (index as u64) * 2 + if flag { 1u64 } else { 0u64 };
    let written = postcard_extend_u64(flagged, message);
    match written {
        Ok(()) => {},
        Err(e) => {
            return Err(e);
        },
    }
    if flag {
        let written = postcard_extend_u32(generation - 1, message);
        match written {
            Ok(()) => {},
            Err(e) => {
                return Err(e);
            },
        }
    }
    proof {
        assert(final(message)@ =~= old(message)@ + entity_bytes(entity));
    }
    Ok(())
}

/// Reads the flagged index and the generation of a packed entity from the front of
/// `message`, advancing it past the bytes read.
fn take_entity(message: &mut Bytes) -> (result: Result<(u64, u64), Error>)
    ensures
        match take_entity_parts(bytes_content(*old(message))) {
            Some((flagged, generation, end)) => result matches Ok((f, g)) && f == flagged && g
                == generation && bytes_content(*final(message)) == bytes_content(*old(message)).skip(
                end as int,
            ),
            None => result is Err,
        },
{
    let input = bytes_as_slice(message);
    let taken = postcard_take_u64(input);
    let (flagged, rest) = match taken {
        Ok(taken) => taken,
        Err(e) => {
            return Err(e);
        },
    };
    proof {
        crate::varint::lemma_take_varint_end(bytes_content(*old(message)), 0, 10, 1);
    }
    let used = input.len() - rest.len();
    *message = bytes_slice_from(message, used);
    let has_generation = flagged % 2 == 1;
    let generation: u64 = if has_generation {
        let input = bytes_as_slice(message);
        proof {
            crate::varint::lemma_take_varint_end(input@, 0, 5, 15);
        }
        let taken = postcard_take_u32(input);
        let (written, rest) = match taken {
            Ok(taken) => taken,
            Err(e) => {
                return Err(e);
            },
        };
        let used = input.len() - rest.len();
        *message = bytes_slice_from(message, used);
        written as u64 + 1
    } else {
        1u64
    };
    Ok((flagged, generation))
}

/// Deserializes an entity written by [`serialize_entity`] from the front of `message`,
/// advancing it past the bytes read.
pub fn deserialize_entity(message: &mut Bytes) -> (result: Result<Entity, Error>)
    requires
        decodes_to_valid_entity(bytes_content(*old(message))),
    ensures
        match take_entity_parts(bytes_content(*old(message))) {
            Some((flagged, generation, end)) => result matches Ok(entity) && entity.bits()
                == rebuilt_bits(flagged as u64, generation as u64) && bytes_content(*final(message))
                == bytes_content(*old(message)).skip(end as int),
            None => result is Err,
        },
{
    let (flagged, generation) = match take_entity(message) {
        Ok(parts) => parts,
        Err(e) => {
            return Err(e);
        },
    };
    Ok(Entity::from_bits((generation << 32u64) | (flagged >> 1u64)))
}

/// Why an entity could not be read.
#[derive(Debug)]
pub enum EntityReadError {
    /// The bytes do not hold a packed entity.
    Malformed(Error),
    /// The bytes hold index and generation that make no valid entity.
    Invalid,
}

/// Reads an entity written by [`serialize_entity`] from the front of `message`, advancing it
/// past the bytes read, as [`deserialize_entity`] does; bytes whose index and generation make
/// no valid entity give [`EntityReadError::Invalid`].
pub fn try_deserialize_entity(message: &mut Bytes) -> (result: Result<Entity, EntityReadError>)
    ensures
        match take_entity_parts(bytes_content(*old(message))) {
            Some((flagged, generation, end)) => {
                &&& bytes_content(*final(message)) == bytes_content(*old(message)).skip(end as int)
                &&& if decodes_to_valid_entity(bytes_content(*old(message))) {
                    result matches Ok(entity) && entity.bits() == rebuilt_bits(
                        flagged as u64,
                        generation as u64,
                    )
                } else {
                    result matches Err(EntityReadError::Invalid)
                }
            },
            None => result matches Err(EntityReadError::Malformed(_)),
        },
{
    let (flagged, generation) = match take_entity(message) {
        Ok(parts) => parts,
        Err(e) => {
            return Err(EntityReadError::Malformed(e));
        },
    };
    if generation > 0xFFFF_FFFFu64 {
        return Err(EntityReadError::Invalid);
    }
    match Entity::try_from_bits((generation << 32u64) | (flagged >> 1u64)) {
        Some(entity) => Ok(entity),
        None => Err(EntityReadError::Invalid),
    }
}

/// Reading back what [`serialize_entity`] wrote gives the same entity, whatever follows it.
pub proof fn lemma_entity_roundtrip(entity: Entity, rest: Seq<u8>)
    requires
        entity.wf(),
    ensures
        take_entity_parts(entity_bytes(entity) + rest) == Some(
            (flagged_index(entity), entity.generation_spec() as nat, entity_bytes(entity).len()),
        ),
        decodes_to_valid_entity(entity_bytes(entity) + rest),
        rebuilt_bits(flagged_index(entity) as u64, entity.generation_spec() as u64) == entity.bits(),
{
    let flagged = flagged_index(entity);
    let generation = entity.generation_spec();
    let index = entity.index_spec();
    let tail = if generation > 1 {
        varint((generation - 1) as nat)
    } else {
        Seq::<u8>::empty()
    };
    let bytes = entity_bytes(entity) + rest;
    assert(bytes =~= varint(flagged) + (tail + rest));
    crate::varint::lemma_take_varint_u64(flagged as u64, tail + rest);
    assert(bytes.skip(varint(flagged).len() as int) =~= tail + rest);
    if generation > 1 {
        crate::varint::lemma_take_varint_u32((generation - 1) as u32, rest);
    }
    let f = flagged as u64;
    let g = generation as u64;
    let i = index as u64;
    assert((g << 32u64) | (f >> 1u64) == g * 0x1_0000_0000 + i) by (bit_vector)
        requires
            f == i * 2 || f == i * 2 + 1,
            i < 0x1_0000_0000,
            g < 0x1_0000_0000,
    ;
}

} // verus!
