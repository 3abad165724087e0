use bytes::Bytes;

use bevy_replicon::entity::Entity;
use bevy_replicon::entity_serde::{deserialize_entity, serialize_entity, try_deserialize_entity, EntityReadError};
use bevy_replicon::event_ctx::{ClientReceiveCtx, ClientSendCtx, ServerEntityMap};

#[test]
fn entity_bits_pack_generation_and_index() {
    let entity = Entity::from_raw_and_generation(5, 3);
    assert_eq!(entity.index(), 5);
    assert_eq!(entity.generation(), 3);
    assert_eq!(entity.to_bits(), (3u64 << 32) | 5);
    assert_eq!(Entity::from_bits(entity.to_bits()), entity);
    assert_eq!(Entity::from_raw(7).generation(), 1);
    assert_eq!(Entity::placeholder().index(), u32::MAX);
}

#[test]
fn invalid_entity_bits_are_rejected() {
    assert!(Entity::try_from_bits(5).is_none());
    assert!(Entity::try_from_bits(0x8000_0000_0000_0001).is_none());
    assert_eq!(Entity::try_from_bits((1u64 << 32) | 9), Some(Entity::from_raw(9)));
}

#[test]
fn first_generation_is_not_written() {
    let mut message = Vec::new();
    serialize_entity(&mut message, Entity::from_raw(3)).unwrap();
    assert_eq!(message, vec![6]);

    let mut message = Vec::new();
    serialize_entity(&mut message, Entity::from_raw_and_generation(3, 2)).unwrap();
    assert_eq!(message, vec![7, 1]);
}

#[test]
fn entity_serialization_roundtrip() {
    let entities = [
        Entity::from_raw(0),
        Entity::from_raw(200),
        Entity::from_raw_and_generation(u32::MAX, 0x7FFF_FFFF),
        Entity::placeholder(),
    ];
    let mut message = Vec::new();
    for entity in entities {
        serialize_entity(&mut message, entity).unwrap();
    }
    message.push(0xEE);

    let mut bytes = Bytes::from(message);
    for entity in entities {
        assert_eq!(deserialize_entity(&mut bytes).unwrap(), entity);
    }
    assert_eq!(bytes.to_vec(), vec![0xEE]);
}

#[test]
fn truncated_entity_fails() {
    let mut bytes = Bytes::from(vec![0x81]);
    assert!(deserialize_entity(&mut bytes).is_err());
}

#[test]
fn received_entities_are_mapped_or_reported() {
    let mut map = ServerEntityMap::new();
    let server_entity = Entity::from_raw(100);
    let client_entity = Entity::from_raw(7);
    map.insert(server_entity, client_entity);

    let mut ctx = ClientReceiveCtx::new(&map);
    assert_eq!(ctx.get_mapped(server_entity), client_entity);
    assert!(ctx.check_mapped());

    assert_eq!(ctx.get_mapped(Entity::from_raw(5)), Entity::placeholder());
    assert!(!ctx.check_mapped());
    assert!(ctx.check_mapped(), "invalid entities are forgotten after a check");

    let send_ctx = ClientSendCtx { entity_map: &map };
    assert_eq!(send_ctx.get_mapped(client_entity), server_entity);
}

#[test]
fn unchecked_input_gives_entity_or_error() {
    let entity = Entity::from_raw_and_generation(9, 4);
    let mut message = Vec::new();
    serialize_entity(&mut message, entity).unwrap();
    message.push(0xEE);
    let mut bytes = Bytes::from(message);
    assert_eq!(try_deserialize_entity(&mut bytes).unwrap(), entity);
    assert_eq!(bytes.to_vec(), vec![0xEE]);

    let mut overflowing = Bytes::from(vec![0x01, 0xFF, 0xFF, 0xFF, 0xFF, 0x0F, 0xEE]);
    assert!(matches!(try_deserialize_entity(&mut overflowing), Err(EntityReadError::Invalid)));
    assert_eq!(overflowing.to_vec(), vec![0xEE]);

    let mut truncated = Bytes::from(vec![0x81]);
    assert!(matches!(try_deserialize_entity(&mut truncated), Err(EntityReadError::Malformed(_))));
}
