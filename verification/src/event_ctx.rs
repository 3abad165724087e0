use std::collections::HashMap;
use vstd::prelude::*;

use crate::entity::Entity;

verus! {

broadcast use vstd::std_specs::hash::group_hash_axioms;

/// Maps of entities between the server and a client, by entity bits: each server entity to
/// its client entity, and back.
pub struct ServerEntityMap {
    to_client: HashMap<u64, Entity>,
    to_server: HashMap<u64, Entity>,
}

impl ServerEntityMap {
    /// Client entities by server entity bits.
    pub closed spec fn to_client_spec(&self) -> Map<u64, Entity> {
        self.to_client@
    }

    /// Server entities by client entity bits.
    pub closed spec fn to_server_spec(&self) -> Map<u64, Entity> {
        self.to_server@
    }

    /// No mapping.
    pub fn new() -> (map: Self)
        ensures
            map.to_client_spec() == Map::<u64, Entity>::empty(),
            map.to_server_spec() == Map::<u64, Entity>::empty(),
    {
        ServerEntityMap { to_client: HashMap::new(), to_server: HashMap::new() }
    }

    /// Records that `server_entity` is `client_entity` on the client, in both directions.
    pub fn insert(&mut self, server_entity: Entity, client_entity: Entity)
        ensures
            final(self).to_client_spec() == old(self).to_client_spec().insert(
                server_entity.bits(),
                client_entity,
            ),
            final(self).to_server_spec() == old(self).to_server_spec().insert(
                client_entity.bits(),
                server_entity,
            ),
    {
        self.to_client.insert(server_entity.to_bits(), client_entity);
        self.to_server.insert(client_entity.to_bits(), server_entity);
    }
}

/// Context of a client sending events: maps client entities to server entities.
pub struct ClientSendCtx<'a> {
    /// Mappings between server and client entities.
    pub entity_map: &'a ServerEntityMap,
}

impl<'a> ClientSendCtx<'a> {
    /// The server entity of a client entity, which must have a mapping.
    pub fn get_mapped(&self, source: Entity) -> (mapped: Entity)
        requires
            self.entity_map.to_server_spec().contains_key(source.bits()),
        ensures
            mapped == self.entity_map.to_server_spec()[source.bits()],
    {
        match self.entity_map.to_server.get(&source.to_bits()) {
            Some(entity) => *entity,
            None => source,
        }
    }
}

/// Context of a client receiving events: maps server entities to client entities and
/// remembers those without a mapping.
pub struct ClientReceiveCtx<'a> {
    /// Mappings between server and client entities.
    entity_map: &'a ServerEntityMap,
    /// Server entities met without a mapping.
    invalid_entities: Vec<Entity>,
}

impl<'a> ClientReceiveCtx<'a> {
    /// The server entities met without a mapping, in order.
    pub closed spec fn invalid_spec(&self) -> Seq<Entity> {
        self.invalid_entities@
    }

    /// The mappings the context reads.
    pub closed spec fn map_spec(&self) -> ServerEntityMap {
        *self.entity_map
    }

    /// A context with no entity met yet.
    pub fn new(entity_map: &'a ServerEntityMap) -> (ctx: Self)
        ensures
            ctx.map_spec() == *entity_map,
            ctx.invalid_spec().len() == 0,
    {
        ClientReceiveCtx { entity_map, invalid_entities: Vec::new() }
    }

    /// The client entity of a server entity; without a mapping, the entity is remembered as
    /// invalid and the placeholder entity stands for it.
    pub fn get_mapped(&mut self, source: Entity) -> (mapped: Entity)
        ensures
            final(self).map_spec() == old(self).map_spec(),
            old(self).map_spec().to_client_spec().contains_key(source.bits()) ==> {
                &&& mapped == old(self).map_spec().to_client_spec()[source.bits()]
                &&& final(self).invalid_spec() == old(self).invalid_spec()
            },
            !old(self).map_spec().to_client_spec().contains_key(source.bits()) ==> {
                &&& mapped.index_spec() == u32::MAX && mapped.generation_spec() == 1
                &&& final(self).invalid_spec() == old(self).invalid_spec().push(source)
            },
    {
        match self.entity_map.to_client.get(&source.to_bits()) {
            Some(entity) => *entity,
            None => {
                self.invalid_entities.push(source);
                Entity::placeholder()
            },
        }
    }

    /// Whether every entity met had a mapping; forgets the invalid ones.
    ///
    /// An event that refers to entities the client does not know is dropped.
    pub fn check_mapped(&mut self) -> (valid: bool)
        ensures
            valid == (old(self).invalid_spec().len() == 0),
            final(self).invalid_spec().len() == 0,
            final(self).map_spec() == old(self).map_spec(),
    {
        let valid = self.invalid_entities.len() == 0;
        self.invalid_entities.clear();
        valid
    }
}

} // verus!
