use std::collections::HashMap;
use vstd::prelude::*;

use crate::entity::Entity;

verus! {

broadcast use vstd::std_specs::hash::group_hash_axioms;

/// Unique client ID provided by a messaging backend.
#[derive(Clone, Copy, Debug, PartialEq, Eq, Structural, Hash)]
pub struct ClientId(u64);

impl ClientId {
    /// The value inside the ID.
    pub closed spec fn value(self) -> u64 {
        self.0
    }

    /// Creates a new ID wrapping the given value.
    pub fn new(value: u64) -> (id: Self)
        ensures
            id.value() == value,
    {
        Self(value)
    }

    /// Gets the value of this ID.
    pub fn get(&self) -> (value: u64)
        ensures
            value == self.value(),
    {
        self.0
    }

    /// Two IDs are equal exactly when their values are.
    pub proof fn lemma_value_injective(a: Self, b: Self)
        ensures
            (a.value() == b.value()) <==> (a == b),
    {
    }
}

/// Marker for a connected client.
///
/// `Entity` is used as an identifier to refer to a client.
pub struct ConnectedClient {
    id: ClientId,
    /// Maximum size of a message that can be transferred over an unreliable channel without
    /// splitting into multiple packets.
    pub max_size: usize,
}

impl ConnectedClient {
    /// The backend-provided ID.
    pub closed spec fn id_spec(&self) -> ClientId {
        self.id
    }

    /// The maximum message size.
    pub closed spec fn max_size_spec(&self) -> usize {
        self.max_size
    }

    /// Creates a new instance with a backend-provided ID and maximum message size for the
    /// unreliable channel.
    pub fn new(id: ClientId, max_size: usize) -> (client: Self)
        ensures
            client.id_spec() == id,
            client.max_size_spec() == max_size,
    {
        Self { id, max_size }
    }

    /// Returns the client ID provided by the backend.
    pub fn id(&self) -> (id: ClientId)
        ensures
            id == self.id_spec(),
    {
        self.id
    }
}

/// Maps [`ConnectedClient::id`] to the associated client entity.
///
/// Updated when client entities are spawned and despawned.
pub struct ClientIdMap(HashMap<u64, Entity>);

impl ClientIdMap {
    /// Client entities by client ID value.
    pub closed spec fn entities(&self) -> Map<u64, Entity> {
        self.0@
    }

    /// An empty map.
    pub fn new() -> (map: Self)
        ensures
            map.entities() == Map::<u64, Entity>::empty(),
    {
        ClientIdMap(HashMap::new())
    }

    /// Records that the client with `id` is represented by `entity`.
    ///
    /// Returns the entity that was mapped to this ID before, if any: a backend that hands out
    /// the same ID twice is at fault, and the newer entity wins.
    pub fn on_client_add(&mut self, id: ClientId, entity: Entity) -> (previous: Option<Entity>)
        ensures
            final(self).entities() == old(self).entities().insert(id.value(), entity),
            previous == (if old(self).entities().contains_key(id.value()) {
                Some(old(self).entities()[id.value()])
            } else {
                None
            }),
    {
        self.0.insert(id.get(), entity)
    }

    /// Forgets the client with `id`.
    pub fn on_client_remove(&mut self, id: ClientId)
        ensures
            final(self).entities() == old(self).entities().remove(id.value()),
    {
        self.0.remove(&id.get());
    }

    /// The entity of the client with `id`, if it is connected.
    pub fn get(&self, id: ClientId) -> (entity: Option<Entity>)
        ensures
            entity == (if self.entities().contains_key(id.value()) {
                Some(self.entities()[id.value()])
            } else {
                None
            }),
    {
        match self.0.get(&id.get()) {
            Some(entity) => Some(*entity),
            None => None,
        }
    }
}


/// Whether `index` is the first position of the client `id` among `entries`.
pub open spec fn is_first_position<T>(entries: Seq<(ClientId, T)>, id: ClientId, index: int) -> bool {
    &&& 0 <= index < entries.len()
    &&& entries[index].0 == id
    &&& forall|j: int| 0 <= j < index ==> (#[trigger] entries[j]).0 != id
}

/// Whether the client `id` is among `entries`.
pub open spec fn holds_client<T>(entries: Seq<(ClientId, T)>, id: ClientId) -> bool {
    exists|j: int| 0 <= j < entries.len() && (#[trigger] entries[j]).0 == id
}

/// Connected clients in order of connection, each with the data kept about its connection.
#[derive(Debug)]
pub struct ConnectedClients<T> {
    clients: Vec<(ClientId, T)>,
}

impl<T> ConnectedClients<T> {
    /// The clients with their data, in order of connection.
    pub closed spec fn entries(&self) -> Seq<(ClientId, T)> {
        self.clients@
    }

    /// No client.
    pub fn new() -> (clients: Self)
        ensures
            clients.entries() == Seq::<(ClientId, T)>::empty(),
    {
        ConnectedClients { clients: Vec::new() }
    }

    /// Adds a newly connected client after the others.
    pub fn add(&mut self, id: ClientId, data: T)
        ensures
            final(self).entries() == old(self).entries().push((id, data)),
    {
        self.clients.push((id, data));
    }

    /// The position of the client `id`, if it is connected.
    pub fn position(&self, id: ClientId) -> (index: Option<usize>)
        ensures
            match index {
                Some(i) => is_first_position(self.entries(), id, i as int),
                None => !holds_client(self.entries(), id),
            },
    {
        let mut i: usize = 0;
        while i < self.clients.len()
            invariant
                i <= self.clients@.len(),
                forall|j: int| 0 <= j < i ==> (#[trigger] self.clients@[j]).0 != id,
            decreases self.clients@.len() - i,
        {
            if self.clients[i].0 == id {
                return Some(i);
            }
            i = i + 1;
        }
        None
    }

    /// Removes a disconnected client; the others keep their order.
    pub fn remove(&mut self, id: ClientId)
        requires
            holds_client(old(self).entries(), id),
        ensures
            exists|i: int|
                is_first_position(old(self).entries(), id, i) && final(self).entries() == old(
                    self,
                ).entries().remove(i),
    {
        match self.position(id) {
            Some(index) => {
                self.clients.remove(index);
            },
            None => {},
        }
    }

    /// The number of connected clients.
    pub fn len(&self) -> (len: usize)
        ensures
            len == self.entries().len(),
    {
        self.clients.len()
    }

    /// The client at `index` with its data.
    pub fn get(&self, index: usize) -> (entry: &(ClientId, T))
        requires
            index < self.entries().len(),
        ensures
            *entry == self.entries()[index as int],
    {
        &self.clients[index]
    }

    /// The data of the client at `index`, for modification; its ID stays.
    pub fn data_mut(&mut self, index: usize) -> (data: &mut T)
        requires
            index < old(self).entries().len(),
        ensures
            *data == old(self).entries()[index as int].1,
            final(self).entries() == old(self).entries().update(
                index as int,
                (old(self).entries()[index as int].0, *final(data)),
            ),
    {
        &mut self.clients[index].1
    }
}

} // verus!
