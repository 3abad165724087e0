use bevy::ecs::component::Tick;
use core::time::Duration;
use vstd::prelude::*;

use crate::change_tick::{duration_nanos, duration_saturating_sub, nanos_saturating_sub};
use crate::client_ticks::{ClientTicks, EntityBuffer, MutateInfo};
use crate::connected_client::ClientId;
use crate::entity::Entity;
use crate::mutate_index::MutateIndex;
use crate::replicon_tick::RepliconTick;

verus! {

/// Controls how visibility is managed for replicated clients.
#[derive(Clone, Copy, Debug, PartialEq, Eq, Structural)]
pub enum VisibilityPolicy {
    /// All entities are visible by default and visibility can't be changed.
    All,
    /// All entities are visible by default and should be explicitly registered to be hidden.
    Blacklist,
    /// All entities are hidden by default and should be explicitly registered to be visible.
    Whitelist,
}

impl Default for VisibilityPolicy {
    fn default() -> (policy: Self)
        ensures
            policy == VisibilityPolicy::All,
    {
        VisibilityPolicy::All
    }
}

/// A connected client with replication enabled.
pub struct ReplicatedClient {
    /// Client's ID.
    id: ClientId,
    /// Replication ticks and unacknowledged mutate messages of this client.
    ticks: ClientTicks,
}

/// Whether two client lists hold the same sequence of IDs.
pub open spec fn client_ids(clients: Seq<ReplicatedClient>) -> Seq<ClientId> {
    clients.map_values(|c: ReplicatedClient| c.id_spec())
}

impl ReplicatedClient {
    /// The client's ID.
    pub closed spec fn id_spec(&self) -> ClientId {
        self.id
    }

    /// The client's tracking state.
    pub closed spec fn ticks_spec(&self) -> ClientTicks {
        self.ticks
    }

    /// A fresh client with nothing tracked.
    fn new(id: ClientId) -> (client: Self)
        ensures
            client.id_spec() == id,
            client.ticks_spec().ticks_map() == Map::<u64, Tick>::empty(),
            client.ticks_spec().mutations_map() == Map::<u16, MutateInfo>::empty(),
            client.ticks_spec().next_index() == 0,
            client.ticks_spec().update_tick_spec()@ == 0,
    {
        ReplicatedClient { id, ticks: ClientTicks::new() }
    }

    /// Reuses this client's memory for a new client with `id`, resetting all its data.
    fn reset(&mut self, id: ClientId)
        ensures
            final(self).id_spec() == id,
            final(self).ticks_spec().ticks_map() == Map::<u64, Tick>::empty(),
            final(self).ticks_spec().mutations_map() == Map::<u16, MutateInfo>::empty(),
            final(self).ticks_spec().next_index() == 0,
            final(self).ticks_spec().update_tick_spec()@ == 0,
    {
        self.id = id;
        self.ticks.reset();
        self.ticks.set_update_tick(RepliconTick::new(0));
    }

    /// Returns the associated client ID.
    pub fn id(&self) -> (id: ClientId)
        ensures
            id == self.id_spec(),
    {
        self.id
    }

    /// Read access to the client's tracking state.
    pub fn ticks(&self) -> (ticks: &ClientTicks)
        ensures
            *ticks == self.ticks_spec(),
    {
        &self.ticks
    }

    /// Sets the client's update tick.
    pub fn set_update_tick(&mut self, tick: RepliconTick)
        ensures
            final(self).id_spec() == old(self).id_spec(),
            final(self).ticks_spec().update_tick_spec() == tick,
            final(self).ticks_spec().ticks_map() == old(self).ticks_spec().ticks_map(),
            final(self).ticks_spec().mutations_map() == old(self).ticks_spec().mutations_map(),
            final(self).ticks_spec().next_index() == old(self).ticks_spec().next_index(),
    {
        self.ticks.set_update_tick(tick);
    }

    /// Returns the last tick in which a replicated entity had an insertion, removal, or
    /// gained/lost a component from the perspective of the client.
    pub fn update_tick(&self) -> (tick: RepliconTick)
        ensures
            tick == self.ticks_spec().update_tick_spec(),
    {
        self.ticks.update_tick()
    }

    /// Sets the mutation tick for an entity that is replicated to this client.
    pub fn set_mutation_tick(&mut self, entity: Entity, tick: Tick)
        ensures
            final(self).id_spec() == old(self).id_spec(),
            final(self).ticks_spec().ticks_map() == old(self).ticks_spec().ticks_map().insert(
                entity.bits(),
                tick,
            ),
            final(self).ticks_spec().mutations_map() == old(self).ticks_spec().mutations_map(),
            final(self).ticks_spec().next_index() == old(self).ticks_spec().next_index(),
            final(self).ticks_spec().update_tick_spec() == old(self).ticks_spec().update_tick_spec(),
    {
        self.ticks.set_mutation_tick(entity, tick);
    }

    /// Gets the mutation tick for an entity that is replicated to this client.
    pub fn mutation_tick(&self, entity: Entity) -> (tick: Option<Tick>)
        ensures
            tick == (if self.ticks_spec().ticks_map().contains_key(entity.bits()) {
                Some(self.ticks_spec().ticks_map()[entity.bits()])
            } else {
                None
            }),
    {
        self.ticks.mutation_tick(entity)
    }

    /// Removes a despawned entity tracked by this client.
    pub fn remove_despawned(&mut self, entity: Entity)
        ensures
            final(self).id_spec() == old(self).id_spec(),
            final(self).ticks_spec().ticks_map() == old(self).ticks_spec().ticks_map().remove(
                entity.bits(),
            ),
            final(self).ticks_spec().mutations_map() == old(self).ticks_spec().mutations_map(),
            final(self).ticks_spec().next_index() == old(self).ticks_spec().next_index(),
            final(self).ticks_spec().update_tick_spec() == old(self).ticks_spec().update_tick_spec(),
    {
        self.ticks.remove_entity(entity);
    }

    /// Registers a mutate message at `tick` and `timestamp` and returns its index.
    ///
    /// The message's entity list reuses an allocation from `client_buffers` when there is one.
    pub fn register_mutate_message(
        &mut self,
        client_buffers: &mut ClientBuffers,
        tick: Tick,
        timestamp: Duration,
    ) -> (index: MutateIndex)
        ensures
            final(self).id_spec() == old(self).id_spec(),
            index.0 == old(self).ticks_spec().next_index(),
            final(self).ticks_spec().next_index() == (if old(self).ticks_spec().next_index()
                == u16::MAX {
                0
            } else {
                (old(self).ticks_spec().next_index() + 1) as u16
            }),
            final(self).ticks_spec().mutations_map().dom() == old(
                self,
            ).ticks_spec().mutations_map().dom().insert(index.0),
            forall|k: u16|
                k != index.0 && #[trigger] old(self).ticks_spec().mutations_map().contains_key(k)
                    ==> final(self).ticks_spec().mutations_map()[k] == old(
                    self,
                ).ticks_spec().mutations_map()[k],
            final(self).ticks_spec().mutations_map()[index.0].tick == tick,
            final(self).ticks_spec().mutations_map()[index.0].timestamp == timestamp,
            final(self).ticks_spec().mutations_map()[index.0].entities@.len() == 0,
            final(self).ticks_spec().ticks_map() == old(self).ticks_spec().ticks_map(),
            final(self).ticks_spec().update_tick_spec() == old(self).ticks_spec().update_tick_spec(),
            final(client_buffers).clients@ == old(client_buffers).clients@,
    {
        self.ticks.register_mutate_message(&mut client_buffers.entities, tick, timestamp)
    }

    /// Appends an entity to a registered mutate message.
    pub fn add_mutated_entity(&mut self, index: MutateIndex, entity: Entity)
        requires
            old(self).ticks_spec().mutations_map().contains_key(index.0),
        ensures
            final(self).id_spec() == old(self).id_spec(),
            final(self).ticks_spec().mutations_map()[index.0].entities@ == old(
                self,
            ).ticks_spec().mutations_map()[index.0].entities@.push(entity),
            final(self).ticks_spec().mutations_map().dom() == old(
                self,
            ).ticks_spec().mutations_map().dom(),
            final(self).ticks_spec().ticks_map() == old(self).ticks_spec().ticks_map(),
    {
        self.ticks.add_mutated_entity(index, entity);
    }

    /// Marks a mutate message as acknowledged by its index.
    ///
    /// See [`ClientTicks::ack_mutate_message`].
    pub fn ack_mutate_message(
        &mut self,
        client_buffers: &mut ClientBuffers,
        tick: Tick,
        mutate_index: MutateIndex,
    )
        ensures
            final(self).id_spec() == old(self).id_spec(),
            old(self).ticks_spec().mutations_map().contains_key(mutate_index.0) ==> {
                let info = old(self).ticks_spec().mutations_map()[mutate_index.0];
                &&& final(self).ticks_spec().ticks_map() == crate::client_ticks::acked_ticks(
                    old(self).ticks_spec().ticks_map(),
                    info.entities@,
                    info.tick,
                    tick,
                )
                &&& final(self).ticks_spec().mutations_map() == old(
                    self,
                ).ticks_spec().mutations_map().remove(mutate_index.0)
            },
            !old(self).ticks_spec().mutations_map().contains_key(mutate_index.0) ==> {
                &&& final(self).ticks_spec().ticks_map() == old(self).ticks_spec().ticks_map()
                &&& final(self).ticks_spec().mutations_map() == old(
                    self,
                ).ticks_spec().mutations_map()
            },
            final(client_buffers).clients@ == old(client_buffers).clients@,
    {
        self.ticks.ack_mutate_message(&mut client_buffers.entities, tick, mutate_index);
    }

    /// Removes all mutate messages older than `min_timestamp`.
    pub fn cleanup_older_mutations(&mut self, client_buffers: &mut ClientBuffers, min_timestamp: Duration)
        ensures
            final(self).id_spec() == old(self).id_spec(),
            final(self).ticks_spec().mutations_map() == crate::client_ticks::kept_mutations(
                old(self).ticks_spec().mutations_map(),
                crate::change_tick::duration_nanos(min_timestamp),
            ),
            final(self).ticks_spec().ticks_map() == old(self).ticks_spec().ticks_map(),
            final(client_buffers).clients@ == old(client_buffers).clients@,
    {
        self.ticks.cleanup_older_mutations(&mut client_buffers.entities, min_timestamp);
    }
}

/// Reusable buffers for [`ReplicatedClients`] and [`ReplicatedClient`].
pub struct ClientBuffers {
    /// Clients of previously disconnected clients, kept to reuse allocated memory.
    pub clients: Vec<ReplicatedClient>,
    /// Entity lists from acknowledged mutate messages, kept to reuse allocated capacity.
    pub entities: EntityBuffer,
}

impl ClientBuffers {
    /// Empty buffers.
    pub fn new() -> (buffers: Self)
        ensures
            buffers.clients@.len() == 0,
            buffers.entities.0@.len() == 0,
    {
        ClientBuffers { clients: Vec::new(), entities: EntityBuffer::new() }
    }
}

/// The position of the first client with `id`, if there is one.
pub open spec fn position_of(clients: Seq<ReplicatedClient>, id: ClientId) -> Option<int> {
    if exists|i: int| 0 <= i < clients.len() && (#[trigger] clients[i]).id_spec() == id {
        Some(choose|i: int| 0 <= i < clients.len() && (#[trigger] clients[i]).id_spec() == id)
    } else {
        None
    }
}

/// Whether no two clients share an ID.
pub open spec fn unique_ids(clients: Seq<ReplicatedClient>) -> bool {
    forall|i: int, j: int|
        0 <= i < clients.len() && 0 <= j < clients.len() && i != j ==> (#[trigger] clients[i]).id_spec()
            != (#[trigger] clients[j]).id_spec()
}

/// Stores information about connected clients which are enabled for replication.
pub struct ReplicatedClients {
    clients: Vec<ReplicatedClient>,
    policy: VisibilityPolicy,
    replicate_after_connect: bool,
}

impl ReplicatedClients {
    /// The replicated clients in order of addition.
    pub closed spec fn clients_spec(&self) -> Seq<ReplicatedClient> {
        self.clients@
    }

    /// The configured visibility policy.
    pub closed spec fn policy_spec(&self) -> VisibilityPolicy {
        self.policy
    }

    /// Whether replication starts automatically after connecting.
    pub closed spec fn replicate_after_connect_spec(&self) -> bool {
        self.replicate_after_connect
    }

    /// Well-formedness: no two clients share an ID.
    pub open spec fn wf(&self) -> bool {
        unique_ids(self.clients_spec())
    }

    /// Makes a new replicated clients struct with no clients.
    pub fn new(policy: VisibilityPolicy, replicate_after_connect: bool) -> (clients: Self)
        ensures
            clients.clients_spec().len() == 0,
            clients.policy_spec() == policy,
            clients.replicate_after_connect_spec() == replicate_after_connect,
            clients.wf(),
    {
        ReplicatedClients { clients: Vec::new(), policy, replicate_after_connect }
    }

    /// Returns the configured [`VisibilityPolicy`].
    pub fn visibility_policy(&self) -> (policy: VisibilityPolicy)
        ensures
            policy == self.policy_spec(),
    {
        self.policy
    }

    /// Returns if clients will automatically have replication enabled for them after they connect.
    pub fn replicate_after_connect(&self) -> (enabled: bool)
        ensures
            enabled == self.replicate_after_connect_spec(),
    {
        self.replicate_after_connect
    }

    /// Finds the index of the client with `client_id`.
    fn find(&self, client_id: ClientId) -> (index: Option<usize>)
        ensures
            match index {
                Some(i) => i < self.clients_spec().len() && self.clients_spec()[i as int].id_spec()
                    == client_id && forall|j: int|
                    0 <= j < i ==> (#[trigger] self.clients_spec()[j]).id_spec() != client_id,
                None => forall|j: int|
                    0 <= j < self.clients_spec().len() ==> (#[trigger] self.clients_spec()[j]).id_spec()
                        != client_id,
            },
    {
        let mut i: usize = 0;
        while i < self.clients.len()
            invariant
                i <= self.clients@.len(),
                forall|j: int| 0 <= j < i ==> (#[trigger] self.clients@[j]).id_spec() != client_id,
            decreases self.clients@.len() - i,
        {
            if self.clients[i].id() == client_id {
                return Some(i);
            }
            i = i + 1;
        }
        None
    }

    /// Returns a reference to a connected client.
    ///
    /// This operation is *O*(*n*). See also [`Self::client`] for the panicking version.
    pub fn get_client(&self, client_id: ClientId) -> (client: Option<&ReplicatedClient>)
        ensures
            match client {
                Some(c) => exists|i: int|
                    0 <= i < self.clients_spec().len() && *c == #[trigger] self.clients_spec()[i]
                        && c.id_spec() == client_id && forall|j: int|
                        0 <= j < i ==> (#[trigger] self.clients_spec()[j]).id_spec() != client_id,
                None => forall|j: int|
                    0 <= j < self.clients_spec().len() ==> (#[trigger] self.clients_spec()[j]).id_spec()
                        != client_id,
            },
    {
        match self.find(client_id) {
            Some(i) => Some(&self.clients[i]),
            None => None,
        }
    }

    /// Returns a reference to a connected client.
    ///
    /// This operation is *O*(*n*). The client must be replicated.
    pub fn client(&self, client_id: ClientId) -> (client: &ReplicatedClient)
        requires
            exists|i: int|
                0 <= i < self.clients_spec().len() && (#[trigger] self.clients_spec()[i]).id_spec()
                    == client_id,
        ensures
            client.id_spec() == client_id,
            exists|i: int| 0 <= i < self.clients_spec().len() && *client == #[trigger] self.clients_spec()[i],
    {
        match self.find(client_id) {
            Some(i) => &self.clients[i],
            None => {
                proof {
                    let i = choose|i: int|
                        0 <= i < self.clients_spec().len() && (#[trigger] self.clients_spec()[i]).id_spec()
                            == client_id;
                    assert(self.clients_spec()[i].id_spec() != client_id);
                }
                &self.clients[0]
            },
        }
    }

    /// Returns a mutable reference to a connected client.
    ///
    /// This operation is *O*(*n*). See also [`Self::client_mut`] for the panicking version.
    pub fn get_client_mut(&mut self, client_id: ClientId) -> (client: Option<&mut ReplicatedClient>)
        ensures
            match client {
                Some(c) => exists|i: int|
                    0 <= i < old(self).clients_spec().len() && *c == #[trigger] old(self).clients_spec()[i]
                        && c.id_spec() == client_id && (forall|j: int|
                        0 <= j < i ==> (#[trigger] old(self).clients_spec()[j]).id_spec() != client_id)
                        && final(self).clients_spec() == old(self).clients_spec().update(i, *final(c)),
                None => (forall|j: int|
                    0 <= j < old(self).clients_spec().len() ==> (#[trigger] old(
                        self,
                    ).clients_spec()[j]).id_spec() != client_id) && final(self).clients_spec() == old(
                    self,
                ).clients_spec(),
            },
            final(self).policy_spec() == old(self).policy_spec(),
            final(self).replicate_after_connect_spec() == old(self).replicate_after_connect_spec(),
    {
        match self.find(client_id) {
            Some(i) => Some(&mut self.clients[i]),
            None => None,
        }
    }

    /// Returns a mutable reference to a connected client.
    ///
    /// This operation is *O*(*n*). The client must be replicated.
    pub fn client_mut(&mut self, client_id: ClientId) -> (client: &mut ReplicatedClient)
        requires
            exists|i: int|
                0 <= i < old(self).clients_spec().len() && (#[trigger] old(self).clients_spec()[i]).id_spec()
                    == client_id,
        ensures
            exists|i: int|
                0 <= i < old(self).clients_spec().len() && *client == #[trigger] old(self).clients_spec()[i]
                    && client.id_spec() == client_id && final(self).clients_spec() == old(
                    self,
                ).clients_spec().update(i, *final(client)),
            final(self).policy_spec() == old(self).policy_spec(),
            final(self).replicate_after_connect_spec() == old(self).replicate_after_connect_spec(),
    {
        let index = match self.find(client_id) {
            Some(index) => index,
            None => {
                proof {
                    let i = choose|i: int|
                        0 <= i < self.clients_spec().len() && (#[trigger] self.clients_spec()[i]).id_spec()
                            == client_id;
                    assert(self.clients_spec()[i].id_spec() != client_id);
                }
                0
            },
        };
        &mut self.clients[index]
    }

    /// Returns the connected clients for modification, in order of addition.
    pub fn iter_mut(&mut self) -> (clients: &mut [ReplicatedClient])
        ensures
            clients@ == old(self).clients_spec(),
            final(self).clients_spec() == final(clients)@,
            final(self).policy_spec() == old(self).policy_spec(),
            final(self).replicate_after_connect_spec() == old(self).replicate_after_connect_spec(),
    {
        self.clients.as_mut_slice()
    }

    /// Removes, from every client, the mutate messages sent more than `timeout` before
    /// `elapsed`; at most this often, a message that was never acknowledged is forgotten.
    pub fn cleanup_acks(&mut self, client_buffers: &mut ClientBuffers, elapsed: Duration, timeout: Duration)
        ensures
            final(self).clients_spec().len() == old(self).clients_spec().len(),
            final(self).policy_spec() == old(self).policy_spec(),
            final(self).replicate_after_connect_spec() == old(self).replicate_after_connect_spec(),
            forall|i: int|
                0 <= i < old(self).clients_spec().len() ==> {
                    let client = #[trigger] final(self).clients_spec()[i];
                    &&& client.id_spec() == old(self).clients_spec()[i].id_spec()
                    &&& client.ticks_spec().mutations_map() == crate::client_ticks::kept_mutations(
                        old(self).clients_spec()[i].ticks_spec().mutations_map(),
                        nanos_saturating_sub(duration_nanos(elapsed), duration_nanos(timeout)),
                    )
                    &&& client.ticks_spec().ticks_map() == old(self).clients_spec()[i].ticks_spec().ticks_map()
                },
            final(client_buffers).clients@ == old(client_buffers).clients@,
    {
        let min_timestamp = duration_saturating_sub(elapsed, timeout);
        let mut i: usize = 0;
        while i < self.clients.len()
            invariant
                i <= self.clients@.len(),
                self.clients@.len() == old(self).clients@.len(),
                self.policy == old(self).policy,
                self.replicate_after_connect == old(self).replicate_after_connect,
                duration_nanos(min_timestamp) == nanos_saturating_sub(duration_nanos(elapsed), duration_nanos(timeout)),
                client_buffers.clients@ == old(client_buffers).clients@,
                forall|k: int| i <= k < self.clients@.len() ==> #[trigger] self.clients@[k] == old(self).clients@[k],
                forall|k: int|
                    0 <= k < i ==> {
                        let client = #[trigger] self.clients@[k];
                        &&& client.id_spec() == old(self).clients@[k].id_spec()
                        &&& client.ticks_spec().mutations_map() == crate::client_ticks::kept_mutations(
                            old(self).clients@[k].ticks_spec().mutations_map(),
                            duration_nanos(min_timestamp),
                        )
                        &&& client.ticks_spec().ticks_map() == old(self).clients@[k].ticks_spec().ticks_map()
                    },
            decreases self.clients@.len() - i,
        {
            let ghost before = self.clients@;
            self.clients[i].cleanup_older_mutations(client_buffers, min_timestamp);
            proof {
                assert forall|k: int| 0 <= k < self.clients@.len() && k != i implies #[trigger] self.clients@[k]
                    == before[k] by {}
            }
            i = i + 1;
        }
    }

    /// Clears all clients.
    ///
    /// The clients and the entity lists of their unacknowledged mutate messages go to the
    /// buffers for reuse, in order.
    pub fn clear(&mut self, client_buffers: &mut ClientBuffers)
        ensures
            final(self).clients_spec().len() == 0,
            final(self).policy_spec() == old(self).policy_spec(),
            final(self).replicate_after_connect_spec() == old(self).replicate_after_connect_spec(),
            final(client_buffers).clients@.len() == old(client_buffers).clients@.len() + old(
                self,
            ).clients_spec().len(),
            final(client_buffers).clients@.take(old(client_buffers).clients@.len() as int) == old(
                client_buffers,
            ).clients@,
            forall|i: int|
                0 <= i < old(self).clients_spec().len() ==> {
                    let buffered = #[trigger] final(client_buffers).clients@[old(client_buffers).clients@.len() + i];
                    &&& buffered.id_spec() == old(self).clients_spec()[i].id_spec()
                    &&& buffered.ticks_spec().mutations_map() == Map::<u16, MutateInfo>::empty()
                },
    {
        let mut taken: Vec<ReplicatedClient> = Vec::new();
        core::mem::swap(&mut taken, &mut self.clients);
        let ghost base = client_buffers.clients@;
        let ghost all = taken@;
        let len = taken.len();
        let mut i: usize = 0;
        let mut rest = taken;
        proof {
            assert(rest@.skip(0) =~= rest@);
        }
        while i < len
            invariant
                i <= len,
                len == all.len(),
                rest@ == all.skip(i as int),
                self.clients@.len() == 0,
                self.policy == old(self).policy,
                self.replicate_after_connect == old(self).replicate_after_connect,
                client_buffers.clients@.len() == base.len() + i,
                client_buffers.clients@.take(base.len() as int) == base,
                all == old(self).clients_spec(),
                base == old(client_buffers).clients@,
                forall|j: int|
                    0 <= j < i ==> {
                        let buffered = #[trigger] client_buffers.clients@[base.len() + j];
                        &&& buffered.id_spec() == all[j].id_spec()
                        &&& buffered.ticks_spec().mutations_map() == Map::<u16, MutateInfo>::empty()
                    },
            decreases len - i,
        {
            let mut client = rest.remove(0);
            proof {
                assert(rest@ =~= all.skip(i + 1));
            }
            let mut drained = client.ticks.drain_mutations();
            client_buffers.entities.0.append(&mut drained);
            let ghost before = client_buffers.clients@;
            client_buffers.clients.push(client);
            proof {
                assert(client_buffers.clients@.take(base.len() as int) =~= before.take(base.len() as int));
            }
            i = i + 1;
        }
    }

    /// Initializes a new [`ReplicatedClient`] for this client.
    ///
    /// Reuses a client from the buffers if there is one. Adding a client that is already
    /// replicated does nothing.
    pub fn add(&mut self, client_buffers: &mut ClientBuffers, client_id: ClientId)
        ensures
            final(self).policy_spec() == old(self).policy_spec(),
            final(self).replicate_after_connect_spec() == old(self).replicate_after_connect_spec(),
            old(self).wf() ==> final(self).wf(),
            (exists|i: int|
                0 <= i < old(self).clients_spec().len() && (#[trigger] old(self).clients_spec()[i]).id_spec()
                    == client_id) ==> {
                &&& final(self).clients_spec() == old(self).clients_spec()
                &&& final(client_buffers).clients@ == old(client_buffers).clients@
            },
            (forall|i: int|
                0 <= i < old(self).clients_spec().len() ==> (#[trigger] old(
                    self,
                ).clients_spec()[i]).id_spec() != client_id) ==> {
                let added = final(self).clients_spec().last();
                &&& final(self).clients_spec() == old(self).clients_spec().push(added)
                &&& added.id_spec() == client_id
                &&& added.ticks_spec().ticks_map() == Map::<u64, Tick>::empty()
                &&& added.ticks_spec().mutations_map() == Map::<u16, MutateInfo>::empty()
                &&& added.ticks_spec().next_index() == 0
                &&& added.ticks_spec().update_tick_spec()@ == 0
                &&& if old(client_buffers).clients@.len() == 0 {
                    final(client_buffers).clients@ == old(client_buffers).clients@
                } else {
                    final(client_buffers).clients@ == old(client_buffers).clients@.drop_last()
                }
            },
            final(client_buffers).entities.0@ == old(client_buffers).entities.0@,
    {
        match self.find(client_id) {
            Some(_) => {
                return;
            },
            None => {},
        }
        let client = match client_buffers.clients.pop() {
            Some(mut client) => {
                client.reset(client_id);
                client
            },
            None => ReplicatedClient::new(client_id),
        };
        self.clients.push(client);
    }

    /// Removes a replicated client if replication has already been enabled for it.
    ///
    /// The removed client and the entity lists of its unacknowledged mutate messages go to
    /// the buffers for reuse. Removing a client that is not replicated does nothing.
    pub fn remove(&mut self, client_buffers: &mut ClientBuffers, client_id: ClientId)
        ensures
            final(self).policy_spec() == old(self).policy_spec(),
            final(self).replicate_after_connect_spec() == old(self).replicate_after_connect_spec(),
            old(self).wf() ==> final(self).wf(),
            (forall|i: int|
                0 <= i < old(self).clients_spec().len() ==> (#[trigger] old(
                    self,
                ).clients_spec()[i]).id_spec() != client_id) ==> {
                &&& final(self).clients_spec() == old(self).clients_spec()
                &&& final(client_buffers).clients@ == old(client_buffers).clients@
                &&& final(client_buffers).entities.0@ == old(client_buffers).entities.0@
            },
            forall|i: int|
                0 <= i < old(self).clients_spec().len() && (#[trigger] old(
                    self,
                ).clients_spec()[i]).id_spec() == client_id && (forall|j: int|
                    0 <= j < i ==> (#[trigger] old(self).clients_spec()[j]).id_spec() != client_id)
                    ==> {
                    let removed = old(self).clients_spec()[i];
                    let buffered = final(client_buffers).clients@.last();
                    &&& final(self).clients_spec() == old(self).clients_spec().remove(i)
                    &&& final(client_buffers).clients@ == old(client_buffers).clients@.push(buffered)
                    &&& buffered.id_spec() == client_id
                    &&& buffered.ticks_spec().mutations_map() == Map::<u16, MutateInfo>::empty()
                    &&& buffered.ticks_spec().ticks_map() == removed.ticks_spec().ticks_map()
                    &&& final(client_buffers).entities.0@.len() == old(client_buffers).entities.0@.len()
                        + removed.ticks_spec().mutations_map().dom().len()
                },
    {
        let index = match self.find(client_id) {
            Some(index) => index,
            None => {
                return;
            },
        };
        let mut client = self.clients.remove(index);
        let mut drained = client.ticks.drain_mutations();
        client_buffers.entities.0.append(&mut drained);
        client_buffers.clients.push(client);
        proof {
            assert forall|i: int|
                0 <= i < old(self).clients_spec().len() && (#[trigger] old(
                    self,
                ).clients_spec()[i]).id_spec() == client_id && (forall|j: int|
                    0 <= j < i ==> (#[trigger] old(self).clients_spec()[j]).id_spec() != client_id)
                implies i == index by {
                if i < index {
                    assert(old(self).clients_spec()[i].id_spec() != client_id);
                }
                if index < i {
                    assert(old(self).clients_spec()[index as int].id_spec() != client_id);
                }
            }
        }
    }

    /// Returns the client IDs in order of addition.
    pub fn iter_client_ids(&self) -> (ids: Vec<ClientId>)
        ensures
            ids@ == client_ids(self.clients_spec()),
    {
        let mut ids: Vec<ClientId> = Vec::new();
        let mut i: usize = 0;
        while i < self.clients.len()
            invariant
                i <= self.clients@.len(),
                ids@ == client_ids(self.clients@.take(i as int)),
            decreases self.clients@.len() - i,
        {
            proof {
                assert(self.clients@.take(i + 1) =~= self.clients@.take(i as int).push(self.clients@[i as int]));
                assert(client_ids(self.clients@.take(i + 1)) =~= client_ids(self.clients@.take(i as int)).push(
                    self.clients@[i as int].id_spec(),
                ));
            }
            ids.push(self.clients[i].id());
            i = i + 1;
        }
        proof {
            assert(self.clients@.take(self.clients@.len() as int) =~= self.clients@);
        }
        ids
    }

    /// Returns the connected clients in order of addition.
    pub fn iter(&self) -> (clients: &[ReplicatedClient])
        ensures
            clients@ == self.clients_spec(),
    {
        self.clients.as_slice()
    }

    /// Returns the number of connected clients.
    pub fn len(&self) -> (len: usize)
        ensures
            len == self.clients_spec().len(),
    {
        self.clients.len()
    }

    /// Returns `true` if no clients are connected.
    pub fn is_empty(&self) -> (empty: bool)
        ensures
            empty == (self.clients_spec().len() == 0),
    {
        self.clients.len() == 0
    }
}

} // verus!
