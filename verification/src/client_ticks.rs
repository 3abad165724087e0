use bevy::ecs::component::Tick;
use core::time::Duration;
use std::collections::HashMap;
use vstd::prelude::*;
use vstd::std_specs::iter::IteratorSpec;

use crate::change_tick::{
    duration_lt, duration_nanos, nanos_saturating_sub, newer_than, tick_is_newer_than, tick_value,
};
use crate::entity::Entity;
use crate::mutate_index::MutateIndex;
use crate::replicon_tick::RepliconTick;

verus! {

broadcast use {vstd::std_specs::hash::group_hash_axioms, vstd::seq_lib::group_seq_properties};

/// Information about a sent mutate message.
pub struct MutateInfo {
    /// System tick at which the message was built.
    pub tick: Tick,
    /// Time at which the message was sent.
    pub timestamp: Duration,
    /// Entities whose mutations the message carries.
    pub entities: Vec<Entity>,
}

/// Reusable buffer of entity lists from acknowledged or expired mutate messages,
/// kept to reuse allocated capacity.
pub struct EntityBuffer(pub Vec<Vec<Entity>>);

impl EntityBuffer {
    /// An empty buffer.
    pub fn new() -> (buffer: Self)
        ensures
            buffer.0@.len() == 0,
    {
        EntityBuffer(Vec::new())
    }
}

/// Whether the entity list `entities` holds an entity packed as `bits`.
pub open spec fn holds_entity(entities: Seq<Entity>, bits: u64) -> bool {
    exists|i: int| 0 <= i < entities.len() && (#[trigger] entities[i]).bits() == bits
}

/// Mutation ticks after acknowledging a message built at `message_tick`, received while the
/// current tick is `this_run`: each tracked entity of the message takes the message tick unless
/// its own tick is newer.
pub open spec fn acked_ticks(
    ticks: Map<u64, Tick>,
    entities: Seq<Entity>,
    message_tick: Tick,
    this_run: Tick,
) -> Map<u64, Tick> {
    Map::new(
        |k: u64| ticks.contains_key(k),
        |k: u64|
            if holds_entity(entities, k) && !newer_than(
                tick_value(ticks[k]),
                tick_value(message_tick),
                tick_value(this_run),
            ) {
                message_tick
            } else {
                ticks[k]
            },
    )
}

/// Acknowledging a mutate message consumes it: once [`ClientTicks::ack_mutate_message`] has
/// handled an index, the message is gone, so acknowledging the same index again changes
/// nothing; and a mutation tick only ever becomes the message tick when it was not newer.
pub proof fn lemma_ack_consumes(
    mutations: Map<u16, MutateInfo>,
    ticks: Map<u64, Tick>,
    index: u16,
    this_run: Tick,
)
    requires
        mutations.contains_key(index),
    ensures
        !mutations.remove(index).contains_key(index),
        forall|k: u64|
            #[trigger] acked_ticks(ticks, mutations[index].entities@, mutations[index].tick, this_run).contains_key(k)
                ==> ticks.contains_key(k) && (acked_ticks(
                ticks,
                mutations[index].entities@,
                mutations[index].tick,
                this_run,
            )[k] == ticks[k] || (acked_ticks(
                ticks,
                mutations[index].entities@,
                mutations[index].tick,
                this_run,
            )[k] == mutations[index].tick && !newer_than(
                tick_value(ticks[k]),
                tick_value(mutations[index].tick),
                tick_value(this_run),
            ))),
{
}

/// Mutate messages kept after dropping those older than `min_nanos`.
pub open spec fn kept_mutations(mutations: Map<u16, MutateInfo>, min_nanos: u128) -> Map<u16, MutateInfo> {
    Map::new(
        |k: u16| mutations.contains_key(k) && !(duration_nanos(mutations[k].timestamp) < min_nanos),
        |k: u16| mutations[k],
    )
}

/// Tracks replication ticks for a client.
pub struct ClientTicks {
    /// Lowest tick for use in change detection for each entity, keyed by entity bits.
    mutation_ticks: HashMap<u64, Tick>,
    /// The last tick in which a replicated entity had an insertion, removal, or gained/lost
    /// a component from the perspective of the client.
    update_tick: RepliconTick,
    /// Mutate message indices mapped to their info.
    mutations: HashMap<u16, MutateInfo>,
    /// Index for the next mutate message to be sent to this client.
    mutate_index: MutateIndex,
}

impl ClientTicks {
    /// Mutation ticks of the tracked entities, keyed by entity bits.
    pub closed spec fn ticks_map(&self) -> Map<u64, Tick> {
        self.mutation_ticks@
    }

    /// Unacknowledged mutate messages by index.
    pub closed spec fn mutations_map(&self) -> Map<u16, MutateInfo> {
        self.mutations@
    }

    /// Index that the next mutate message receives.
    pub closed spec fn next_index(&self) -> u16 {
        self.mutate_index.0
    }

    /// The client's update tick.
    pub closed spec fn update_tick_spec(&self) -> RepliconTick {
        self.update_tick
    }

    /// Creates empty tracking.
    pub fn new() -> (ticks: Self)
        ensures
            ticks.ticks_map() == Map::<u64, Tick>::empty(),
            ticks.mutations_map() == Map::<u16, MutateInfo>::empty(),
            ticks.next_index() == 0,
            ticks.update_tick_spec()@ == 0,
    {
        ClientTicks {
            mutation_ticks: HashMap::new(),
            update_tick: RepliconTick::new(0),
            mutations: HashMap::new(),
            mutate_index: MutateIndex(0),
        }
    }

    /// Sets the client's update tick.
    pub fn set_update_tick(&mut self, tick: RepliconTick)
        ensures
            final(self).update_tick_spec() == tick,
            final(self).ticks_map() == old(self).ticks_map(),
            final(self).mutations_map() == old(self).mutations_map(),
            final(self).next_index() == old(self).next_index(),
    {
        self.update_tick = tick;
    }

    /// Returns the last tick in which a replicated entity had an insertion, removal, or
    /// gained/lost a component from the perspective of the client.
    pub fn update_tick(&self) -> (tick: RepliconTick)
        ensures
            tick == self.update_tick_spec(),
    {
        self.update_tick
    }

    /// Registers a mutate message at the given `tick` and `timestamp` and returns its index.
    ///
    /// The message starts with no entities, see [`Self::add_mutated_entity`]; its entity list
    /// reuses an allocation from `entity_buffer` when there is one.
    pub fn register_mutate_message(
        &mut self,
        entity_buffer: &mut EntityBuffer,
        tick: Tick,
        timestamp: Duration,
    ) -> (index: MutateIndex)
        ensures
            index.0 == old(self).next_index(),
            final(self).next_index() == (if old(self).next_index() == u16::MAX {
                0
            } else {
                (old(self).next_index() + 1) as u16
            }),
            final(self).mutations_map().dom() == old(self).mutations_map().dom().insert(index.0),
            forall|k: u16|
                k != index.0 && #[trigger] old(self).mutations_map().contains_key(k)
                    ==> final(self).mutations_map()[k] == old(self).mutations_map()[k],
            final(self).mutations_map()[index.0].tick == tick,
            final(self).mutations_map()[index.0].timestamp == timestamp,
            final(self).mutations_map()[index.0].entities@.len() == 0,
            final(self).ticks_map() == old(self).ticks_map(),
            final(self).update_tick_spec() == old(self).update_tick_spec(),
            final(entity_buffer).0@ == (if old(entity_buffer).0@.len() == 0 {
                old(entity_buffer).0@
            } else {
                old(entity_buffer).0@.drop_last()
            }),
    {
        let mutate_index = self.mutate_index.advance();
        let mut entities = match entity_buffer.0.pop() {
            Some(entities) => entities,
            None => Vec::new(),
        };
        entities.clear();
        let info = MutateInfo { tick, timestamp, entities };
        self.mutations.insert(mutate_index.0, info);
        mutate_index
    }

    /// Appends an entity to a registered mutate message.
    pub fn add_mutated_entity(&mut self, index: MutateIndex, entity: Entity)
        requires
            old(self).mutations_map().contains_key(index.0),
        ensures
            final(self).mutations_map().dom() == old(self).mutations_map().dom(),
            forall|k: u16|
                k != index.0 && #[trigger] old(self).mutations_map().contains_key(k)
                    ==> final(self).mutations_map()[k] == old(self).mutations_map()[k],
            final(self).mutations_map()[index.0].tick == old(self).mutations_map()[index.0].tick,
            final(self).mutations_map()[index.0].timestamp == old(self).mutations_map()[index.0].timestamp,
            final(self).mutations_map()[index.0].entities@ == old(self).mutations_map()[index.0].entities@.push(entity),
            final(self).ticks_map() == old(self).ticks_map(),
            final(self).next_index() == old(self).next_index(),
            final(self).update_tick_spec() == old(self).update_tick_spec(),
    {
        let removed = self.mutations.remove(&index.0);
        match removed {
            Some(mut info) => {
                info.entities.push(entity);
                self.mutations.insert(index.0, info);
            },
            None => {},
        }
    }

    /// Marks a mutate message as acknowledged by its index.
    ///
    /// The mutation tick of every tracked entity from this message becomes the message tick,
    /// unless the entity's tick is newer. Unknown indices are ignored. The message's entity
    /// list goes back to `entity_buffer` for reuse.
    pub fn ack_mutate_message(
        &mut self,
        entity_buffer: &mut EntityBuffer,
        tick: Tick,
        mutate_index: MutateIndex,
    )
        ensures
            old(self).mutations_map().contains_key(mutate_index.0) ==> {
                let info = old(self).mutations_map()[mutate_index.0];
                &&& final(self).ticks_map() == acked_ticks(
                    old(self).ticks_map(),
                    info.entities@,
                    info.tick,
                    tick,
                )
                &&& final(self).mutations_map() == old(self).mutations_map().remove(mutate_index.0)
                &&& final(entity_buffer).0@ == old(entity_buffer).0@.push(info.entities)
            },
            !old(self).mutations_map().contains_key(mutate_index.0) ==> {
                &&& final(self).ticks_map() == old(self).ticks_map()
                &&& final(self).mutations_map() == old(self).mutations_map()
                &&& final(entity_buffer).0@ == old(entity_buffer).0@
            },
            final(self).next_index() == old(self).next_index(),
            final(self).update_tick_spec() == old(self).update_tick_spec(),
    {
        let removed = self.mutations.remove(&mutate_index.0);
        let info = match removed {
            Some(info) => info,
            None => {
                return;
            },
        };
        let ghost old_ticks = self.mutation_ticks@;
        let len = info.entities.len();
        let mut i: usize = 0;
        while i < len
            invariant
                i <= len,
                len == info.entities@.len(),
                self.mutation_ticks@.dom() == old_ticks.dom(),
                self.mutations@ == old(self).mutations@.remove(mutate_index.0),
                info == old(self).mutations@[mutate_index.0],
                self.mutate_index == old(self).mutate_index,
                self.update_tick == old(self).update_tick,
                entity_buffer.0@ == old(entity_buffer).0@,
                forall|k: u64|
                    #[trigger] old_ticks.contains_key(k) ==> self.mutation_ticks@[k] == (if holds_entity(
                        info.entities@.take(i as int),
                        k,
                    ) && !newer_than(
                        tick_value(old_ticks[k]),
                        tick_value(info.tick),
                        tick_value(tick),
                    ) {
                        info.tick
                    } else {
                        old_ticks[k]
                    }),
            decreases len - i,
        {
            let entity = info.entities[i];
            let bits = entity.to_bits();
            let current = self.mutation_ticks.get(&bits);
            match current {
                Some(last_tick) => {
                    let last_tick = *last_tick;
                    // Received tick could be outdated because it is bumped on insertions.
                    if !tick_is_newer_than(last_tick, info.tick, tick) {
                        self.mutation_ticks.insert(bits, info.tick);
                    }
                },
                None => {},
            }
            proof {
                assert forall|k: u64| #[trigger] old_ticks.contains_key(k) implies (holds_entity(
                    info.entities@.take(i + 1),
                    k,
                ) <==> (holds_entity(info.entities@.take(i as int), k) || k == bits)) by {
                    let s = info.entities@.take(i + 1);
                    let t = info.entities@.take(i as int);
                    if holds_entity(s, k) {
                        let j = choose|j: int| 0 <= j < s.len() && (#[trigger] s[j]).bits() == k;
                        if j < i {
                            assert(t[j] == s[j]);
                        }
                    }
                    if holds_entity(t, k) {
                        let j = choose|j: int| 0 <= j < t.len() && (#[trigger] t[j]).bits() == k;
                        assert(s[j] == t[j]);
                    }
                    if k == bits {
                        assert(s[i as int] == entity);
                    }
                }
                crate::change_tick::lemma_not_newer_than_itself(tick_value(info.tick), tick_value(tick));
            }
            i = i + 1;
        }
        proof {
            assert(info.entities@.take(len as int) =~= info.entities@);
            assert(self.mutation_ticks@ =~= acked_ticks(old_ticks, info.entities@, info.tick, tick));
        }
        entity_buffer.0.push(info.entities);
    }

    /// Indices of all unacknowledged mutate messages, each once.
    fn mutation_indices(&self) -> (indices: Vec<u16>)
        ensures
            indices@.to_set() == self.mutations_map().dom(),
            indices@.no_duplicates(),
    {
        let mut indices: Vec<u16> = Vec::new();
        let ghost all = vstd::std_specs::hash::spec_keys_iter(&self.mutations).remaining().unref();
        proof {
            vstd::std_specs::hash::axiom_spec_keys_iter(&self.mutations);
        }
        for index in it: self.mutations.keys()
            invariant
                it.seq().unref() == all,
                all.to_set() == self.mutations@.dom(),
                all.no_duplicates(),
                indices@ == all.take(it.index()),
        {
            proof {
                assert(all.take(it.index() + 1) =~= all.take(it.index()).push(*index));
            }
            indices.push(*index);
        }
        proof {
            assert(all.take(all.len() as int) =~= all);
        }
        indices
    }

    /// Removes all mutate messages older than `min_timestamp`.
    ///
    /// Their entity lists go to `entity_buffer` for reuse, one per removed message.
    pub fn cleanup_older_mutations(&mut self, entity_buffer: &mut EntityBuffer, min_timestamp: Duration)
        ensures
            final(self).mutations_map() == kept_mutations(
                old(self).mutations_map(),
                duration_nanos(min_timestamp),
            ),
            final(entity_buffer).0@.len() == old(entity_buffer).0@.len() + (old(
                self,
            ).mutations_map().dom().len() - final(self).mutations_map().dom().len()),
            final(entity_buffer).0@.take(old(entity_buffer).0@.len() as int) == old(entity_buffer).0@,
            final(self).ticks_map() == old(self).ticks_map(),
            final(self).next_index() == old(self).next_index(),
            final(self).update_tick_spec() == old(self).update_tick_spec(),
    {
        let indices = self.mutation_indices();
        let ghost old_mutations = self.mutations@;
        let ghost min_nanos = duration_nanos(min_timestamp);
        let ghost old_buffer = entity_buffer.0@;
        let len = indices.len();
        let mut i: usize = 0;
        while i < len
            invariant
                i <= len,
                len == indices@.len(),
                indices@.to_set() == old_mutations.dom(),
                indices@.no_duplicates(),
                old_mutations.dom().finite(),
                self.mutations@.dom().finite(),
                forall|k: u16| #[trigger] self.mutations@.contains_key(k) ==> old_mutations.contains_key(k)
                    && self.mutations@[k] == old_mutations[k],
                forall|k: u16|
                    #[trigger] old_mutations.contains_key(k) ==> (self.mutations@.contains_key(k) <==> (
                    !indices@.take(i as int).contains(k) || !(duration_nanos(old_mutations[k].timestamp)
                        < min_nanos))),
                entity_buffer.0@.len() == old_buffer.len() + (old_mutations.dom().len()
                    - self.mutations@.dom().len()),
                entity_buffer.0@.take(old_buffer.len() as int) == old_buffer,
                self.mutation_ticks@ == old(self).mutation_ticks@,
                self.mutate_index == old(self).mutate_index,
                self.update_tick == old(self).update_tick,
                min_nanos == duration_nanos(min_timestamp),
                self.mutations@.dom().subset_of(old_mutations.dom()),
                self.mutations@.dom().len() <= old_mutations.dom().len(),
            decreases len - i,
        {
            let index = indices[i];
            proof {
                assert(indices@.take(i + 1) =~= indices@.take(i as int).push(index));
                assert(!indices@.take(i as int).contains(index)) by {
                    if indices@.take(i as int).contains(index) {
                        let j = choose|j: int| 0 <= j < i && indices@.take(i as int)[j] == index;
                        assert(indices@[j] == indices@[i as int]);
                    }
                }
                assert(indices@.contains(index));
            }
            let expired = match self.mutations.get(&index) {
                Some(info) => duration_lt(&info.timestamp, &min_timestamp),
                None => false,
            };
            if expired {
                let removed = self.mutations.remove(&index);
                match removed {
                    Some(info) => {
                        proof {
                            vstd::set_lib::lemma_len_subset(self.mutations@.dom(), old_mutations.dom());
                        }
                        let ghost before = entity_buffer.0@;
                        entity_buffer.0.push(info.entities);
                        proof {
                            assert(entity_buffer.0@.take(old_buffer.len() as int) =~= before.take(
                                old_buffer.len() as int,
                            ));
                        }
                    },
                    None => {},
                }
            }
            i = i + 1;
        }
        proof {
            assert(indices@.take(len as int) =~= indices@);
            assert(self.mutations@ =~= kept_mutations(old_mutations, min_nanos)) by {
                assert forall|k: u16| #[trigger] old_mutations.contains_key(k) implies indices@.contains(k) by {
                    assert(indices@.to_set().contains(k));
                }
            }
        }
    }

    /// Removes every unacknowledged mutate message, returning their entity lists, one per
    /// message, in the order the message map yields them.
    pub fn drain_mutations(&mut self) -> (entities: Vec<Vec<Entity>>)
        ensures
            final(self).mutations_map() == Map::<u16, MutateInfo>::empty(),
            entities@.len() == old(self).mutations_map().dom().len(),
            exists|keys: Seq<u16>|
                #![trigger keys.to_set()]
                keys.no_duplicates() && keys.to_set() == old(self).mutations_map().dom() && keys.len()
                    == entities@.len() && forall|j: int|
                    0 <= j < keys.len() ==> #[trigger] entities@[j] == old(self).mutations_map()[keys[j]].entities,
            final(self).ticks_map() == old(self).ticks_map(),
            final(self).next_index() == old(self).next_index(),
            final(self).update_tick_spec() == old(self).update_tick_spec(),
    {
        let indices = self.mutation_indices();
        let ghost old_mutations = self.mutations@;
        let mut entities: Vec<Vec<Entity>> = Vec::new();
        let len = indices.len();
        let mut i: usize = 0;
        proof {
            indices@.unique_seq_to_set();
        }
        while i < len
            invariant
                i <= len,
                len == indices@.len(),
                indices@.to_set() == old_mutations.dom(),
                indices@.no_duplicates(),
                indices@.len() == old_mutations.dom().len(),
                self.mutations@.dom() == old_mutations.dom().difference(indices@.take(i as int).to_set()),
                forall|k: u16| #[trigger] self.mutations@.contains_key(k) ==> self.mutations@[k] == old_mutations[k],
                old_mutations == old(self).mutations@,
                entities@.len() == i,
                forall|j: int| 0 <= j < i ==> #[trigger] entities@[j] == old_mutations[indices@[j]].entities,
                self.mutation_ticks@ == old(self).mutation_ticks@,
                self.mutate_index == old(self).mutate_index,
                self.update_tick == old(self).update_tick,
            decreases len - i,
        {
            let index = indices[i];
            proof {
                assert(indices@.take(i + 1) =~= indices@.take(i as int).push(index));
                assert(indices@.contains(index));
                assert(!indices@.take(i as int).contains(index)) by {
                    if indices@.take(i as int).contains(index) {
                        let j = choose|j: int| 0 <= j < i && indices@.take(i as int)[j] == index;
                        assert(indices@[j] == indices@[i as int]);
                    }
                }
            }
            let removed = self.mutations.remove(&index);
            match removed {
                Some(info) => {
                    entities.push(info.entities);
                },
                None => {
                    proof {
                        assert(false);
                    }
                    entities.push(Vec::new());
                },
            }
            proof {
                assert(self.mutations@.dom() =~= old_mutations.dom().difference(
                    indices@.take(i + 1).to_set(),
                ));
            }
            i = i + 1;
        }
        proof {
            assert(indices@.take(len as int) =~= indices@);
            assert(self.mutations@ =~= Map::<u16, MutateInfo>::empty());
            assert(indices@.len() == entities@.len());
        }
        entities
    }

    /// Forgets all tracked entities and messages and restarts message indices from zero.
    ///
    /// The update tick is kept.
    pub fn reset(&mut self)
        ensures
            final(self).ticks_map() == Map::<u64, Tick>::empty(),
            final(self).mutations_map() == Map::<u16, MutateInfo>::empty(),
            final(self).next_index() == 0,
            final(self).update_tick_spec() == old(self).update_tick_spec(),
    {
        self.mutation_ticks.clear();
        self.mutations.clear();
        self.mutate_index = MutateIndex(0);
    }

    /// Sets the mutation tick for an entity that is replicated to this client.
    pub fn set_mutation_tick(&mut self, entity: Entity, tick: Tick)
        ensures
            final(self).ticks_map() == old(self).ticks_map().insert(entity.bits(), tick),
            final(self).mutations_map() == old(self).mutations_map(),
            final(self).next_index() == old(self).next_index(),
            final(self).update_tick_spec() == old(self).update_tick_spec(),
    {
        self.mutation_ticks.insert(entity.to_bits(), tick);
    }

    /// Gets the mutation tick for an entity that is replicated to this client.
    pub fn mutation_tick(&self, entity: Entity) -> (tick: Option<Tick>)
        ensures
            tick == (if self.ticks_map().contains_key(entity.bits()) {
                Some(self.ticks_map()[entity.bits()])
            } else {
                None
            }),
    {
        let bits = entity.to_bits();
        match self.mutation_ticks.get(&bits) {
            Some(tick) => Some(*tick),
            None => None,
        }
    }

    /// Removes a despawned or hidden entity from tracking by this client.
    pub fn remove_entity(&mut self, entity: Entity)
        ensures
            final(self).ticks_map() == old(self).ticks_map().remove(entity.bits()),
            final(self).mutations_map() == old(self).mutations_map(),
            final(self).next_index() == old(self).next_index(),
            final(self).update_tick_spec() == old(self).update_tick_spec(),
    {
        self.mutation_ticks.remove(&entity.to_bits());
    }
}


/// Mutate messages live at least `timeout` and less than twice it when cleanups run every
/// `timeout`: a cleanup at `now`, which drops the messages sent before `now - timeout` (none
/// when `now` is below `timeout`), keeps every message sent at most `timeout` before, and each
/// message it keeps is less than twice `timeout` old at any time before the next cleanup.
pub proof fn lemma_mutation_lifetime(mutations: Map<u16, MutateInfo>, now: u128, timeout: u128, later: u128)
    requires
        now <= later < now + timeout,
    ensures
        forall|k: u16|
            #[trigger] mutations.contains_key(k) && now <= duration_nanos(mutations[k].timestamp) + timeout
                ==> kept_mutations(mutations, nanos_saturating_sub(now, timeout)).contains_key(k),
        forall|k: u16|
            #[trigger] kept_mutations(mutations, nanos_saturating_sub(now, timeout)).contains_key(k) ==> later
                < duration_nanos(mutations[k].timestamp) + 2 * timeout,
{
}


/// Acknowledging a registered mutate message built at `message_tick` with the entities added
/// to it, while the current tick is `this_run`: an added entity with a mutation tick keeps it
/// when it is newer than the message tick and takes the message tick otherwise; an entity
/// without a mutation tick stays without one; every other entity keeps its tick.
pub proof fn lemma_ack_after_register(ticks: Map<u64, Tick>, added: Seq<Entity>, message_tick: Tick, this_run: Tick)
    ensures
        acked_ticks(ticks, added, message_tick, this_run).dom() == ticks.dom(),
        forall|i: int|
            0 <= i < added.len() && ticks.contains_key((#[trigger] added[i]).bits()) ==> acked_ticks(
                ticks,
                added,
                message_tick,
                this_run,
            )[added[i].bits()] == if newer_than(
                tick_value(ticks[added[i].bits()]),
                tick_value(message_tick),
                tick_value(this_run),
            ) {
                ticks[added[i].bits()]
            } else {
                message_tick
            },
        forall|b: u64|
            #[trigger] ticks.contains_key(b) && !holds_entity(added, b) ==> acked_ticks(
                ticks,
                added,
                message_tick,
                this_run,
            )[b] == ticks[b],
{
    assert(acked_ticks(ticks, added, message_tick, this_run).dom() =~= ticks.dom());
    assert forall|i: int| 0 <= i < added.len() && ticks.contains_key((#[trigger] added[i]).bits()) implies holds_entity(
        added,
        added[i].bits(),
    ) by {}
}

} // verus!
