use std::collections::{HashMap, HashSet};
use vstd::prelude::*;

use crate::network_channels::{ChannelConfig, SendType, DEFAULT_MAX_BYTES};

verus! {

broadcast use vstd::std_specs::hash::group_hash_axioms;

/// Whether a component is replicated on an entity with the components of `archetype`: it
/// must be registered for replication and no component that excludes it may be present.
pub open spec fn replicated_component(
    replicated: Set<usize>,
    ignored_if_present: Map<usize, Seq<usize>>,
    archetype: Set<usize>,
    component_id: usize,
) -> bool {
    &&& replicated.contains(component_id)
    &&& ignored_if_present.contains_key(component_id) ==> forall|i: int|
        0 <= i < ignored_if_present[component_id].len() ==> !archetype.contains(
            #[trigger] ignored_if_present[component_id][i],
        )
}

/// Which components replicate, by component ID.
pub struct ReplicationRules {
    /// Components registered for replication.
    replicated: HashSet<usize>,
    /// For a component, the components whose presence stops its replication.
    ignored_if_present: HashMap<usize, Vec<usize>>,
    /// The marker component of replicated entities.
    replication_id: usize,
}

impl ReplicationRules {
    /// The components registered for replication.
    pub closed spec fn replicated_spec(&self) -> Set<usize> {
        self.replicated@
    }

    /// For each component, the components whose presence stops its replication.
    pub closed spec fn ignored_spec(&self) -> Map<usize, Seq<usize>> {
        self.ignored_if_present@.map_values(|ids: Vec<usize>| ids@)
    }

    /// The marker component of replicated entities.
    pub closed spec fn replication_id_spec(&self) -> usize {
        self.replication_id
    }

    /// No component replicates yet; `replication_id` marks replicated entities.
    pub fn new(replication_id: usize) -> (rules: Self)
        ensures
            rules.replicated_spec() == Set::<usize>::empty(),
            rules.ignored_spec() == Map::<usize, Seq<usize>>::empty(),
            rules.replication_id_spec() == replication_id,
    {
        let rules = ReplicationRules {
            replicated: HashSet::new(),
            ignored_if_present: HashMap::new(),
            replication_id,
        };
        proof {
            assert(rules.ignored_spec() =~= Map::<usize, Seq<usize>>::empty());
        }
        rules
    }

    /// Registers a component for replication.
    pub fn replicate(&mut self, component_id: usize)
        ensures
            final(self).replicated_spec() == old(self).replicated_spec().insert(component_id),
            final(self).ignored_spec() == old(self).ignored_spec(),
            final(self).replication_id_spec() == old(self).replication_id_spec(),
    {
        self.replicated.insert(component_id);
    }

    /// Stops replicating `ignore_id` on entities that hold `present_id`.
    pub fn not_replicate_if_present(&mut self, ignore_id: usize, present_id: usize)
        ensures
            final(self).replicated_spec() == old(self).replicated_spec(),
            final(self).replication_id_spec() == old(self).replication_id_spec(),
            final(self).ignored_spec() == old(self).ignored_spec().insert(
                ignore_id,
                if old(self).ignored_spec().contains_key(ignore_id) {
                    old(self).ignored_spec()[ignore_id].push(present_id)
                } else {
                    seq![present_id]
                },
            ),
    {
        let mut ids = match self.ignored_if_present.remove(&ignore_id) {
            Some(ids) => ids,
            None => Vec::new(),
        };
        ids.push(present_id);
        self.ignored_if_present.insert(ignore_id, ids);
        proof {
            let expected = old(self).ignored_spec().insert(
                ignore_id,
                if old(self).ignored_spec().contains_key(ignore_id) {
                    old(self).ignored_spec()[ignore_id].push(present_id)
                } else {
                    seq![present_id]
                },
            );
            assert(self.ignored_spec() =~= expected);
        }
    }

    /// Whether entities with the components of `archetype` are replicated: they hold the
    /// replication marker.
    pub fn is_replicated_archetype(&self, archetype: &HashSet<usize>) -> (replicated: bool)
        ensures
            replicated == archetype@.contains(self.replication_id_spec()),
    {
        archetype.contains(&self.replication_id)
    }

    /// Whether a component is replicated on an entity with the components of `archetype`.
    pub fn is_replicated_component(&self, archetype: &HashSet<usize>, component_id: usize) -> (replicated:
        bool)
        ensures
            replicated == replicated_component(
                self.replicated_spec(),
                self.ignored_spec(),
                archetype@,
                component_id,
            ),
    {
        if self.replicated.contains(&component_id) {
            match self.ignored_if_present.get(&component_id) {
                Some(ignore_ids) => {
                    proof {
                        assert(self.ignored_spec().contains_key(component_id));
                        assert(self.ignored_spec()[component_id] == ignore_ids@);
                    }
                    let mut i: usize = 0;
                    while i < ignore_ids.len()
                        invariant
                            i <= ignore_ids@.len(),
                            self.ignored_spec().contains_key(component_id),
                            self.ignored_spec()[component_id] == ignore_ids@,
                            forall|k: int| 0 <= k < i ==> !archetype@.contains(#[trigger] ignore_ids@[k]),
                        decreases ignore_ids@.len() - i,
                    {
                        if archetype.contains(&ignore_ids[i]) {
                            proof {
                                assert(archetype@.contains(self.ignored_spec()[component_id][i as int]));
                            }
                            return false;
                        }
                        i = i + 1;
                    }
                },
                None => {},
            }
            return true;
        }
        false
    }
}

/// ID of the replication channel, which comes before the event channels.
pub const REPLICATION_CHANNEL_ID: u8 = 0;

/// The configurations of a side's channels: the unreliable replication channel, then one
/// channel per event, each with the default memory limit.
pub open spec fn event_channel_configs(channels: Seq<SendType>) -> Seq<ChannelConfig> {
    seq![
        ChannelConfig {
            channel_id: REPLICATION_CHANNEL_ID,
            max_memory_usage_bytes: DEFAULT_MAX_BYTES,
            send_type: SendType::Unreliable,
        },
    ] + Seq::new(
        channels.len(),
        |i: int|
            ChannelConfig {
                channel_id: (REPLICATION_CHANNEL_ID + 1 + i) as u8,
                max_memory_usage_bytes: DEFAULT_MAX_BYTES,
                send_type: channels[i],
            },
    )
}

/// Channels created for events, on each side, after the replication channel.
pub struct NetworkChannels {
    /// One channel per server event.
    server: Vec<SendType>,
    /// One channel per client event.
    client: Vec<SendType>,
}

impl NetworkChannels {
    /// Every event channel ID fits in a byte.
    #[verifier::type_invariant]
    closed spec fn inv(self) -> bool {
        &&& self.server@.len() <= u8::MAX
        &&& self.client@.len() <= u8::MAX
    }

    /// The server event channels.
    pub closed spec fn server_spec(&self) -> Seq<SendType> {
        self.server@
    }

    /// The client event channels.
    pub closed spec fn client_spec(&self) -> Seq<SendType> {
        self.client@
    }

    /// No event channel.
    pub fn new() -> (channels: Self)
        ensures
            channels.server_spec().len() == 0,
            channels.client_spec().len() == 0,
    {
        NetworkChannels { server: Vec::new(), client: Vec::new() }
    }

    /// The configurations of the server channels.
    pub fn server_channels(&self) -> (configs: Vec<ChannelConfig>)
        ensures
            configs@ == event_channel_configs(self.server_spec()),
    {
        proof {
            use_type_invariant(self);
        }
        channel_configs(self.server.as_slice())
    }

    /// The configurations of the client channels.
    pub fn client_channels(&self) -> (configs: Vec<ChannelConfig>)
        ensures
            configs@ == event_channel_configs(self.client_spec()),
    {
        proof {
            use_type_invariant(self);
        }
        channel_configs(self.client.as_slice())
    }

    /// Creates a client event channel and returns its ID.
    ///
    /// There can be at most `u8::MAX` event channels on a side.
    pub fn create_client_channel(&mut self, send_type: SendType) -> (id: u8)
        requires
            old(self).client_spec().len() < u8::MAX,
        ensures
            final(self).client_spec() == old(self).client_spec().push(send_type),
            final(self).server_spec() == old(self).server_spec(),
            id == REPLICATION_CHANNEL_ID + final(self).client_spec().len(),
    {
        proof {
            use_type_invariant(&*self);
        }
        let mut channels: Vec<SendType> = Vec::new();
        core::mem::swap(&mut channels, &mut self.client);
        channels.push(send_type);
        let id = channels.len() as u8 + REPLICATION_CHANNEL_ID;
        core::mem::swap(&mut channels, &mut self.client);
        id
    }

    /// Creates a server event channel and returns its ID.
    ///
    /// There can be at most `u8::MAX` event channels on a side.
    pub fn create_server_channel(&mut self, send_type: SendType) -> (id: u8)
        requires
            old(self).server_spec().len() < u8::MAX,
        ensures
            final(self).server_spec() == old(self).server_spec().push(send_type),
            final(self).client_spec() == old(self).client_spec(),
            id == REPLICATION_CHANNEL_ID + final(self).server_spec().len(),
    {
        proof {
            use_type_invariant(&*self);
        }
        let mut channels: Vec<SendType> = Vec::new();
        core::mem::swap(&mut channels, &mut self.server);
        channels.push(send_type);
        let id = channels.len() as u8 + REPLICATION_CHANNEL_ID;
        core::mem::swap(&mut channels, &mut self.server);
        id
    }
}

/// The configurations of a side's channels.
fn channel_configs(channels: &[SendType]) -> (configs: Vec<ChannelConfig>)
    requires
        channels@.len() <= u8::MAX,
    ensures
        configs@ == event_channel_configs(channels@),
{
    let mut configs: Vec<ChannelConfig> = Vec::new();
    configs.push(
        ChannelConfig {
            channel_id: REPLICATION_CHANNEL_ID,
            max_memory_usage_bytes: DEFAULT_MAX_BYTES,
            send_type: SendType::Unreliable,
        },
    );
    let mut index: usize = 0;
    while index < channels.len()
        invariant
            index <= channels@.len(),
            channels@.len() <= u8::MAX,
            configs@ == event_channel_configs(channels@.take(index as int)),
        decreases channels@.len() - index,
    {
        configs.push(
            ChannelConfig {
                channel_id: REPLICATION_CHANNEL_ID + 1 + index as u8,
                max_memory_usage_bytes: DEFAULT_MAX_BYTES,
                send_type: channels[index],
            },
        );
        index = index + 1;
        proof {
            assert(configs@ =~= event_channel_configs(channels@.take(index as int)));
        }
    }
    proof {
        assert(channels@.take(index as int) =~= channels@);
    }
    configs
}

} // verus!
