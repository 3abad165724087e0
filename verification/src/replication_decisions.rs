use bevy::ecs::component::Tick;
use std::collections::{HashMap, HashSet};
use vstd::prelude::*;

use crate::change_tick::{newer_than, tick_is_newer_than, tick_value};
use crate::client_ticks::ClientTicks;
use crate::entity::Entity;
use crate::replicon_tick::RepliconTick;
use crate::replication_fns::FnsId;
use crate::replication_rules::{all_present, ReplicationRule, ReplicationRules};

verus! {

broadcast use {vstd::std_specs::hash::group_hash_axioms, vstd::seq_lib::group_seq_properties};

/// How long a visibility filter keeps an entity or a component hidden from a client.
#[derive(Clone, Copy, Debug, PartialEq, Eq, Structural)]
pub enum ScopeLifetime {
    /// Hidden while the filter applies: the client forgets it.
    WhileVisible,
    /// Hidden once the client has seen it: the client keeps it, marked hidden.
    AfterFirstVisibility,
    /// Always present on the client once replicated.
    AlwaysPresent,
}

/// How a replication rule sends a component.
#[derive(Clone, Copy, Debug, PartialEq, Eq, Structural)]
pub enum ReplicationMode {
    /// Inserted, then sent on every change.
    OnChange,
    /// Inserted once, changes are not sent.
    Once,
}

/// What a client knows about a replicated entity.
pub struct EntityTicksState {
    /// Server tick of the last update of the entity sent to the client.
    pub server_tick: RepliconTick,
    /// System tick of that update, for change detection.
    pub system_tick: Tick,
    /// Components of the entity the client has received, by index.
    pub components: HashSet<usize>,
    /// Whether the client holds the entity marked as hidden.
    pub remote_hidden: bool,
}

/// What the server tracks about replication for one client.
pub struct ClientReplicationState {
    /// Entities the client knows, by entity bits.
    pub entities: HashMap<u64, EntityTicksState>,
    /// Entities hidden from the client, by entity bits, with how long they are hidden.
    pub hidden: HashMap<u64, ScopeLifetime>,
    /// Components hidden from the client, by entity bits.
    pub hidden_components: HashMap<u64, HashSet<usize>>,
    /// Entities whose visibility the client lost this tick.
    pub lost: Vec<LostVisibility>,
}

/// Components whose visibility a client lost.
pub enum LostScope {
    /// These components.
    Components(Vec<usize>),
    /// Every component but these.
    AllExcept(Vec<usize>),
}

/// An entity whose visibility a client lost this tick.
pub struct LostVisibility {
    /// The entity.
    pub entity: Entity,
    /// How long the entity itself is hidden, or `None` when only some of its components are.
    pub entity_lifetime: Option<ScopeLifetime>,
    /// The components hidden for as long as they are not visible.
    pub scopes: Vec<LostScope>,
}

/// Lost visibility by entity and how long the entity itself is hidden.
pub open spec fn lost_entries(lost: Seq<LostVisibility>) -> Seq<(Entity, Option<ScopeLifetime>)> {
    lost.map_values(|l: LostVisibility| (l.entity, l.entity_lifetime))
}

/// What collecting despawns writes for one client.
pub struct ClientDespawns {
    /// Entities to despawn on the client, in order.
    pub despawns: Vec<Entity>,
    /// Entities to mark as hidden on the client, in order.
    pub hidden: Vec<Entity>,
}

/// How a component of an entity is written for a client.
#[derive(Clone, Copy, Debug, PartialEq, Eq, Structural)]
pub enum ComponentWrite {
    /// Nothing is written.
    Skip,
    /// The component changed since the client's last acknowledged tick.
    Mutation,
    /// The client does not have the component yet.
    Insertion,
}

/// The despawns written for a client while despawned entities are processed, and the
/// entities it still knows afterwards.
pub open spec fn despawn_writes(despawned: Seq<Entity>, known: Set<u64>, hidden: Set<u64>) -> (
    Seq<Entity>,
    Set<u64>,
)
    decreases despawned.len(),
{
    if despawned.len() == 0 {
        (Seq::empty(), known)
    } else {
        let (writes, left) = despawn_writes(despawned.drop_last(), known, hidden);
        let bits = despawned.last().bits();
        if left.contains(bits) && !hidden.contains(bits) {
            (writes.push(despawned.last()), left.remove(bits))
        } else {
            (writes, left.remove(bits))
        }
    }
}

/// The bits of a list of entities.
pub open spec fn entity_bits_set(entities: Seq<Entity>) -> Set<u64> {
    Set::new(|bits: u64| exists|i: int| 0 <= i < entities.len() && (#[trigger] entities[i]).bits() == bits)
}

/// How a component is written for a client: not at all while it is hidden for as long as
/// it is not visible; as a mutation when the client has it, it is visible, the rule sends
/// changes, the entity's priority is due and it changed; as an insertion when the client
/// lacks it and it is visible, or it is always present and the entity is new to the client.
pub open spec fn component_write_spec(
    entity_ticks: bool,
    has_component: bool,
    hidden: Option<ScopeLifetime>,
    mode: ReplicationMode,
    priority_due: bool,
    changed: bool,
) -> ComponentWrite {
    if hidden == Some(ScopeLifetime::WhileVisible) {
        ComponentWrite::Skip
    } else if entity_ticks && has_component {
        if hidden is None && mode != ReplicationMode::Once && priority_due && changed {
            ComponentWrite::Mutation
        } else {
            ComponentWrite::Skip
        }
    } else if hidden is None || (hidden == Some(ScopeLifetime::AlwaysPresent) && !entity_ticks) {
        ComponentWrite::Insertion
    } else {
        ComponentWrite::Skip
    }
}

/// Decides how a component of an entity is written for a client.
///
/// `entity_ticks` is what the client knows about the entity, `hidden` how long the component is
/// hidden from the client, `priority_due` whether the entity's priority multiplied by the
/// ticks since the last acknowledgement reaches 1, `last_changed` the component's change
/// tick and `change_tick` the current system tick.
pub fn component_write(
    entity_ticks: Option<&EntityTicksState>,
    component: usize,
    hidden: Option<ScopeLifetime>,
    mode: ReplicationMode,
    priority_due: bool,
    last_changed: Tick,
    change_tick: Tick,
) -> (w: ComponentWrite)
    ensures
        w == component_write_spec(
            entity_ticks is Some,
            entity_ticks matches Some(t) && t.components@.contains(component),
            hidden,
            mode,
            priority_due,
            entity_ticks matches Some(t) && newer_than(
                tick_value(last_changed),
                tick_value(t.system_tick),
                tick_value(change_tick),
            ),
        ),
{
    if hidden == Some(ScopeLifetime::WhileVisible) {
        return ComponentWrite::Skip;
    }
    match entity_ticks {
        Some(ticks) => {
            if ticks.components.contains(&component) {
                if hidden.is_none() && mode != ReplicationMode::Once && priority_due
                    && tick_is_newer_than(last_changed, ticks.system_tick, change_tick) {
                    return ComponentWrite::Mutation;
                }
                return ComponentWrite::Skip;
            }
            if hidden.is_none() {
                ComponentWrite::Insertion
            } else {
                ComponentWrite::Skip
            }
        },
        None => {
            if hidden.is_none() || hidden == Some(ScopeLifetime::AlwaysPresent) {
                ComponentWrite::Insertion
            } else {
                ComponentWrite::Skip
            }
        },
    }
}

/// Decides which messages go to a client this tick: the update message when it has updates,
/// and then the update tick becomes the server tick; the mutate message when it has
/// mutations or mutate messages are followed for acknowledgement.
pub fn send_decision(
    ticks: &mut ClientTicks,
    updates_empty: bool,
    mutations_empty: bool,
    track_mutate_messages: bool,
    server_tick: RepliconTick,
) -> (s: (bool, bool))
    ensures
        s.0 == !updates_empty,
        s.1 == (!mutations_empty || track_mutate_messages),
        final(ticks).update_tick_spec() == if !updates_empty {
            server_tick
        } else {
            old(ticks).update_tick_spec()
        },
        final(ticks).ticks_map() == old(ticks).ticks_map(),
        final(ticks).mutations_map() == old(ticks).mutations_map(),
        final(ticks).next_index() == old(ticks).next_index(),
{
    let send_updates = !updates_empty;
    if send_updates {
        ticks.set_update_tick(server_tick);
    }
    (send_updates, !mutations_empty || track_mutate_messages)
}

/// Forgets despawned entities for one client and returns the despawns to write: an entity
/// the client knew and that is not hidden from it.
fn despawns_for_client(client: &mut ClientReplicationState, despawned: &[Entity]) -> (writes: Vec<Entity>)
    ensures
        writes@ == despawn_writes(despawned@, old(client).entities@.dom(), old(client).hidden@.dom()).0,
        final(client).entities@ == old(client).entities@.restrict(
            despawn_writes(despawned@, old(client).entities@.dom(), old(client).hidden@.dom()).1,
        ),
        final(client).hidden@ == old(client).hidden@.remove_keys(entity_bits_set(despawned@)),
        final(client).lost@ == old(client).lost@,
        final(client).hidden_components@ == old(client).hidden_components@.remove_keys(entity_bits_set(despawned@)),
{
    let ghost known = old(client).entities@.dom();
    let ghost hidden = old(client).hidden@.dom();
    let mut writes: Vec<Entity> = Vec::new();
    let mut i: usize = 0;
    proof {
        assert(despawned@.take(0) =~= Seq::<Entity>::empty());
        assert(client.entities@ =~= old(client).entities@.restrict(known));
        assert(client.hidden@ =~= old(client).hidden@.remove_keys(entity_bits_set(despawned@.take(0))));
        assert(client.hidden_components@ =~= old(client).hidden_components@.remove_keys(
            entity_bits_set(despawned@.take(0)),
        ));
    }
    while i < despawned.len()
        invariant
            i <= despawned@.len(),
            known == old(client).entities@.dom(),
            hidden == old(client).hidden@.dom(),
            writes@ == despawn_writes(despawned@.take(i as int), known, hidden).0,
            client.entities@ == old(client).entities@.restrict(
                despawn_writes(despawned@.take(i as int), known, hidden).1,
            ),
            despawn_writes(despawned@.take(i as int), known, hidden).1.subset_of(known),
            forall|b: u64|
                #[trigger] entity_bits_set(despawned@.take(i as int)).contains(b) ==> !despawn_writes(
                    despawned@.take(i as int),
                    known,
                    hidden,
                ).1.contains(b),
            client.hidden@ == old(client).hidden@.remove_keys(entity_bits_set(despawned@.take(i as int))),
            client.hidden_components@ == old(client).hidden_components@.remove_keys(
                entity_bits_set(despawned@.take(i as int)),
            ),
            client.lost@ == old(client).lost@,
        decreases despawned@.len() - i,
    {
        let entity = despawned[i];
        let bits = entity.to_bits();
        let ghost prefix = despawned@.take(i + 1);
        proof {
            assert(prefix.drop_last() =~= despawned@.take(i as int));
            assert(prefix.last() == entity);
        }
        let is_hidden = client.hidden.contains_key(&bits);
        let ghost left = despawn_writes(despawned@.take(i as int), known, hidden).1;
        proof {
            assert(left.contains(bits) ==> !entity_bits_set(despawned@.take(i as int)).contains(bits));
            assert(left.contains(bits) ==> (is_hidden == hidden.contains(bits)));
        }
        let removed = client.entities.remove(&bits);
        if removed.is_some() && !is_hidden {
            writes.push(entity);
        }
        client.hidden.remove(&bits);
        client.hidden_components.remove(&bits);
        proof {
            assert(client.entities@ =~= old(client).entities@.restrict(left.remove(bits)));
            assert(entity_bits_set(prefix) =~= entity_bits_set(despawned@.take(i as int)).insert(bits)) by {
                assert forall|b: u64| entity_bits_set(prefix).contains(b) implies entity_bits_set(
                    despawned@.take(i as int),
                ).insert(b).contains(b) by {}
                assert forall|b: u64| #[trigger] entity_bits_set(despawned@.take(i as int)).insert(bits).contains(b)
                    implies entity_bits_set(prefix).contains(b) by {
                    if b == bits {
                        assert(prefix[i as int].bits() == b);
                    } else {
                        let j = choose|j: int| 0 <= j < i && (#[trigger] despawned@.take(i as int)[j]).bits() == b;
                        assert(prefix[j].bits() == b);
                    }
                }
            }
            assert(client.hidden@ =~= old(client).hidden@.remove_keys(entity_bits_set(prefix)));
            assert(client.hidden_components@ =~= old(client).hidden_components@.remove_keys(
                entity_bits_set(prefix),
            ));
        }
        i = i + 1;
    }
    proof {
        assert(despawned@.take(despawned@.len() as int) =~= despawned@);
    }
    writes
}

/// Collects despawns for every client.
///
/// For each client, a despawned entity is written as a despawn when the client knew it and
/// it is not hidden from it, and the client forgets the entity and what hid it or its
/// components. Then, for each entity whose visibility the client lost at entity level: under
/// `WhileVisible` it is written as a despawn when the client knew it, and forgotten; otherwise
/// a known entity that is not yet marked hidden is written as hidden and marked so.
pub fn collect_despawns(despawned: &[Entity], clients: &mut Vec<ClientReplicationState>) -> (writes: Vec<
    ClientDespawns,
>)
    ensures
        writes@.len() == old(clients)@.len(),
        final(clients)@.len() == old(clients)@.len(),
        forall|c: int|
            0 <= c < old(clients)@.len() ==> {
                let old_client = old(clients)@[c];
                let (despawns, known) = despawn_writes(
                    despawned@,
                    old_client.entities@.dom(),
                    old_client.hidden@.dom(),
                );
                let after_despawns = old_client.entities@.restrict(known);
                let lost = lost_writes(lost_entries(old_client.lost@), after_despawns);
                &&& (#[trigger] writes@[c]).despawns@ == despawns + lost.0
                &&& writes@[c].hidden@ == lost.1
                &&& final(clients)@[c].entities@.dom() == lost.2.dom()
                &&& forall|b: u64|
                    #[trigger] lost.2.contains_key(b) ==> entity_ticks_match(
                        final(clients)@[c].entities@[b],
                        lost.2[b],
                    )
                &&& final(clients)@[c].hidden@ == old_client.hidden@.remove_keys(
                    entity_bits_set(despawned@),
                )
                &&& final(clients)@[c].hidden_components@ == old_client.hidden_components@.remove_keys(
                    entity_bits_set(despawned@),
                )
                &&& final(clients)@[c].lost@ == old_client.lost@
            },
{
    let mut writes: Vec<ClientDespawns> = Vec::new();
    let mut c: usize = 0;
    while c < clients.len()
        invariant
            c <= clients@.len(),
            clients@.len() == old(clients)@.len(),
            writes@.len() == c,
            forall|k: int| c <= k < clients@.len() ==> #[trigger] clients@[k] == old(clients)@[k],
            forall|k: int|
                0 <= k < c ==> {
                    let old_client = old(clients)@[k];
                    let (despawns, known) = despawn_writes(
                        despawned@,
                        old_client.entities@.dom(),
                        old_client.hidden@.dom(),
                    );
                    let after_despawns = old_client.entities@.restrict(known);
                    let lost = lost_writes(lost_entries(old_client.lost@), after_despawns);
                    &&& (#[trigger] writes@[k]).despawns@ == despawns + lost.0
                    &&& writes@[k].hidden@ == lost.1
                    &&& clients@[k].entities@.dom() == lost.2.dom()
                    &&& forall|b: u64|
                        #[trigger] lost.2.contains_key(b) ==> entity_ticks_match(
                            clients@[k].entities@[b],
                            lost.2[b],
                        )
                    &&& clients@[k].hidden@ == old_client.hidden@.remove_keys(
                        entity_bits_set(despawned@),
                    )
                    &&& clients@[k].hidden_components@ == old_client.hidden_components@.remove_keys(
                        entity_bits_set(despawned@),
                    )
                    &&& clients@[k].lost@ == old_client.lost@
                },
        decreases clients@.len() - c,
    {
        let ghost before = clients@;
        let mut despawns = despawns_for_client(&mut clients[c], despawned);
        let lost = lost_for_client(&mut clients[c]);
        let ClientLost { mut despawns_lost, hidden } = lost;
        let ghost first = despawns@;
        despawns.append(&mut despawns_lost);
        writes.push(ClientDespawns { despawns, hidden });
        proof {
            assert forall|k: int| 0 <= k < clients@.len() && k != c implies #[trigger] clients@[k]
                == before[k] by {}
        }
        c = c + 1;
    }
    writes
}

/// What processing lost visibility writes for one client.
struct ClientLost {
    despawns_lost: Vec<Entity>,
    hidden: Vec<Entity>,
}

/// Two views of an entity's ticks agree: same ticks, components and hidden mark.
pub open spec fn entity_ticks_match(a: EntityTicksState, b: EntityTicksState) -> bool {
    &&& a.server_tick == b.server_tick
    &&& a.system_tick == b.system_tick
    &&& a.components@ == b.components@
    &&& a.remote_hidden == b.remote_hidden
}

/// The despawns and hidden markers written for lost visibility, and the entities the client
/// knows afterwards.
pub open spec fn lost_writes(
    lost: Seq<(Entity, Option<ScopeLifetime>)>,
    entities: Map<u64, EntityTicksState>,
) -> (Seq<Entity>, Seq<Entity>, Map<u64, EntityTicksState>)
    decreases lost.len(),
{
    if lost.len() == 0 {
        (Seq::empty(), Seq::empty(), entities)
    } else {
        let (despawns, hidden, known) = lost_writes(lost.drop_last(), entities);
        let (entity, lifetime) = lost.last();
        let bits = entity.bits();
        match lifetime {
            None => (despawns, hidden, known),
            Some(ScopeLifetime::WhileVisible) => if known.contains_key(bits) {
                (despawns.push(entity), hidden, known.remove(bits))
            } else {
                (despawns, hidden, known)
            },
            Some(_) => if known.contains_key(bits) && !known[bits].remote_hidden {
                (
                    despawns,
                    hidden.push(entity),
                    known.insert(bits, EntityTicksState { remote_hidden: true, ..known[bits] }),
                )
            } else {
                (despawns, hidden, known)
            },
        }
    }
}

/// Processes the entities whose visibility a client lost this tick.
fn lost_for_client(client: &mut ClientReplicationState) -> (writes: ClientLost)
    ensures
        writes.despawns_lost@ == lost_writes(lost_entries(old(client).lost@), old(client).entities@).0,
        writes.hidden@ == lost_writes(lost_entries(old(client).lost@), old(client).entities@).1,
        final(client).entities@.dom() == lost_writes(lost_entries(old(client).lost@), old(client).entities@).2.dom(),
        forall|b: u64|
            #[trigger] lost_writes(lost_entries(old(client).lost@), old(client).entities@).2.contains_key(b)
                ==> entity_ticks_match(
                final(client).entities@[b],
                lost_writes(lost_entries(old(client).lost@), old(client).entities@).2[b],
            ),
        final(client).hidden@ == old(client).hidden@,
        final(client).lost@ == old(client).lost@,
        final(client).hidden_components@ == old(client).hidden_components@,
{
    let ghost all = lost_entries(old(client).lost@);
    let ghost start = old(client).entities@;
    let mut despawns_lost: Vec<Entity> = Vec::new();
    let mut hidden: Vec<Entity> = Vec::new();
    let mut i: usize = 0;
    proof {
        assert(all.take(0) =~= Seq::<(Entity, Option<ScopeLifetime>)>::empty());
    }
    while i < client.lost.len()
        invariant
            i <= client.lost@.len(),
            client.lost@ == old(client).lost@,
            all == lost_entries(old(client).lost@),
            client.hidden@ == old(client).hidden@,
            client.hidden_components@ == old(client).hidden_components@,
            start == old(client).entities@,
            despawns_lost@ == lost_writes(all.take(i as int), start).0,
            hidden@ == lost_writes(all.take(i as int), start).1,
            client.entities@.dom() == lost_writes(all.take(i as int), start).2.dom(),
            forall|b: u64|
                #[trigger] lost_writes(all.take(i as int), start).2.contains_key(b) ==> entity_ticks_match(
                    client.entities@[b],
                    lost_writes(all.take(i as int), start).2[b],
                ),
        decreases all.len() - i,
    {
        let entity = client.lost[i].entity;
        let lifetime = client.lost[i].entity_lifetime;
        let bits = entity.to_bits();
        let ghost prefix = all.take(i + 1);
        let ghost known = lost_writes(all.take(i as int), start).2;
        proof {
            assert(prefix.drop_last() =~= all.take(i as int));
            assert(prefix.last() == (entity, lifetime));
        }
        match lifetime {
            None => {},
            Some(ScopeLifetime::WhileVisible) => {
                let removed = client.entities.remove(&bits);
                if removed.is_some() {
                    despawns_lost.push(entity);
                }
                proof {
                    assert(client.entities@.dom() =~= lost_writes(prefix, start).2.dom());
                }
            },
            Some(_) => {
                let marked = match client.entities.get(&bits) {
                    Some(ticks) => ticks.remote_hidden,
                    None => true,
                };
                if !marked {
                    match client.entities.remove(&bits) {
                        Some(ticks) => {
                            let EntityTicksState { server_tick, system_tick, components, remote_hidden: _ } = ticks;
                            client.entities.insert(
                                bits,
                                EntityTicksState { server_tick, system_tick, components, remote_hidden: true },
                            );
                        },
                        None => {},
                    }
                    hidden.push(entity);
                    proof {
                        assert(client.entities@.dom() =~= lost_writes(prefix, start).2.dom());
                    }
                }
            },
        }
        i = i + 1;
    }
    proof {
        assert(all.take(all.len() as int) =~= all);
    }
    ClientLost { despawns_lost, hidden }
}

/// `listed` followed by the components of `components` that are not listed yet, each once,
/// in order.
pub open spec fn append_new(listed: Seq<usize>, components: Seq<(usize, FnsId)>) -> Seq<usize>
    decreases components.len(),
{
    if components.len() == 0 {
        listed
    } else {
        let earlier = append_new(listed, components.drop_last());
        let component = components.last().0;
        if earlier.contains(component) {
            earlier
        } else {
            earlier.push(component)
        }
    }
}

/// The components of every rule that matches an archetype, rule after rule, each component
/// once, where it first appears.
pub open spec fn matching_components(rules: Seq<Seq<(usize, FnsId)>>, archetype: Set<usize>) -> Seq<usize>
    decreases rules.len(),
{
    if rules.len() == 0 {
        Seq::empty()
    } else {
        let earlier = matching_components(rules.drop_last(), archetype);
        if all_present(rules.last(), archetype) {
            append_new(earlier, rules.last())
        } else {
            earlier
        }
    }
}

/// Appending components that are not listed yet keeps a list free of duplicates.
pub proof fn lemma_append_new_distinct(listed: Seq<usize>, components: Seq<(usize, FnsId)>)
    requires
        listed.no_duplicates(),
    ensures
        append_new(listed, components).no_duplicates(),
    decreases components.len(),
{
    if components.len() > 0 {
        lemma_append_new_distinct(listed, components.drop_last());
    }
}

/// No component is listed twice for an archetype, whatever rules share it.
pub proof fn lemma_matching_components_distinct(rules: Seq<Seq<(usize, FnsId)>>, archetype: Set<usize>)
    ensures
        matching_components(rules, archetype).no_duplicates(),
    decreases rules.len(),
{
    if rules.len() > 0 {
        lemma_matching_components_distinct(rules.drop_last(), archetype);
        if all_present(rules.last(), archetype) {
            lemma_append_new_distinct(matching_components(rules.drop_last(), archetype), rules.last());
        }
    }
}

/// Whether `component` is in `listed`.
fn is_listed(listed: &Vec<usize>, component: usize) -> (found: bool)
    ensures
        found == listed@.contains(component),
{
    let mut i: usize = 0;
    while i < listed.len()
        invariant
            i <= listed@.len(),
            forall|j: int| 0 <= j < i ==> listed@[j] != component,
        decreases listed@.len() - i,
    {
        if listed[i] == component {
            return true;
        }
        i = i + 1;
    }
    false
}

/// The entries of a scene: for each archetype, in order, that holds the replication marker,
/// each of its entities with the components of every matching rule, each once.
pub open spec fn scene_entries(
    archetypes: Seq<(Seq<Entity>, Set<usize>)>,
    marker_id: usize,
    rules: Seq<Seq<(usize, FnsId)>>,
) -> Seq<(Entity, Seq<usize>)>
    decreases archetypes.len(),
{
    if archetypes.len() == 0 {
        Seq::empty()
    } else {
        let earlier = scene_entries(archetypes.drop_last(), marker_id, rules);
        let (entities, components) = archetypes.last();
        if components.contains(marker_id) {
            earlier + entities.map_values(
                |e: Entity| (e, matching_components(rules, components)),
            )
        } else {
            earlier
        }
    }
}

/// Archetypes by their entities and components.
pub open spec fn archetype_views(archetypes: Seq<(Vec<Entity>, HashSet<usize>)>) -> Seq<
    (Seq<Entity>, Set<usize>),
> {
    archetypes.map_values(|a: (Vec<Entity>, HashSet<usize>)| (a.0@, a.1@))
}

/// Scene entries by their entities and components.
pub open spec fn entry_views(entries: Seq<(Entity, Vec<usize>)>) -> Seq<(Entity, Seq<usize>)> {
    entries.map_values(|e: (Entity, Vec<usize>)| (e.0, e.1@))
}

/// The components of every rule that matches an archetype, rule after rule, each once.
fn matching_rule_components(rules: &[ReplicationRule], archetype: &HashSet<usize>) -> (components: Vec<usize>)
    ensures
        components@ == matching_components(
            rules@.map_values(|rule: ReplicationRule| rule.components@),
            archetype@,
        ),
{
    let ghost views = rules@.map_values(|rule: ReplicationRule| rule.components@);
    let mut components: Vec<usize> = Vec::new();
    let mut r: usize = 0;
    proof {
        assert(views.take(0) =~= Seq::<Seq<(usize, FnsId)>>::empty());
    }
    while r < rules.len()
        invariant
            r <= rules@.len(),
            views == rules@.map_values(|rule: ReplicationRule| rule.components@),
            components@ == matching_components(views.take(r as int), archetype@),
        decreases rules@.len() - r,
    {
        let rule = &rules[r];
        proof {
            assert(views.take(r + 1).drop_last() =~= views.take(r as int));
            assert(views.take(r + 1).last() == rule.components@);
        }
        if rule.matches(archetype) {
            let ghost before = components@;
            let mut k: usize = 0;
            while k < rule.components.len()
                invariant
                    k <= rule.components@.len(),
                    components@ == append_new(before, rule.components@.take(k as int)),
                decreases rule.components@.len() - k,
            {
                let component = rule.components[k].0;
                proof {
                    assert(rule.components@.take(k + 1).drop_last() =~= rule.components@.take(k as int));
                }
                if !is_listed(&components, component) {
                    components.push(component);
                }
                k = k + 1;
            }
            proof {
                assert(rule.components@.take(rule.components@.len() as int) =~= rule.components@);
            }
        }
        r = r + 1;
    }
    proof {
        assert(views.take(rules@.len() as int) =~= views);
    }
    components
}

/// The entities a scene of the replicated world holds, with the components each one
/// replicates: for every archetype with the replication marker, each of its entities with
/// the components of every rule the archetype matches, in rule order, a component that
/// several rules share listed once, where it first appears.
///
/// `archetypes` holds each archetype's entities and components. Cloning the components into
/// the scene goes through reflection and is left to the caller.
pub fn scene_components(
    archetypes: &[(Vec<Entity>, HashSet<usize>)],
    marker_id: usize,
    rules: &ReplicationRules,
) -> (out: Vec<(Entity, Vec<usize>)>)
    ensures
        entry_views(out@) == scene_entries(archetype_views(archetypes@), marker_id, rules.components_spec()),
{
    let rule_list = rules.rules();
    let ghost views = archetype_views(archetypes@);
    let mut out: Vec<(Entity, Vec<usize>)> = Vec::new();
    let mut a: usize = 0;
    proof {
        assert(views.take(0) =~= Seq::<(Seq<Entity>, Set<usize>)>::empty());
    }
    while a < archetypes.len()
        invariant
            a <= archetypes@.len(),
            views == archetype_views(archetypes@),
            rule_list@.map_values(|rule: ReplicationRule| rule.components@) == rules.components_spec(),
            entry_views(out@) == scene_entries(views.take(a as int), marker_id, rules.components_spec()),
        decreases archetypes@.len() - a,
    {
        let (entities, components) = &archetypes[a];
        proof {
            assert(views.take(a + 1).drop_last() =~= views.take(a as int));
            assert(views.take(a + 1).last() == (entities@, components@));
        }
        if components.contains(&marker_id) {
            let ghost before = entry_views(out@);
            let ghost comps = matching_components(rules.components_spec(), components@);
            let found = matching_rule_components(rule_list, components);
            let mut i: usize = 0;
            while i < entities.len()
                invariant
                    i <= entities@.len(),
                    rule_list@.map_values(|rule: ReplicationRule| rule.components@) == rules.components_spec(),
                    comps == matching_components(rules.components_spec(), components@),
                    found@ == comps,
                    entry_views(out@) == before + entities@.take(i as int).map_values(
                        |e: Entity| (e, comps),
                    ),
                decreases entities@.len() - i,
            {
                let ghost prev = out@;
                out.push((entities[i], found.clone()));
                proof {
                    assert(entry_views(out@) =~= entry_views(prev).push((entities@[i as int], comps)));
                    assert(entities@.take(i + 1).map_values(|e: Entity| (e, comps)) =~= entities@.take(
                        i as int,
                    ).map_values(|e: Entity| (e, comps)).push((entities@[i as int], comps)));
                }
                i = i + 1;
            }
            proof {
                assert(entities@.take(entities@.len() as int) =~= entities@);
            }
        }
        a = a + 1;
    }
    proof {
        assert(views.take(archetypes@.len() as int) =~= views);
    }
    out
}

/// The removals written for one entity and the components the client keeps: a removed
/// component is written when it is not hidden and the client has it, and then the client no
/// longer has it.
pub open spec fn removal_fns(
    ids: Seq<(usize, FnsId)>,
    components: Set<usize>,
    entity_hidden: bool,
    hidden_components: Set<usize>,
) -> (Seq<FnsId>, Set<usize>)
    decreases ids.len(),
{
    if ids.len() == 0 {
        (Seq::empty(), components)
    } else {
        let (written, left) = removal_fns(ids.drop_last(), components, entity_hidden, hidden_components);
        let (component, fns_id) = ids.last();
        if !entity_hidden && !hidden_components.contains(component) && left.contains(component) {
            (written.push(fns_id), left.remove(component))
        } else {
            (written, left)
        }
    }
}

/// The components each known entity has on a client.
pub open spec fn known_components(entities: Map<u64, EntityTicksState>) -> Map<u64, Set<usize>> {
    Map::new(|b: u64| entities.contains_key(b), |b: u64| entities[b].components@)
}

/// The components hidden for an entity on a client.
pub open spec fn hidden_for(hidden_components: Map<u64, HashSet<usize>>, bits: u64) -> Set<usize> {
    if hidden_components.contains_key(bits) {
        hidden_components[bits]@
    } else {
        Set::empty()
    }
}

/// The removals written for a client, entity by entity (only entities with at least one),
/// and the components it keeps.
pub open spec fn client_removals(
    removals: Seq<(Entity, Seq<(usize, FnsId)>)>,
    components: Map<u64, Set<usize>>,
    hidden: Set<u64>,
    hidden_components: Map<u64, HashSet<usize>>,
) -> (Seq<(Entity, Seq<FnsId>)>, Map<u64, Set<usize>>)
    decreases removals.len(),
{
    if removals.len() == 0 {
        (Seq::empty(), components)
    } else {
        let (written, kept) = client_removals(removals.drop_last(), components, hidden, hidden_components);
        let (entity, ids) = removals.last();
        let bits = entity.bits();
        if kept.contains_key(bits) {
            let (fns, left) = removal_fns(
                ids,
                kept[bits],
                hidden.contains(bits),
                hidden_for(hidden_components, bits),
            );
            (if fns.len() > 0 { written.push((entity, fns)) } else { written }, kept.insert(bits, left))
        } else {
            (written, kept)
        }
    }
}

/// Removals by their entities and functions.
pub open spec fn removal_views(removals: Seq<(Entity, Vec<(usize, FnsId)>)>) -> Seq<
    (Entity, Seq<(usize, FnsId)>),
> {
    removals.map_values(|r: (Entity, Vec<(usize, FnsId)>)| (r.0, r.1@))
}

/// Written removals by their entities and functions.
pub open spec fn written_views(written: Seq<(Entity, Vec<FnsId>)>) -> Seq<(Entity, Seq<FnsId>)> {
    written.map_values(|w: (Entity, Vec<FnsId>)| (w.0, w.1@))
}

/// Removes the components of one entity for a client and returns the removals written.
fn remove_components(
    ticks: &mut HashSet<usize>,
    ids: &[(usize, FnsId)],
    entity_hidden: bool,
    hidden_components: &HashSet<usize>,
) -> (written: Vec<FnsId>)
    ensures
        written@ == removal_fns(ids@, old(ticks)@, entity_hidden, hidden_components@).0,
        final(ticks)@ == removal_fns(ids@, old(ticks)@, entity_hidden, hidden_components@).1,
{
    let mut written: Vec<FnsId> = Vec::new();
    let mut k: usize = 0;
    proof {
        assert(ids@.take(0) =~= Seq::<(usize, FnsId)>::empty());
    }
    while k < ids.len()
        invariant
            k <= ids@.len(),
            written@ == removal_fns(ids@.take(k as int), old(ticks)@, entity_hidden, hidden_components@).0,
            ticks@ == removal_fns(ids@.take(k as int), old(ticks)@, entity_hidden, hidden_components@).1,
        decreases ids@.len() - k,
    {
        let (component, fns_id) = ids[k];
        proof {
            assert(ids@.take(k + 1).drop_last() =~= ids@.take(k as int));
            assert(ids@.take(k + 1).last() == (component, fns_id));
        }
        if !entity_hidden && !hidden_components.contains(&component) && ticks.contains(&component) {
            ticks.remove(&component);
            written.push(fns_id);
        }
        k = k + 1;
    }
    proof {
        assert(ids@.take(ids@.len() as int) =~= ids@);
    }
    written
}

/// Collects removals for one client; with `apply_hidden` false, hidden entities and components
/// are not skipped.
fn removals_for_client(
    client: &mut ClientReplicationState,
    removals: &[(Entity, Vec<(usize, FnsId)>)],
    apply_hidden: bool,
) -> (written: Vec<(Entity, Vec<FnsId>)>)
    ensures
        written_views(written@) == client_removals(
            removal_views(removals@),
            known_components(old(client).entities@),
            if apply_hidden { old(client).hidden@.dom() } else { Set::empty() },
            if apply_hidden { old(client).hidden_components@ } else { Map::empty() },
        ).0,
        final(client).entities@.dom() == old(client).entities@.dom(),
        forall|b: u64|
            #[trigger] old(client).entities@.contains_key(b) ==> {
                &&& final(client).entities@[b].components@ == client_removals(
                    removal_views(removals@),
                    known_components(old(client).entities@),
                    if apply_hidden { old(client).hidden@.dom() } else { Set::empty() },
                    if apply_hidden { old(client).hidden_components@ } else { Map::empty() },
                ).1[b]
                &&& final(client).entities@[b].server_tick == old(client).entities@[b].server_tick
                &&& final(client).entities@[b].system_tick == old(client).entities@[b].system_tick
                &&& final(client).entities@[b].remote_hidden == old(client).entities@[b].remote_hidden
            },
        final(client).hidden@ == old(client).hidden@,
        final(client).hidden_components@ == old(client).hidden_components@,
        final(client).lost@ == old(client).lost@,
{
    let ghost views = removal_views(removals@);
    let ghost start = known_components(old(client).entities@);
    let ghost hidden = if apply_hidden { old(client).hidden@.dom() } else { Set::empty() };
    let ghost hidden_components = if apply_hidden {
        old(client).hidden_components@
    } else {
        Map::empty()
    };
    let mut written: Vec<(Entity, Vec<FnsId>)> = Vec::new();
    let mut i: usize = 0;
    proof {
        assert(views.take(0) =~= Seq::<(Entity, Seq<(usize, FnsId)>)>::empty());
        assert(written_views(written@) =~= Seq::<(Entity, Seq<FnsId>)>::empty());
    }
    while i < removals.len()
        invariant
            i <= removals@.len(),
            views == removal_views(removals@),
            start == known_components(old(client).entities@),
            hidden == (if apply_hidden { old(client).hidden@.dom() } else { Set::empty() }),
            hidden_components == (if apply_hidden {
                old(client).hidden_components@
            } else {
                Map::empty()
            }),
            client.hidden@ == old(client).hidden@,
            client.hidden_components@ == old(client).hidden_components@,
            client.lost@ == old(client).lost@,
            written_views(written@) == client_removals(views.take(i as int), start, hidden, hidden_components).0,
            client_removals(views.take(i as int), start, hidden, hidden_components).1.dom()
                == old(client).entities@.dom(),
            client.entities@.dom() == old(client).entities@.dom(),
            forall|b: u64|
                #[trigger] old(client).entities@.contains_key(b) ==> {
                    &&& client.entities@[b].components@ == client_removals(
                        views.take(i as int),
                        start,
                        hidden,
                        hidden_components,
                    ).1[b]
                    &&& client.entities@[b].server_tick == old(client).entities@[b].server_tick
                    &&& client.entities@[b].system_tick == old(client).entities@[b].system_tick
                    &&& client.entities@[b].remote_hidden == old(client).entities@[b].remote_hidden
                },
        decreases removals@.len() - i,
    {
        let entity = removals[i].0;
        let bits = entity.to_bits();
        let ghost prefix = views.take(i + 1);
        let ghost kept = client_removals(views.take(i as int), start, hidden, hidden_components).1;
        proof {
            assert(prefix.drop_last() =~= views.take(i as int));
            assert(prefix.last() == (entity, removals@[i as int].1@));
        }
        let entity_hidden = apply_hidden && client.hidden.contains_key(&bits);
        let empty: HashSet<usize> = HashSet::new();
        let hidden_set = if !apply_hidden {
            &empty
        } else {
            match client.hidden_components.get(&bits) {
                Some(set) => set,
                None => &empty,
            }
        };
        proof {
            assert(hidden_set@ == hidden_for(hidden_components, bits));
        }
        match client.entities.remove(&bits) {
            Some(ticks) => {
                let EntityTicksState { server_tick, system_tick, mut components, remote_hidden } = ticks;
                let ghost old_components = components@;
                let fns = remove_components(&mut components, removals[i].1.as_slice(), entity_hidden, hidden_set);
                let ghost new_components = components@;
                client.entities.insert(bits, EntityTicksState { server_tick, system_tick, components, remote_hidden });
                if fns.len() > 0 {
                    let ghost prev = written@;
                    written.push((entity, fns));
                    proof {
                        assert(written_views(written@) =~= written_views(prev).push((entity, fns@)));
                    }
                }
                proof {
                    assert(old_components == kept[bits]);
                    assert forall|b: u64| #[trigger] old(client).entities@.contains_key(b) implies {
                        &&& client.entities@[b].components@ == client_removals(prefix, start, hidden, hidden_components).1[b]
                        &&& client.entities@[b].server_tick == old(client).entities@[b].server_tick
                        &&& client.entities@[b].system_tick == old(client).entities@[b].system_tick
                        &&& client.entities@[b].remote_hidden == old(client).entities@[b].remote_hidden
                    } by {}
                    assert(client.entities@.dom() =~= old(client).entities@.dom());
                    assert(client_removals(prefix, start, hidden, hidden_components).1.dom() =~= old(client).entities@.dom());
                }
            },
            None => {},
        }
        i = i + 1;
    }
    proof {
        assert(views.take(removals@.len() as int) =~= views);
    }
    written
}

/// Collects component removals for every client.
///
/// For each client and each removed component, in order: the removal is written when the
/// client knows the entity, the component is not hidden from it and it has the component;
/// then the client no longer has the component. An entity's removals are grouped, and an
/// entity without a written removal is left out.
pub fn collect_removals(
    removals: &[(Entity, Vec<(usize, FnsId)>)],
    clients: &mut Vec<ClientReplicationState>,
) -> (writes: Vec<Vec<(Entity, Vec<FnsId>)>>)
    ensures
        writes@.len() == old(clients)@.len(),
        final(clients)@.len() == old(clients)@.len(),
        forall|c: int|
            0 <= c < old(clients)@.len() ==> {
                let old_client = old(clients)@[c];
                let result = client_removals(
                    removal_views(removals@),
                    known_components(old_client.entities@),
                    old_client.hidden@.dom(),
                    old_client.hidden_components@,
                );
                &&& written_views((#[trigger] writes@[c])@) == result.0
                &&& final(clients)@[c].entities@.dom() == old_client.entities@.dom()
                &&& forall|b: u64|
                    #[trigger] old_client.entities@.contains_key(b) ==> final(clients)@[c].entities@[b].components@
                        == result.1[b]
                &&& final(clients)@[c].hidden@ == old_client.hidden@
                &&& final(clients)@[c].hidden_components@ == old_client.hidden_components@
                &&& final(clients)@[c].lost@ == old_client.lost@
            },
{
    let mut writes: Vec<Vec<(Entity, Vec<FnsId>)>> = Vec::new();
    let mut c: usize = 0;
    while c < clients.len()
        invariant
            c <= clients@.len(),
            clients@.len() == old(clients)@.len(),
            writes@.len() == c,
            forall|k: int| c <= k < clients@.len() ==> #[trigger] clients@[k] == old(clients)@[k],
            forall|k: int|
                0 <= k < c ==> {
                    let old_client = old(clients)@[k];
                    let result = client_removals(
                        removal_views(removals@),
                        known_components(old_client.entities@),
                        old_client.hidden@.dom(),
                        old_client.hidden_components@,
                    );
                    &&& written_views((#[trigger] writes@[k])@) == result.0
                    &&& clients@[k].entities@.dom() == old_client.entities@.dom()
                    &&& forall|b: u64|
                        #[trigger] old_client.entities@.contains_key(b) ==> clients@[k].entities@[b].components@
                            == result.1[b]
                    &&& clients@[k].hidden@ == old_client.hidden@
                    &&& clients@[k].hidden_components@ == old_client.hidden_components@
                    &&& clients@[k].lost@ == old_client.lost@
                },
        decreases clients@.len() - c,
    {
        let ghost before = clients@;
        let written = removals_for_client(&mut clients[c], removals, true);
        writes.push(written);
        proof {
            assert forall|k: int| 0 <= k < clients@.len() && k != c implies #[trigger] clients@[k]
                == before[k] by {}
        }
        c = c + 1;
    }
    writes
}


/// How long an entity is hidden from a client, if it is.
pub open spec fn hidden_lifetime(hidden: Map<u64, ScopeLifetime>, bits: u64) -> Option<ScopeLifetime> {
    if hidden.contains_key(bits) {
        Some(hidden[bits])
    } else {
        None
    }
}

/// An entity starts replication for a client: the client does not know it and it is visible,
/// or always present.
pub open spec fn starts_replication(known: bool, hidden: Option<ScopeLifetime>) -> bool {
    !known && (hidden is None || hidden == Some(ScopeLifetime::AlwaysPresent))
}

/// An entity resumes replication for a client: the client holds it marked hidden and it is
/// visible again.
pub open spec fn resumes_replication(known: bool, remote_hidden: bool, hidden: Option<ScopeLifetime>) -> bool {
    hidden is None && known && remote_hidden
}

/// Adds components to a set.
fn add_components(components: &mut HashSet<usize>, changed: &[usize])
    ensures
        final(components)@ == old(components)@.union(changed@.to_set()),
{
    let mut i: usize = 0;
    while i < changed.len()
        invariant
            i <= changed@.len(),
            components@ == old(components)@.union(changed@.take(i as int).to_set()),
        decreases changed@.len() - i,
    {
        components.insert(changed[i]);
        proof {
            assert(changed@.take(i + 1).to_set() =~= changed@.take(i as int).to_set().insert(changed@[i as int])) by {
                assert(changed@.take(i + 1) =~= changed@.take(i as int).push(changed@[i as int]));
            }
        }
        i = i + 1;
    }
    proof {
        assert(changed@.take(changed@.len() as int) =~= changed@);
    }
}

/// How finishing an entity for a client changes it from `before` to `after` and what it
/// returns: see [`finish_entity`].
pub open spec fn entity_finished(
    before: ClientReplicationState,
    after: ClientReplicationState,
    entity: Entity,
    has_insertions: bool,
    has_removals: bool,
    has_mutations: bool,
    changed: Seq<usize>,
    system_tick: Tick,
    server_tick: RepliconTick,
    f: (bool, bool),
) -> bool {
    let bits = entity.bits();
    let hidden = hidden_lifetime(before.hidden@, bits);
    let known = before.entities@.contains_key(bits);
    let remote_hidden = known && before.entities@[bits].remote_hidden;
    let starts = starts_replication(known, hidden);
    let resumes = resumes_replication(known, remote_hidden, hidden);
    let touched = hidden != Some(ScopeLifetime::WhileVisible) && (starts || resumes || has_insertions
        || has_removals);
    &&& f.0 == (touched && has_mutations)
    &&& f.1 == (hidden != Some(ScopeLifetime::WhileVisible) && (starts || resumes) && !has_insertions
        && !has_mutations)
    &&& !touched ==> after.entities@ == before.entities@
    &&& touched ==> {
        &&& after.entities@.dom() == before.entities@.dom().insert(bits)
        &&& forall|b: u64|
            b != bits && #[trigger] before.entities@.contains_key(b) ==> after.entities@[b]
                == before.entities@[b]
        &&& after.entities@[bits].server_tick == server_tick
        &&& after.entities@[bits].system_tick == system_tick
        &&& after.entities@[bits].components@ == if known {
            before.entities@[bits].components@.union(changed.to_set())
        } else {
            changed.to_set()
        }
        &&& after.entities@[bits].remote_hidden == (remote_hidden && !resumes)
    }
    &&& after.hidden@ == before.hidden@
    &&& after.hidden_components@ == before.hidden_components@
    &&& after.lost@ == before.lost@
}

/// Finishes an entity for a client once all its components were processed.
///
/// Nothing happens while the entity is hidden for as long as it is not visible. Otherwise,
/// when the entity starts replication, resumes it after being hidden, or has insertions or
/// removals, its mutations are merged into the update message (the first flag of the result)
/// and the client's ticks of the entity become `system_tick` and `server_tick`, with the
/// changed components added; resuming also clears the hidden mark. When the entity starts or
/// resumes replication without insertions or mutations, it is written empty (the second flag).
pub fn finish_entity(
    client: &mut ClientReplicationState,
    entity: Entity,
    has_insertions: bool,
    has_removals: bool,
    has_mutations: bool,
    changed_components: &[usize],
    system_tick: Tick,
    server_tick: RepliconTick,
) -> (f: (bool, bool))
    ensures
        entity_finished(
            *old(client),
            *final(client),
            entity,
            has_insertions,
            has_removals,
            has_mutations,
            changed_components@,
            system_tick,
            server_tick,
            f,
        ),
{
    let bits = entity.to_bits();
    let hidden: Option<ScopeLifetime> = match client.hidden.get(&bits) {
        Some(lifetime) => Some(*lifetime),
        None => None,
    };
    proof {
        assert(hidden == hidden_lifetime(client.hidden@, bits));
    }
    if hidden == Some(ScopeLifetime::WhileVisible) {
        return (false, false);
    }
    let known = client.entities.contains_key(&bits);
    let remote_hidden = match client.entities.get(&bits) {
        Some(ticks) => ticks.remote_hidden,
        None => false,
    };
    let resumes = hidden.is_none() && known && remote_hidden;
    let starts = !known && (hidden.is_none() || hidden == Some(ScopeLifetime::AlwaysPresent));
    let touched = starts || resumes || has_insertions || has_removals;
    if touched {
        let updated = match client.entities.remove(&bits) {
            Some(ticks) => {
                let EntityTicksState { server_tick: _, system_tick: _, mut components, remote_hidden } = ticks;
                add_components(&mut components, changed_components);
                EntityTicksState { server_tick, system_tick, components, remote_hidden: remote_hidden && !resumes }
            },
            None => {
                let mut components: HashSet<usize> = HashSet::new();
                add_components(&mut components, changed_components);
                proof {
                    assert(components@ =~= changed_components@.to_set());
                }
                EntityTicksState { server_tick, system_tick, components, remote_hidden: false }
            },
        };
        client.entities.insert(bits, updated);
        proof {
            assert(client.entities@.dom() =~= old(client).entities@.dom().insert(bits));
        }
    }
    (touched && has_mutations, (starts || resumes) && !has_insertions && !has_mutations)
}


/// The functions of the first rule entry of `component`, if it has one.
pub open spec fn rule_fns(components: Seq<(usize, FnsId)>, component: usize) -> Option<FnsId>
    decreases components.len(),
{
    if components.len() == 0 {
        None
    } else if components[0].0 == component {
        Some(components[0].1)
    } else {
        rule_fns(components.drop_first(), component)
    }
}

/// The components of `mask`, in order, that a rule replicates, with the rule's functions.
pub open spec fn mask_candidates(mask: Seq<usize>, components: Seq<(usize, FnsId)>) -> Seq<(usize, FnsId)>
    decreases mask.len(),
{
    if mask.len() == 0 {
        Seq::empty()
    } else {
        let earlier = mask_candidates(mask.drop_last(), components);
        match rule_fns(components, mask.last()) {
            Some(fns_id) => earlier.push((mask.last(), fns_id)),
            None => earlier,
        }
    }
}

/// The replicated components, in order, that are not in `mask`, with their rule's functions.
pub open spec fn except_candidates(mask: Seq<usize>, components: Seq<(usize, FnsId)>) -> Seq<(usize, FnsId)>
    decreases components.len(),
{
    if components.len() == 0 {
        Seq::empty()
    } else {
        let earlier = except_candidates(mask, components.drop_last());
        if mask.contains(components.last().0) {
            earlier
        } else {
            earlier.push(components.last())
        }
    }
}

/// The components a scope covers among the replicated `components`, with their rule's
/// functions.
pub open spec fn scope_candidates(scope: LostScope, components: Seq<(usize, FnsId)>) -> Seq<(usize, FnsId)> {
    match scope {
        LostScope::Components(mask) => mask_candidates(mask@, components),
        LostScope::AllExcept(mask) => except_candidates(mask@, components),
    }
}

/// The components all scopes cover, scope after scope.
pub open spec fn lost_candidates(scopes: Seq<LostScope>, components: Seq<(usize, FnsId)>) -> Seq<(usize, FnsId)>
    decreases scopes.len(),
{
    if scopes.len() == 0 {
        Seq::empty()
    } else {
        lost_candidates(scopes.drop_last(), components) + scope_candidates(scopes.last(), components)
    }
}

/// The removals lost component visibility asks for, entity by entity: every lost entity that
/// is not itself hidden for as long as it is not visible, and is still replicated, with the
/// components its scopes cover.
pub open spec fn lost_removals(
    lost: Seq<LostVisibility>,
    replicated: Map<u64, Vec<(usize, FnsId)>>,
) -> Seq<(Entity, Seq<(usize, FnsId)>)>
    decreases lost.len(),
{
    if lost.len() == 0 {
        Seq::empty()
    } else {
        let earlier = lost_removals(lost.drop_last(), replicated);
        let l = lost.last();
        let bits = l.entity.bits();
        if l.entity_lifetime != Some(ScopeLifetime::WhileVisible) && replicated.contains_key(bits) {
            earlier.push((l.entity, lost_candidates(l.scopes@, replicated[bits]@)))
        } else {
            earlier
        }
    }
}

/// The functions of the first rule entry of `component`, if it has one.
fn find_rule_fns(components: &[(usize, FnsId)], component: usize) -> (fns_id: Option<FnsId>)
    ensures
        fns_id == rule_fns(components@, component),
{
    let mut i: usize = 0;
    proof {
        assert(components@.skip(0) =~= components@);
    }
    while i < components.len()
        invariant
            i <= components@.len(),
            rule_fns(components@, component) == rule_fns(components@.skip(i as int), component),
        decreases components@.len() - i,
    {
        proof {
            assert(components@.skip(i as int)[0] == components@[i as int]);
            assert(components@.skip(i as int).drop_first() =~= components@.skip(i + 1));
        }
        if components[i].0 == component {
            return Some(components[i].1);
        }
        i = i + 1;
    }
    None
}

/// Appends the components a scope covers, with their rule's functions.
fn push_scope_candidates(out: &mut Vec<(usize, FnsId)>, scope: &LostScope, components: &[(usize, FnsId)])
    ensures
        final(out)@ == old(out)@ + scope_candidates(*scope, components@),
{
    match scope {
        LostScope::Components(mask) => {
            let mut i: usize = 0;
            proof {
                assert(old(out)@ + mask_candidates(mask@.take(0), components@) =~= old(out)@);
            }
            while i < mask.len()
                invariant
                    i <= mask@.len(),
                    out@ == old(out)@ + mask_candidates(mask@.take(i as int), components@),
                decreases mask@.len() - i,
            {
                proof {
                    assert(mask@.take(i + 1).drop_last() =~= mask@.take(i as int));
                    assert(mask@.take(i + 1).last() == mask@[i as int]);
                }
                match find_rule_fns(components, mask[i]) {
                    Some(fns_id) => {
                        out.push((mask[i], fns_id));
                        proof {
                            assert(out@ =~= old(out)@ + mask_candidates(mask@.take(i + 1), components@));
                        }
                    },
                    None => {},
                }
                i = i + 1;
            }
            proof {
                assert(mask@.take(mask@.len() as int) =~= mask@);
            }
        },
        LostScope::AllExcept(mask) => {
            let mut i: usize = 0;
            proof {
                assert(old(out)@ + except_candidates(mask@, components@.take(0)) =~= old(out)@);
            }
            while i < components.len()
                invariant
                    i <= components@.len(),
                    out@ == old(out)@ + except_candidates(mask@, components@.take(i as int)),
                decreases components@.len() - i,
            {
                proof {
                    assert(components@.take(i + 1).drop_last() =~= components@.take(i as int));
                    assert(components@.take(i + 1).last() == components@[i as int]);
                }
                if !is_listed(mask, components[i].0) {
                    out.push(components[i]);
                    proof {
                        assert(out@ =~= old(out)@ + except_candidates(mask@, components@.take(i + 1)));
                    }
                }
                i = i + 1;
            }
            proof {
                assert(components@.take(components@.len() as int) =~= components@);
            }
        },
    }
}

/// The components all scopes cover, scope after scope, with their rule's functions.
fn scopes_candidates(scopes: &Vec<LostScope>, components: &[(usize, FnsId)]) -> (candidates: Vec<(usize, FnsId)>)
    ensures
        candidates@ == lost_candidates(scopes@, components@),
{
    let mut candidates: Vec<(usize, FnsId)> = Vec::new();
    let mut i: usize = 0;
    proof {
        assert(scopes@.take(0) =~= Seq::<LostScope>::empty());
    }
    while i < scopes.len()
        invariant
            i <= scopes@.len(),
            candidates@ == lost_candidates(scopes@.take(i as int), components@),
        decreases scopes@.len() - i,
    {
        proof {
            assert(scopes@.take(i + 1).drop_last() =~= scopes@.take(i as int));
            assert(scopes@.take(i + 1).last() == scopes@[i as int]);
        }
        push_scope_candidates(&mut candidates, &scopes[i], components);
        i = i + 1;
    }
    proof {
        assert(scopes@.take(scopes@.len() as int) =~= scopes@);
    }
    candidates
}

/// Collects the removals of components a client lost sight of this tick, for as long as they
/// are not visible, and clears the client's lost visibility.
///
/// For each lost entity, in order, that is not itself hidden for as long as it is not visible
/// (despawn collection handled it) and is still replicated: its scopes cover the components in
/// their mask that a rule of the entity replicates, or the replicated components not in their
/// mask, each with the functions of its first rule entry in `replicated`. A removal is written
/// when the client knows the entity and has the component; then the client no longer has it.
/// An entity's removals are grouped, and an entity without a written removal is left out.
///
/// `replicated` holds, by entity bits, the components the rules of each replicated entity's
/// archetype replicate, with their functions.
pub fn collect_lost_components(
    client: &mut ClientReplicationState,
    replicated: &HashMap<u64, Vec<(usize, FnsId)>>,
) -> (written: Vec<(Entity, Vec<FnsId>)>)
    ensures
        ({
            let result = client_removals(
                lost_removals(old(client).lost@, replicated@),
                known_components(old(client).entities@),
                Set::empty(),
                Map::empty(),
            );
            &&& written_views(written@) == result.0
            &&& final(client).entities@.dom() == old(client).entities@.dom()
            &&& forall|b: u64|
                #[trigger] old(client).entities@.contains_key(b) ==> {
                    &&& final(client).entities@[b].components@ == result.1[b]
                    &&& final(client).entities@[b].server_tick == old(client).entities@[b].server_tick
                    &&& final(client).entities@[b].system_tick == old(client).entities@[b].system_tick
                    &&& final(client).entities@[b].remote_hidden == old(client).entities@[b].remote_hidden
                }
            &&& final(client).hidden@ == old(client).hidden@
            &&& final(client).hidden_components@ == old(client).hidden_components@
            &&& final(client).lost@.len() == 0
        }),
{
    let ghost all = client.lost@;
    let mut removals: Vec<(Entity, Vec<(usize, FnsId)>)> = Vec::new();
    let mut i: usize = 0;
    proof {
        assert(all.take(0) =~= Seq::<LostVisibility>::empty());
        assert(removal_views(removals@) =~= Seq::<(Entity, Seq<(usize, FnsId)>)>::empty());
    }
    while i < client.lost.len()
        invariant
            i <= client.lost@.len(),
            client.lost@ == all,
            all == old(client).lost@,
            client.entities@ == old(client).entities@,
            client.hidden@ == old(client).hidden@,
            client.hidden_components@ == old(client).hidden_components@,
            removal_views(removals@) == lost_removals(all.take(i as int), replicated@),
        decreases all.len() - i,
    {
        let lost = &client.lost[i];
        let bits = lost.entity.to_bits();
        proof {
            assert(all.take(i + 1).drop_last() =~= all.take(i as int));
            assert(all.take(i + 1).last() == all[i as int]);
        }
        if lost.entity_lifetime != Some(ScopeLifetime::WhileVisible) {
            match replicated.get(&bits) {
                Some(components) => {
                    let candidates = scopes_candidates(&lost.scopes, components.as_slice());
                    let ghost before = removals@;
                    removals.push((lost.entity, candidates));
                    proof {
                        assert(removal_views(removals@) =~= removal_views(before).push(
                            (lost.entity, candidates@),
                        ));
                    }
                },
                None => {},
            }
        }
        i = i + 1;
    }
    proof {
        assert(all.take(all.len() as int) =~= all);
    }
    let written = removals_for_client(client, removals.as_slice(), false);
    client.lost.clear();
    written
}


/// Once despawns are collected for a client, it knows none of the despawned entities, and
/// each despawn written is of an entity it knew and that was not hidden from it.
pub proof fn lemma_despawns_forget(despawned: Seq<Entity>, known: Set<u64>, hidden: Set<u64>)
    ensures
        forall|i: int|
            0 <= i < despawned.len() ==> !despawn_writes(despawned, known, hidden).1.contains(
                (#[trigger] despawned[i]).bits(),
            ),
        forall|k: int|
            0 <= k < despawn_writes(despawned, known, hidden).0.len() ==> {
                let bits = (#[trigger] despawn_writes(despawned, known, hidden).0[k]).bits();
                known.contains(bits) && !hidden.contains(bits)
            },
        despawn_writes(despawned, known, hidden).1.subset_of(known),
    decreases despawned.len(),
{
    if despawned.len() > 0 {
        let rest = despawned.drop_last();
        lemma_despawns_forget(rest, known, hidden);
        assert forall|i: int| 0 <= i < despawned.len() implies !despawn_writes(despawned, known, hidden).1.contains(
            (#[trigger] despawned[i]).bits(),
        ) by {
            if i < despawned.len() - 1 {
                assert(despawned[i] == rest[i]);
            }
        }
    }
}


/// Removing components for one entity keeps no visible removed component, and only removes.
pub proof fn lemma_removal_fns_drop(
    ids: Seq<(usize, FnsId)>,
    components: Set<usize>,
    entity_hidden: bool,
    hidden_components: Set<usize>,
)
    ensures
        removal_fns(ids, components, entity_hidden, hidden_components).1.subset_of(components),
        forall|j: int|
            0 <= j < ids.len() && !entity_hidden && !hidden_components.contains((#[trigger] ids[j]).0)
                ==> !removal_fns(ids, components, entity_hidden, hidden_components).1.contains(ids[j].0),
    decreases ids.len(),
{
    if ids.len() > 0 {
        let rest = ids.drop_last();
        lemma_removal_fns_drop(rest, components, entity_hidden, hidden_components);
        assert forall|j: int|
            0 <= j < ids.len() && !entity_hidden && !hidden_components.contains((#[trigger] ids[j]).0)
                implies !removal_fns(ids, components, entity_hidden, hidden_components).1.contains(ids[j].0) by {
            if j < ids.len() - 1 {
                assert(ids[j] == rest[j]);
            }
        }
    }
}

/// Once removals are collected for a client, it keeps no removed component of a known entity
/// that is not hidden from it, and each entity only loses components.
pub proof fn lemma_removals_forget(
    removals: Seq<(Entity, Seq<(usize, FnsId)>)>,
    components: Map<u64, Set<usize>>,
    hidden: Set<u64>,
    hidden_components: Map<u64, HashSet<usize>>,
)
    ensures
        client_removals(removals, components, hidden, hidden_components).1.dom() == components.dom(),
        forall|b: u64|
            #[trigger] components.contains_key(b) ==> client_removals(
                removals,
                components,
                hidden,
                hidden_components,
            ).1[b].subset_of(components[b]),
        forall|i: int, j: int|
            0 <= i < removals.len() && 0 <= j < (#[trigger] removals[i]).1.len() && components.contains_key(
                removals[i].0.bits(),
            ) && !hidden.contains(removals[i].0.bits()) && !hidden_for(
                hidden_components,
                removals[i].0.bits(),
            ).contains((#[trigger] removals[i].1[j]).0) ==> !client_removals(
                removals,
                components,
                hidden,
                hidden_components,
            ).1[removals[i].0.bits()].contains(removals[i].1[j].0),
    decreases removals.len(),
{
    if removals.len() > 0 {
        let rest = removals.drop_last();
        lemma_removals_forget(rest, components, hidden, hidden_components);
        let kept = client_removals(rest, components, hidden, hidden_components).1;
        let (entity, ids) = removals.last();
        let bits = entity.bits();
        let result = client_removals(removals, components, hidden, hidden_components).1;
        if kept.contains_key(bits) {
            lemma_removal_fns_drop(ids, kept[bits], hidden.contains(bits), hidden_for(hidden_components, bits));
            assert(result.dom() =~= components.dom());
        }
        assert forall|i: int, j: int|
            0 <= i < removals.len() && 0 <= j < (#[trigger] removals[i]).1.len() && components.contains_key(
                removals[i].0.bits(),
            ) && !hidden.contains(removals[i].0.bits()) && !hidden_for(
                hidden_components,
                removals[i].0.bits(),
            ).contains((#[trigger] removals[i].1[j]).0) implies !result[removals[i].0.bits()].contains(
            removals[i].1[j].0,
        ) by {
            if i < removals.len() - 1 {
                assert(removals[i] == rest[i]);
                assert(!kept[removals[i].0.bits()].contains(removals[i].1[j].0));
            } else {
                assert(ids[j] == removals[i].1[j]);
            }
        }
    }
}


/// A replicated component of an entity, as the change collection sees it: its index, how its
/// rule sends it, how long it is hidden from the client, if it is, and its change tick.
pub struct ComponentChange {
    /// The component's index.
    pub component: usize,
    /// How the rule that replicates it sends it.
    pub mode: ReplicationMode,
    /// How long the component is hidden from the client, if it is.
    pub hidden: Option<ScopeLifetime>,
    /// The tick at which the component last changed.
    pub last_changed: Tick,
}

/// What the client knows about an entity, if anything.
pub open spec fn entity_ticks_of(entities: Map<u64, EntityTicksState>, bits: u64) -> Option<EntityTicksState> {
    if entities.contains_key(bits) {
        Some(entities[bits])
    } else {
        None
    }
}

/// How a component is written for a client that knows `entity_ticks` of the entity.
pub open spec fn change_write(
    entity_ticks: Option<EntityTicksState>,
    change: ComponentChange,
    priority_due: bool,
    change_tick: Tick,
) -> ComponentWrite {
    component_write_spec(
        entity_ticks is Some,
        entity_ticks matches Some(t) && t.components@.contains(change.component),
        change.hidden,
        change.mode,
        priority_due,
        entity_ticks matches Some(t) && newer_than(
            tick_value(change.last_changed),
            tick_value(t.system_tick),
            tick_value(change_tick),
        ),
    )
}

/// The components, in order, that are written as `kind`.
pub open spec fn changes_written(
    changes: Seq<ComponentChange>,
    entity_ticks: Option<EntityTicksState>,
    priority_due: bool,
    change_tick: Tick,
    kind: ComponentWrite,
) -> Seq<usize>
    decreases changes.len(),
{
    if changes.len() == 0 {
        Seq::empty()
    } else {
        let earlier = changes_written(changes.drop_last(), entity_ticks, priority_due, change_tick, kind);
        if change_write(entity_ticks, changes.last(), priority_due, change_tick) == kind {
            earlier.push(changes.last().component)
        } else {
            earlier
        }
    }
}

/// What collecting the changes of an entity writes for a client.
pub struct EntityChanges {
    /// Components written as insertions, in order.
    pub insertions: Vec<usize>,
    /// Components written as mutations, in order.
    pub mutations: Vec<usize>,
    /// Whether the mutations go into the update message with the insertions.
    pub merge_mutations: bool,
    /// Whether the entity is written without components.
    pub write_empty: bool,
}

/// Collects the changes of an entity for a client: each component is written as
/// [`component_write`] decides from what the client knew of the entity before, then the
/// entity is finished as [`finish_entity`] does, with the inserted components as the changed
/// ones.
///
/// `priority_due` tells whether the entity's priority multiplied by the ticks since the
/// client's last update of it reaches 1, `has_removals` whether removals of its components
/// were written this tick, and `change_tick` the current system tick.
pub fn entity_changes(
    client: &mut ClientReplicationState,
    entity: Entity,
    changes: &[ComponentChange],
    priority_due: bool,
    has_removals: bool,
    change_tick: Tick,
    server_tick: RepliconTick,
) -> (result: EntityChanges)
    ensures
        ({
            let entity_ticks = entity_ticks_of(old(client).entities@, entity.bits());
            let insertions = changes_written(
                changes@,
                entity_ticks,
                priority_due,
                change_tick,
                ComponentWrite::Insertion,
            );
            let mutations = changes_written(
                changes@,
                entity_ticks,
                priority_due,
                change_tick,
                ComponentWrite::Mutation,
            );
            &&& result.insertions@ == insertions
            &&& result.mutations@ == mutations
            &&& entity_finished(
                *old(client),
                *final(client),
                entity,
                insertions.len() > 0,
                has_removals,
                mutations.len() > 0,
                insertions,
                change_tick,
                server_tick,
                (result.merge_mutations, result.write_empty),
            )
        }),
{
    let bits = entity.to_bits();
    let ghost entity_ticks = entity_ticks_of(client.entities@, bits);
    let mut insertions: Vec<usize> = Vec::new();
    let mut mutations: Vec<usize> = Vec::new();
    let mut i: usize = 0;
    {
        let known = client.entities.get(&bits);
        proof {
            assert(known matches Some(t) ==> entity_ticks == Some(*t));
            assert(known is None ==> entity_ticks is None);
            assert(changes@.take(0) =~= Seq::<ComponentChange>::empty());
        }
        while i < changes.len()
            invariant
                i <= changes@.len(),
                known matches Some(t) ==> entity_ticks == Some(*t),
                known is None ==> entity_ticks is None,
                insertions@ == changes_written(
                    changes@.take(i as int),
                    entity_ticks,
                    priority_due,
                    change_tick,
                    ComponentWrite::Insertion,
                ),
                mutations@ == changes_written(
                    changes@.take(i as int),
                    entity_ticks,
                    priority_due,
                    change_tick,
                    ComponentWrite::Mutation,
                ),
            decreases changes@.len() - i,
        {
            let change = &changes[i];
            let write = component_write(
                known,
                change.component,
                change.hidden,
                change.mode,
                priority_due,
                change.last_changed,
                change_tick,
            );
            proof {
                assert(changes@.take(i + 1).drop_last() =~= changes@.take(i as int));
                assert(changes@.take(i + 1).last() == changes@[i as int]);
                assert(write == change_write(entity_ticks, changes@[i as int], priority_due, change_tick));
            }
            match write {
                ComponentWrite::Insertion => insertions.push(change.component),
                ComponentWrite::Mutation => mutations.push(change.component),
                ComponentWrite::Skip => {},
            }
            i = i + 1;
        }
    }
    proof {
        assert(changes@.take(changes@.len() as int) =~= changes@);
    }
    let (merge_mutations, write_empty) = finish_entity(
        client,
        entity,
        insertions.len() > 0,
        has_removals,
        mutations.len() > 0,
        insertions.as_slice(),
        change_tick,
        server_tick,
    );
    EntityChanges { insertions, mutations, merge_mutations, write_empty }
}


/// The position of the first entry of `entity` in a scene, if it has one.
pub open spec fn scene_position(scene: Seq<(Entity, Seq<usize>)>, entity: Entity) -> Option<int> {
    if exists|i: int| 0 <= i < scene.len() && (#[trigger] scene[i]).0 == entity {
        Some(choose|i: int| 0 <= i < scene.len() && (#[trigger] scene[i]).0 == entity && forall|j: int| 0 <= j < i ==> scene[j].0 != entity)
    } else {
        None
    }
}

/// A scene after adding one entry: the components go after those of the entity's first entry
/// when it has one, else the entry goes last.
pub open spec fn scene_with(scene: Seq<(Entity, Seq<usize>)>, entry: (Entity, Seq<usize>)) -> Seq<(Entity, Seq<usize>)> {
    match scene_position(scene, entry.0) {
        Some(i) => scene.update(i, (entry.0, scene[i].1 + entry.1)),
        None => scene.push(entry),
    }
}

/// A scene after adding entries one after the other.
pub open spec fn scene_with_all(scene: Seq<(Entity, Seq<usize>)>, entries: Seq<(Entity, Seq<usize>)>) -> Seq<
    (Entity, Seq<usize>),
>
    decreases entries.len(),
{
    if entries.len() == 0 {
        scene
    } else {
        scene_with(scene_with_all(scene, entries.drop_last()), entries.last())
    }
}

/// Adds an entry to a scene: its components go after those of the entity's first entry when
/// it has one, else the entry goes last.
fn add_scene_entry(scene: &mut Vec<(Entity, Vec<usize>)>, entity: Entity, added: Vec<usize>)
    ensures
        entry_views(final(scene)@) == scene_with(entry_views(old(scene)@), (entity, added@)),
{
    let ghost views = entry_views(scene@);
    let mut components = added;
    let mut i: usize = 0;
    while i < scene.len()
        invariant
            i <= scene@.len(),
            views == entry_views(scene@),
            scene@ == old(scene)@,
            components@ == added@,
            forall|j: int| 0 <= j < i ==> (#[trigger] scene@[j]).0 != entity,
        decreases scene@.len() - i,
    {
        if scene[i].0 == entity {
            proof {
                assert(views[i as int].0 == entity);
                assert(forall|j: int| 0 <= j < i ==> views[j].0 != entity);
                let p = scene_position(views, entity);
                assert(p is Some);
                let k = p->Some_0;
                assert(k == i) by {
                    if k < i {
                        assert(views[k].0 != entity);
                    } else if k > i {
                        assert(views[i as int].0 == entity);
                    }
                }
            }
            let ghost start = scene@;
            let (listed_entity, mut listed) = scene.remove(i);
            let ghost old_listed = listed@;
            assert(old_listed == views[i as int].1);
            listed.append(&mut components);
            assert(listed@ == old_listed + added@);
            scene.insert(i, (listed_entity, listed));
            proof {
                assert(scene@ =~= start.update(i as int, scene@[i as int]));
                assert(scene@[i as int].1@ == views[i as int].1 + added@);
                assert(entry_views(scene@) =~= views.update(i as int, (entity, views[i as int].1 + added@)));
                assert(scene_position(views, entity) == Some(i as int));
                assert(entry_views(scene@) == scene_with(views, (entity, added@)));
            }
            return;
        }
        i = i + 1;
    }
    proof {
        assert forall|j: int| 0 <= j < views.len() implies (#[trigger] views[j]).0 != entity by {
            assert(scene@[j].0 != entity);
        }
    }
    let ghost start = scene@;
    scene.push((entity, components));
    proof {
        assert(scene@ =~= start.push((entity, components)));
        assert(entry_views(scene@) =~= views.push((entity, added@)));
    }
}

/// Fills a scene with the replicated entities and their components.
///
/// The entries of [`scene_components`] are added one after the other: an entity the scene
/// already holds keeps its components, followed by the replicated ones; another entity goes
/// after the scene's entries, also when it replicates no component.
pub fn replicate_into(
    scene: &mut Vec<(Entity, Vec<usize>)>,
    archetypes: &[(Vec<Entity>, HashSet<usize>)],
    marker_id: usize,
    rules: &ReplicationRules,
)
    ensures
        entry_views(final(scene)@) == scene_with_all(
            entry_views(old(scene)@),
            scene_entries(archetype_views(archetypes@), marker_id, rules.components_spec()),
        ),
{
    let entries = scene_components(archetypes, marker_id, rules);
    let ghost all = entry_views(entries@);
    let ghost start = entry_views(scene@);
    let mut rest = entries;
    let mut i: usize = 0;
    let len = rest.len();
    proof {
        assert(all.take(0) =~= Seq::<(Entity, Seq<usize>)>::empty());
        assert(entry_views(rest@) =~= all.skip(0));
    }
    while i < len
        invariant
            i <= len,
            len == all.len(),
            entry_views(rest@) == all.skip(i as int),
            rest@.len() == len - i,
            entry_views(scene@) == scene_with_all(start, all.take(i as int)),
        decreases len - i,
    {
        let ghost before = rest@;
        let entry = rest.remove(0);
        proof {
            assert(entry_views(rest@) =~= entry_views(before).drop_first());
            assert(all.skip(i as int).drop_first() =~= all.skip(i + 1));
            assert(all.take(i + 1).drop_last() =~= all.take(i as int));
            assert(all.take(i + 1).last() == all[i as int]);
            assert(entry_views(before)[0] == (entry.0, entry.1@));
            assert(all.skip(i as int)[0] == all[i as int]);
        }
        let (entity, components) = entry;
        add_scene_entry(scene, entity, components);
        i = i + 1;
    }
    proof {
        assert(all.take(len as int) =~= all);
    }
}


/// Hidden markers for lost visibility go only to entities the client knows and does not yet
/// hold marked hidden, at most once per entity, and every entity the client still knows
/// afterwards is marked hidden exactly when it was before or a marker was written for it.
/// So no second marker is written for an entity until its mark is cleared, which only
/// resuming its replication does (see [`entity_finished`]).
pub proof fn lemma_hidden_marker_once(
    lost: Seq<(Entity, Option<ScopeLifetime>)>,
    entities: Map<u64, EntityTicksState>,
)
    ensures
        lost_writes(lost, entities).2.dom().subset_of(entities.dom()),
        forall|b: u64|
            #[trigger] lost_writes(lost, entities).2.contains_key(b) ==> lost_writes(lost, entities).2[b].remote_hidden
                == (entities[b].remote_hidden || entity_bits_set(lost_writes(lost, entities).1).contains(b)),
        forall|k: int|
            0 <= k < lost_writes(lost, entities).1.len() ==> {
                let bits = (#[trigger] lost_writes(lost, entities).1[k]).bits();
                entities.contains_key(bits) && !entities[bits].remote_hidden
            },
        forall|j: int, k: int|
            0 <= j < k < lost_writes(lost, entities).1.len() ==> (#[trigger] lost_writes(lost, entities).1[j]).bits()
                != (#[trigger] lost_writes(lost, entities).1[k]).bits(),
    decreases lost.len(),
{
    if lost.len() > 0 {
        let rest = lost.drop_last();
        lemma_hidden_marker_once(rest, entities);
        let (despawns, hidden, known) = lost_writes(rest, entities);
        let (entity, lifetime) = lost.last();
        let bits = entity.bits();
        match lifetime {
            None => {},
            Some(ScopeLifetime::WhileVisible) => {},
            Some(_) => {
                if known.contains_key(bits) && !known[bits].remote_hidden {
                    let marked = hidden.push(entity);
                    assert(!entity_bits_set(hidden).contains(bits));
                    assert(entity_bits_set(marked) =~= entity_bits_set(hidden).insert(bits)) by {
                        assert forall|b: u64| #[trigger] entity_bits_set(marked).contains(b) implies entity_bits_set(
                            hidden,
                        ).insert(bits).contains(b) by {
                            let i = choose|i: int| 0 <= i < marked.len() && (#[trigger] marked[i]).bits() == b;
                            if i < hidden.len() {
                                assert(hidden[i].bits() == b);
                            }
                        }
                        assert forall|b: u64| #[trigger] entity_bits_set(hidden).insert(bits).contains(b)
                            implies entity_bits_set(marked).contains(b) by {
                            if b == bits {
                                assert(marked[hidden.len() as int].bits() == b);
                            } else {
                                let i = choose|i: int| 0 <= i < hidden.len() && (#[trigger] hidden[i]).bits() == b;
                                assert(marked[i].bits() == b);
                            }
                        }
                    }
                    assert forall|j: int, k: int| 0 <= j < k < marked.len() implies (#[trigger] marked[j]).bits()
                        != (#[trigger] marked[k]).bits() by {
                        if k == hidden.len() {
                            assert(marked[j] == hidden[j]);
                            assert(entity_bits_set(hidden).contains(hidden[j].bits()));
                        } else {
                            assert(marked[j] == hidden[j] && marked[k] == hidden[k]);
                        }
                    }
                    assert forall|k: int| 0 <= k < marked.len() implies {
                        let b = (#[trigger] marked[k]).bits();
                        entities.contains_key(b) && !entities[b].remote_hidden
                    } by {
                        if k < hidden.len() {
                            assert(marked[k] == hidden[k]);
                        }
                    }
                }
            },
        }
    }
}


/// What a component write can be: an insertion only for a component the client lacks that is
/// visible, or always present on an entity new to the client, so a hidden component is never
/// inserted for a client that knows the entity; a mutation only for a visible component the
/// client has, whose rule sends changes, that changed and whose entity's priority is due;
/// and nothing at all while the component is hidden for as long as it is not visible.
pub proof fn lemma_component_write_cases(
    entity_ticks: bool,
    has_component: bool,
    hidden: Option<ScopeLifetime>,
    mode: ReplicationMode,
    priority_due: bool,
    changed: bool,
)
    ensures
        component_write_spec(entity_ticks, has_component, hidden, mode, priority_due, changed)
            == ComponentWrite::Insertion ==> !(entity_ticks && has_component) && (hidden is None || (hidden
            == Some(ScopeLifetime::AlwaysPresent) && !entity_ticks)),
        hidden is Some && entity_ticks ==> component_write_spec(
            entity_ticks,
            has_component,
            hidden,
            mode,
            priority_due,
            changed,
        ) != ComponentWrite::Insertion,
        component_write_spec(entity_ticks, has_component, hidden, mode, priority_due, changed)
            == ComponentWrite::Mutation ==> entity_ticks && has_component && hidden is None && mode
            == ReplicationMode::OnChange && priority_due && changed,
        hidden == Some(ScopeLifetime::WhileVisible) ==> component_write_spec(
            entity_ticks,
            has_component,
            hidden,
            mode,
            priority_due,
            changed,
        ) == ComponentWrite::Skip,
        hidden is None && !(entity_ticks && has_component) ==> component_write_spec(
            entity_ticks,
            has_component,
            hidden,
            mode,
            priority_due,
            changed,
        ) == ComponentWrite::Insertion,
        hidden is None && entity_ticks && has_component && mode == ReplicationMode::OnChange && priority_due
            && changed ==> component_write_spec(
            entity_ticks,
            has_component,
            hidden,
            mode,
            priority_due,
            changed,
        ) == ComponentWrite::Mutation,
{
}

/// Despawns for lost visibility go only to entities the client knew, each at most once, and
/// the client no longer knows them afterwards; the client only ever forgets entities.
pub proof fn lemma_lost_despawns_known(
    lost: Seq<(Entity, Option<ScopeLifetime>)>,
    entities: Map<u64, EntityTicksState>,
)
    ensures
        lost_writes(lost, entities).2.dom().subset_of(entities.dom()),
        forall|k: int|
            0 <= k < lost_writes(lost, entities).0.len() ==> {
                let bits = (#[trigger] lost_writes(lost, entities).0[k]).bits();
                entities.contains_key(bits) && !lost_writes(lost, entities).2.contains_key(bits)
            },
        forall|j: int, k: int|
            0 <= j < k < lost_writes(lost, entities).0.len() ==> (#[trigger] lost_writes(lost, entities).0[j]).bits()
                != (#[trigger] lost_writes(lost, entities).0[k]).bits(),
    decreases lost.len(),
{
    if lost.len() > 0 {
        let rest = lost.drop_last();
        lemma_lost_despawns_known(rest, entities);
        let (despawns, hidden, known) = lost_writes(rest, entities);
        let (entity, lifetime) = lost.last();
        let bits = entity.bits();
        let result = lost_writes(lost, entities);
        assert(result.2.dom().subset_of(known.dom()));
        assert forall|k: int| 0 <= k < despawns.len() implies !result.2.contains_key(
            (#[trigger] despawns[k]).bits(),
        ) by {}
        if lifetime == Some(ScopeLifetime::WhileVisible) && known.contains_key(bits) {
            let written = despawns.push(entity);
            assert(result.0 == written);
            assert forall|j: int, k: int| 0 <= j < k < written.len() implies (#[trigger] written[j]).bits()
                != (#[trigger] written[k]).bits() by {
                if k == despawns.len() {
                    assert(written[j] == despawns[j]);
                    assert(!known.contains_key(despawns[j].bits()));
                } else {
                    assert(written[j] == despawns[j] && written[k] == despawns[k]);
                }
            }
            assert forall|k: int| 0 <= k < written.len() implies {
                let b = (#[trigger] written[k]).bits();
                entities.contains_key(b) && !result.2.contains_key(b)
            } by {
                if k < despawns.len() {
                    assert(written[k] == despawns[k]);
                }
            }
        }
    }
}

/// Finishing an entity that is not hidden for as long as it is not visible, when it has
/// insertions or removals, or starts replication for the client: its mutations go into the
/// update message with them exactly when it has some, and the client then knows the entity
/// with the given ticks. While it is hidden for as long as it is not visible, nothing is
/// written and the client's view of it does not change.
pub proof fn lemma_finish_entity_updates(
    before: ClientReplicationState,
    after: ClientReplicationState,
    entity: Entity,
    has_insertions: bool,
    has_removals: bool,
    has_mutations: bool,
    changed: Seq<usize>,
    system_tick: Tick,
    server_tick: RepliconTick,
    f: (bool, bool),
)
    requires
        entity_finished(
            before,
            after,
            entity,
            has_insertions,
            has_removals,
            has_mutations,
            changed,
            system_tick,
            server_tick,
            f,
        ),
    ensures
        hidden_lifetime(before.hidden@, entity.bits()) != Some(ScopeLifetime::WhileVisible) && (has_insertions
            || has_removals || (!before.entities@.contains_key(entity.bits()) && hidden_lifetime(
            before.hidden@,
            entity.bits(),
        ) is None)) ==> {
            &&& f.0 == has_mutations
            &&& after.entities@.contains_key(entity.bits())
            &&& after.entities@[entity.bits()].server_tick == server_tick
            &&& after.entities@[entity.bits()].system_tick == system_tick
            &&& changed.to_set().subset_of(after.entities@[entity.bits()].components@)
        },
        hidden_lifetime(before.hidden@, entity.bits()) == Some(ScopeLifetime::WhileVisible) ==> f == (false, false)
            && after.entities@ == before.entities@,
        !has_mutations ==> !f.0,
        f.1 ==> !has_insertions && !has_mutations,
{
}


/// Removals for one entity: nothing is written or removed while the entity is hidden; else
/// each written function belongs to a removed component the client had and that is not
/// hidden, and the client keeps exactly the components it had that were not removed or are
/// hidden.
pub proof fn lemma_removal_fns_exact(
    ids: Seq<(usize, FnsId)>,
    components: Set<usize>,
    entity_hidden: bool,
    hidden_components: Set<usize>,
)
    ensures
        entity_hidden ==> removal_fns(ids, components, entity_hidden, hidden_components).0.len() == 0
            && removal_fns(ids, components, entity_hidden, hidden_components).1 == components,
        forall|c: usize|
            #[trigger] removal_fns(ids, components, entity_hidden, hidden_components).1.contains(c) <==> (
            components.contains(c) && (entity_hidden || hidden_components.contains(c) || forall|i: int|
                0 <= i < ids.len() ==> (#[trigger] ids[i]).0 != c)),
        forall|k: int|
            0 <= k < removal_fns(ids, components, entity_hidden, hidden_components).0.len() ==> exists|i: int|
                0 <= i < ids.len() && (#[trigger] ids[i]).1 == (#[trigger] removal_fns(
                    ids,
                    components,
                    entity_hidden,
                    hidden_components,
                ).0[k]) && components.contains(ids[i].0) && !entity_hidden && !hidden_components.contains(
                    ids[i].0,
                ),
    decreases ids.len(),
{
    if ids.len() > 0 {
        let rest = ids.drop_last();
        lemma_removal_fns_exact(rest, components, entity_hidden, hidden_components);
        let (written, left) = removal_fns(rest, components, entity_hidden, hidden_components);
        let (component, fns_id) = ids.last();
        let result = removal_fns(ids, components, entity_hidden, hidden_components);
        assert forall|c: usize| #[trigger] result.1.contains(c) <==> (components.contains(c) && (entity_hidden
            || hidden_components.contains(c) || forall|i: int| 0 <= i < ids.len() ==> (#[trigger] ids[i]).0 != c)) by {
            if !(entity_hidden || hidden_components.contains(c)) {
                if forall|i: int| 0 <= i < ids.len() ==> (#[trigger] ids[i]).0 != c {
                    assert forall|i: int| 0 <= i < rest.len() implies (#[trigger] rest[i]).0 != c by {
                        assert(rest[i] == ids[i]);
                    }
                    assert(ids[ids.len() - 1].0 != c);
                } else {
                    let i = choose|i: int| 0 <= i < ids.len() && (#[trigger] ids[i]).0 == c;
                    if i < rest.len() {
                        assert(rest[i] == ids[i]);
                    }
                }
            }
        }
        assert forall|k: int| 0 <= k < result.0.len() implies exists|i: int|
            0 <= i < ids.len() && (#[trigger] ids[i]).1 == #[trigger] result.0[k] && components.contains(ids[i].0)
                && !entity_hidden && !hidden_components.contains(ids[i].0) by {
            if k < written.len() {
                let i = choose|i: int|
                    0 <= i < rest.len() && (#[trigger] rest[i]).1 == written[k] && components.contains(rest[i].0)
                        && !entity_hidden && !hidden_components.contains(rest[i].0);
                assert(ids[i] == rest[i]);
            } else {
                assert(ids[ids.len() - 1] == (component, fns_id));
            }
        }
    }
}

/// Every despawned entity the client knew and that is not hidden from it is written as a
/// despawn, at its first occurrence.
pub proof fn lemma_despawns_complete(despawned: Seq<Entity>, known: Set<u64>, hidden: Set<u64>)
    ensures
        forall|i: int|
            0 <= i < despawned.len() && known.contains((#[trigger] despawned[i]).bits()) && !hidden.contains(
                despawned[i].bits(),
            ) && (forall|j: int| 0 <= j < i ==> despawned[j].bits() != despawned[i].bits()) ==> despawn_writes(
                despawned,
                known,
                hidden,
            ).0.contains(despawned[i]),
    decreases despawned.len(),
{
    if despawned.len() > 0 {
        let rest = despawned.drop_last();
        lemma_despawns_complete(rest, known, hidden);
        lemma_despawn_writes_left(rest, known, hidden);
        let (writes, left) = despawn_writes(rest, known, hidden);
        assert forall|i: int|
            0 <= i < despawned.len() && known.contains((#[trigger] despawned[i]).bits()) && !hidden.contains(
                despawned[i].bits(),
            ) && (forall|j: int| 0 <= j < i ==> despawned[j].bits() != despawned[i].bits()) implies despawn_writes(
            despawned,
            known,
            hidden,
        ).0.contains(despawned[i]) by {
            if i < rest.len() {
                assert(rest[i] == despawned[i]);
                assert(forall|j: int| 0 <= j < i ==> rest[j].bits() == despawned[j].bits());
                let k = choose|k: int| 0 <= k < writes.len() && writes[k] == despawned[i];
                assert(despawn_writes(despawned, known, hidden).0[k] == despawned[i]);
            } else {
                let b = despawned[i].bits();
                assert forall|j: int| 0 <= j < rest.len() implies (#[trigger] rest[j]).bits() != b by {
                    assert(rest[j] == despawned[j]);
                }
                assert(left.contains(b));
                let out = despawn_writes(despawned, known, hidden).0;
                assert(out[out.len() - 1] == despawned[i]);
            }
        }
    }
}

/// The entities the client still knows after despawns are those it knew that were not among
/// the despawned ones.
pub proof fn lemma_despawn_writes_left(despawned: Seq<Entity>, known: Set<u64>, hidden: Set<u64>)
    ensures
        forall|b: u64|
            #[trigger] despawn_writes(despawned, known, hidden).1.contains(b) <==> (known.contains(b) && forall|j: int|
                0 <= j < despawned.len() ==> (#[trigger] despawned[j]).bits() != b),
    decreases despawned.len(),
{
    if despawned.len() > 0 {
        let rest = despawned.drop_last();
        lemma_despawn_writes_left(rest, known, hidden);
        let left = despawn_writes(rest, known, hidden).1;
        let last_bits = despawned.last().bits();
        let result = despawn_writes(despawned, known, hidden).1;
        assert(result == left.remove(last_bits));
        assert forall|b: u64| #[trigger] result.contains(b) <==> (known.contains(b) && forall|j: int|
            0 <= j < despawned.len() ==> (#[trigger] despawned[j]).bits() != b) by {
            if forall|j: int| 0 <= j < despawned.len() ==> (#[trigger] despawned[j]).bits() != b {
                assert forall|j: int| 0 <= j < rest.len() implies (#[trigger] rest[j]).bits() != b by {
                    assert(rest[j] == despawned[j]);
                }
                assert(despawned[despawned.len() - 1].bits() != b);
            } else {
                let j = choose|j: int| 0 <= j < despawned.len() && (#[trigger] despawned[j]).bits() == b;
                if j < rest.len() {
                    assert(rest[j] == despawned[j]);
                    assert(!left.contains(b));
                } else {
                    assert(b == last_bits);
                }
            }
        }
    }
}


/// Appending components that are not listed yet lists exactly the listed ones and those
/// appended.
pub proof fn lemma_append_new_contains(listed: Seq<usize>, components: Seq<(usize, FnsId)>)
    ensures
        forall|c: usize|
            #[trigger] append_new(listed, components).contains(c) <==> (listed.contains(c) || exists|i: int|
                0 <= i < components.len() && (#[trigger] components[i]).0 == c),
    decreases components.len(),
{
    if components.len() > 0 {
        let rest = components.drop_last();
        lemma_append_new_contains(listed, rest);
        let earlier = append_new(listed, rest);
        let last = components.last().0;
        assert forall|c: usize| #[trigger] append_new(listed, components).contains(c) <==> (listed.contains(c)
            || exists|i: int| 0 <= i < components.len() && (#[trigger] components[i]).0 == c) by {
            if append_new(listed, components).contains(c) {
                if !earlier.contains(c) {
                    assert(c == last);
                    assert(components[components.len() - 1].0 == c);
                } else if !listed.contains(c) {
                    let i = choose|i: int| 0 <= i < rest.len() && (#[trigger] rest[i]).0 == c;
                    assert(components[i] == rest[i]);
                }
            }
            if exists|i: int| 0 <= i < components.len() && (#[trigger] components[i]).0 == c {
                let i = choose|i: int| 0 <= i < components.len() && (#[trigger] components[i]).0 == c;
                if i < rest.len() {
                    assert(rest[i] == components[i]);
                    assert(earlier.contains(c));
                } else {
                    assert(c == last);
                }
                if !earlier.contains(c) {
                    assert(append_new(listed, components) == earlier.push(c));
                    assert(append_new(listed, components)[earlier.len() as int] == c);
                }
            }
            if listed.contains(c) {
                assert(earlier.contains(c));
                if !earlier.contains(last) {
                    let k = choose|k: int| 0 <= k < earlier.len() && earlier[k] == c;
                    assert(append_new(listed, components)[k] == c);
                }
            }
        }
    }
}

/// A scene entity lists exactly the components of the rules its archetype matches.
pub proof fn lemma_matching_components_contains(rules: Seq<Seq<(usize, FnsId)>>, archetype: Set<usize>)
    ensures
        forall|c: usize|
            #[trigger] matching_components(rules, archetype).contains(c) <==> exists|r: int, i: int|
                0 <= r < rules.len() && all_present(rules[r], archetype) && 0 <= i < rules[r].len() && (
                #[trigger] rules[r][i]).0 == c,
    decreases rules.len(),
{
    if rules.len() > 0 {
        let rest = rules.drop_last();
        lemma_matching_components_contains(rest, archetype);
        let earlier = matching_components(rest, archetype);
        let last = rules.last();
        lemma_append_new_contains(earlier, last);
        assert forall|c: usize| #[trigger] matching_components(rules, archetype).contains(c) <==> exists|
            r: int,
            i: int,
        |
            0 <= r < rules.len() && all_present(rules[r], archetype) && 0 <= i < rules[r].len() && (
            #[trigger] rules[r][i]).0 == c by {
            if matching_components(rules, archetype).contains(c) {
                if earlier.contains(c) {
                    let (r, i) = choose|r: int, i: int|
                        0 <= r < rest.len() && all_present(rest[r], archetype) && 0 <= i < rest[r].len() && (
                        #[trigger] rest[r][i]).0 == c;
                    assert(rules[r] == rest[r]);
                    assert(rules[r][i].0 == c);
                } else {
                    let i = choose|i: int| 0 <= i < last.len() && (#[trigger] last[i]).0 == c;
                    assert(rules[rules.len() - 1][i].0 == c);
                }
            }
            if exists|r: int, i: int|
                0 <= r < rules.len() && all_present(rules[r], archetype) && 0 <= i < rules[r].len() && (
                #[trigger] rules[r][i]).0 == c {
                let (r, i) = choose|r: int, i: int|
                    0 <= r < rules.len() && all_present(rules[r], archetype) && 0 <= i < rules[r].len() && (
                    #[trigger] rules[r][i]).0 == c;
                if r < rest.len() {
                    assert(rest[r] == rules[r]);
                    assert(rest[r][i].0 == c);
                    assert(earlier.contains(c));
                } else {
                    assert(last[i].0 == c);
                }
            }
        }
    }
}

/// A lost scope covers only replicated components, each with the functions of a rule entry:
/// those in its mask, or those outside it, as the scope says.
pub proof fn lemma_scope_candidates(scope: LostScope, components: Seq<(usize, FnsId)>)
    ensures
        forall|k: int|
            0 <= k < scope_candidates(scope, components).len() ==> {
                let (c, fns_id) = #[trigger] scope_candidates(scope, components)[k];
                &&& exists|i: int| 0 <= i < components.len() && (#[trigger] components[i]) == (c, fns_id)
                &&& match scope {
                    LostScope::Components(mask) => mask@.contains(c),
                    LostScope::AllExcept(mask) => !mask@.contains(c),
                }
            },
{
    match scope {
        LostScope::Components(mask) => lemma_mask_candidates(mask@, components),
        LostScope::AllExcept(mask) => lemma_except_candidates(mask@, components),
    }
}

/// The components a mask covers are in the mask, each with the functions of its first rule
/// entry.
pub proof fn lemma_mask_candidates(mask: Seq<usize>, components: Seq<(usize, FnsId)>)
    ensures
        forall|k: int|
            0 <= k < mask_candidates(mask, components).len() ==> {
                let (c, fns_id) = #[trigger] mask_candidates(mask, components)[k];
                &&& mask.contains(c)
                &&& exists|i: int| 0 <= i < components.len() && (#[trigger] components[i]) == (c, fns_id)
            },
    decreases mask.len(),
{
    if mask.len() > 0 {
        let rest = mask.drop_last();
        lemma_mask_candidates(rest, components);
        lemma_rule_fns(components, mask.last());
        let earlier = mask_candidates(rest, components);
        assert forall|k: int| 0 <= k < mask_candidates(mask, components).len() implies {
            let (c, fns_id) = #[trigger] mask_candidates(mask, components)[k];
            &&& mask.contains(c)
            &&& exists|i: int| 0 <= i < components.len() && (#[trigger] components[i]) == (c, fns_id)
        } by {
            if k < earlier.len() {
                assert(mask_candidates(mask, components)[k] == earlier[k]);
                let c = earlier[k].0;
                let j = choose|j: int| 0 <= j < rest.len() && rest[j] == c;
                assert(mask[j] == c);
            } else {
                assert(mask[mask.len() - 1] == mask.last());
            }
        }
    }
}

/// The functions found for a component are those of a rule entry for it.
pub proof fn lemma_rule_fns(components: Seq<(usize, FnsId)>, component: usize)
    ensures
        rule_fns(components, component) matches Some(fns_id) ==> exists|i: int|
            0 <= i < components.len() && (#[trigger] components[i]) == (component, fns_id),
        rule_fns(components, component) is None ==> forall|i: int|
            0 <= i < components.len() ==> (#[trigger] components[i]).0 != component,
    decreases components.len(),
{
    if components.len() > 0 && components[0].0 != component {
        let rest = components.drop_first();
        lemma_rule_fns(rest, component);
        if rule_fns(components, component) is Some {
            let i = choose|i: int| 0 <= i < rest.len() && (#[trigger] rest[i]).0 == component && rest[i]
                == (component, rule_fns(components, component)->Some_0);
            assert(components[i + 1] == rest[i]);
        } else {
            assert forall|i: int| 0 <= i < components.len() implies (#[trigger] components[i]).0 != component by {
                if i > 0 {
                    assert(components[i] == rest[i - 1]);
                }
            }
        }
    }
}

/// The components outside a mask are replicated components not in the mask.
pub proof fn lemma_except_candidates(mask: Seq<usize>, components: Seq<(usize, FnsId)>)
    ensures
        forall|k: int|
            0 <= k < except_candidates(mask, components).len() ==> {
                let (c, fns_id) = #[trigger] except_candidates(mask, components)[k];
                &&& !mask.contains(c)
                &&& exists|i: int| 0 <= i < components.len() && (#[trigger] components[i]) == (c, fns_id)
            },
    decreases components.len(),
{
    if components.len() > 0 {
        let rest = components.drop_last();
        lemma_except_candidates(mask, rest);
        let earlier = except_candidates(mask, rest);
        assert forall|k: int| 0 <= k < except_candidates(mask, components).len() implies {
            let (c, fns_id) = #[trigger] except_candidates(mask, components)[k];
            &&& !mask.contains(c)
            &&& exists|i: int| 0 <= i < components.len() && (#[trigger] components[i]) == (c, fns_id)
        } by {
            if k < earlier.len() {
                assert(except_candidates(mask, components)[k] == earlier[k]);
                let i = choose|i: int| 0 <= i < rest.len() && (#[trigger] rest[i]) == earlier[k];
                assert(components[i] == rest[i]);
            } else {
                assert(components[components.len() - 1] == components.last());
            }
        }
    }
}


/// Finishing an entity without insertions or removals leaves a client that knows it, or from
/// which it is hidden once seen and that does not know it, as it was, with nothing to merge
/// or write; an entity held marked hidden and visible again resumes: the mark is cleared and
/// it is written empty unless it has insertions or mutations; and finishing never marks an
/// entity hidden.
pub proof fn lemma_finish_entity_quiet(
    before: ClientReplicationState,
    after: ClientReplicationState,
    entity: Entity,
    has_insertions: bool,
    has_removals: bool,
    has_mutations: bool,
    changed: Seq<usize>,
    system_tick: Tick,
    server_tick: RepliconTick,
    f: (bool, bool),
)
    requires
        entity_finished(
            before,
            after,
            entity,
            has_insertions,
            has_removals,
            has_mutations,
            changed,
            system_tick,
            server_tick,
            f,
        ),
    ensures
        ({
            let bits = entity.bits();
            let hidden = hidden_lifetime(before.hidden@, bits);
            let known = before.entities@.contains_key(bits);
            &&& !has_insertions && !has_removals && ((known && !before.entities@[bits].remote_hidden) || (!known
                && hidden == Some(ScopeLifetime::AfterFirstVisibility))) ==> f == (false, false)
                && after.entities@ == before.entities@
            &&& known && before.entities@[bits].remote_hidden && hidden is None ==> {
                &&& !after.entities@[bits].remote_hidden
                &&& f.1 == (!has_insertions && !has_mutations)
                &&& f.0 == has_mutations
            }
            &&& forall|b: u64|
                #[trigger] after.entities@.contains_key(b) && after.entities@[b].remote_hidden
                    ==> before.entities@.contains_key(b) && before.entities@[b].remote_hidden
        }),
{
}


/// The components written as a kind are exactly those of the changes written as that kind.
pub proof fn lemma_changes_written(
    changes: Seq<ComponentChange>,
    entity_ticks: Option<EntityTicksState>,
    priority_due: bool,
    change_tick: Tick,
    kind: ComponentWrite,
)
    ensures
        forall|c: usize|
            #[trigger] changes_written(changes, entity_ticks, priority_due, change_tick, kind).contains(c)
                <==> exists|i: int|
                0 <= i < changes.len() && (#[trigger] changes[i]).component == c && change_write(
                    entity_ticks,
                    changes[i],
                    priority_due,
                    change_tick,
                ) == kind,
    decreases changes.len(),
{
    if changes.len() > 0 {
        let rest = changes.drop_last();
        lemma_changes_written(rest, entity_ticks, priority_due, change_tick, kind);
        let earlier = changes_written(rest, entity_ticks, priority_due, change_tick, kind);
        let all = changes_written(changes, entity_ticks, priority_due, change_tick, kind);
        let last = changes.last();
        assert forall|c: usize| #[trigger] all.contains(c) <==> exists|i: int|
            0 <= i < changes.len() && (#[trigger] changes[i]).component == c && change_write(
                entity_ticks,
                changes[i],
                priority_due,
                change_tick,
            ) == kind by {
            if all.contains(c) {
                let k = choose|k: int| 0 <= k < all.len() && all[k] == c;
                if k < earlier.len() {
                    assert(earlier[k] == c);
                    assert(earlier.contains(c));
                    let i = choose|i: int|
                        0 <= i < rest.len() && (#[trigger] rest[i]).component == c && change_write(
                            entity_ticks,
                            rest[i],
                            priority_due,
                            change_tick,
                        ) == kind;
                    assert(changes[i] == rest[i]);
                } else {
                    assert(changes[changes.len() - 1] == last);
                }
            }
            if exists|i: int|
                0 <= i < changes.len() && (#[trigger] changes[i]).component == c && change_write(
                    entity_ticks,
                    changes[i],
                    priority_due,
                    change_tick,
                ) == kind {
                let i = choose|i: int|
                    0 <= i < changes.len() && (#[trigger] changes[i]).component == c && change_write(
                        entity_ticks,
                        changes[i],
                        priority_due,
                        change_tick,
                    ) == kind;
                if i < rest.len() {
                    assert(rest[i] == changes[i]);
                    assert(earlier.contains(c));
                    let k = choose|k: int| 0 <= k < earlier.len() && earlier[k] == c;
                    assert(all[k] == c);
                } else {
                    assert(all[all.len() - 1] == c);
                }
            }
        }
    }
}


/// Lost component visibility asks for removals only on entities that are still replicated and
/// not themselves hidden for as long as they are not visible, each from one of the lost
/// entries.
pub proof fn lemma_lost_removals(lost: Seq<LostVisibility>, replicated: Map<u64, Vec<(usize, FnsId)>>)
    ensures
        forall|k: int|
            0 <= k < lost_removals(lost, replicated).len() ==> {
                let entity = (#[trigger] lost_removals(lost, replicated)[k]).0;
                &&& replicated.contains_key(entity.bits())
                &&& exists|i: int|
                    0 <= i < lost.len() && (#[trigger] lost[i]).entity == entity && lost[i].entity_lifetime
                        != Some(ScopeLifetime::WhileVisible)
            },
    decreases lost.len(),
{
    if lost.len() > 0 {
        let rest = lost.drop_last();
        lemma_lost_removals(rest, replicated);
        let earlier = lost_removals(rest, replicated);
        assert forall|k: int| 0 <= k < lost_removals(lost, replicated).len() implies {
            let entity = (#[trigger] lost_removals(lost, replicated)[k]).0;
            &&& replicated.contains_key(entity.bits())
            &&& exists|i: int|
                0 <= i < lost.len() && (#[trigger] lost[i]).entity == entity && lost[i].entity_lifetime
                    != Some(ScopeLifetime::WhileVisible)
        } by {
            if k < earlier.len() {
                assert(lost_removals(lost, replicated)[k] == earlier[k]);
                let i = choose|i: int|
                    0 <= i < rest.len() && (#[trigger] rest[i]).entity == earlier[k].0 && rest[i].entity_lifetime
                        != Some(ScopeLifetime::WhileVisible);
                assert(lost[i] == rest[i]);
            } else {
                assert(lost[lost.len() - 1] == lost.last());
            }
        }
    }
}

/// An entity with an entry in a scene has a first one.
pub proof fn lemma_scene_position(scene: Seq<(Entity, Seq<usize>)>, entity: Entity)
    ensures
        scene_position(scene, entity) matches Some(p) ==> 0 <= p < scene.len() && scene[p].0 == entity
            && forall|j: int| 0 <= j < p ==> scene[j].0 != entity,
        scene_position(scene, entity) is None ==> forall|j: int| 0 <= j < scene.len() ==> (#[trigger] scene[j]).0
            != entity,
    decreases scene.len(),
{
    if exists|i: int| 0 <= i < scene.len() && (#[trigger] scene[i]).0 == entity {
        let rest = scene.drop_last();
        lemma_scene_position(rest, entity);
        match scene_position(rest, entity) {
            Some(p) => {
                assert(scene[p] == rest[p]);
                assert forall|j: int| 0 <= j < p implies scene[j].0 != entity by {
                    assert(scene[j] == rest[j]);
                }
            },
            None => {
                let last = scene.len() - 1;
                assert forall|j: int| 0 <= j < last implies scene[j].0 != entity by {
                    assert(scene[j] == rest[j]);
                }
                let i = choose|i: int| 0 <= i < scene.len() && (#[trigger] scene[i]).0 == entity;
                if i < last {
                    assert(scene[i] == rest[i]);
                }
                assert(scene[last].0 == entity);
            },
        }
    }
}

/// Adding entries to a scene keeps every entity it held, in place, with its components first,
/// and afterwards the scene holds every added entity.
pub proof fn lemma_scene_with_all(scene: Seq<(Entity, Seq<usize>)>, entries: Seq<(Entity, Seq<usize>)>)
    ensures
        scene_with_all(scene, entries).len() >= scene.len(),
        forall|i: int|
            0 <= i < scene.len() ==> (#[trigger] scene_with_all(scene, entries)[i]).0 == scene[i].0
                && scene[i].1.is_prefix_of(scene_with_all(scene, entries)[i].1),
        forall|k: int|
            0 <= k < entries.len() ==> exists|i: int|
                0 <= i < scene_with_all(scene, entries).len() && (#[trigger] scene_with_all(scene, entries)[i]).0
                    == (#[trigger] entries[k]).0,
    decreases entries.len(),
{
    if entries.len() > 0 {
        let rest = entries.drop_last();
        lemma_scene_with_all(scene, rest);
        let earlier = scene_with_all(scene, rest);
        let entry = entries.last();
        let all = scene_with_all(scene, entries);
        lemma_scene_position(earlier, entry.0);
        match scene_position(earlier, entry.0) {
            Some(p) => {
                assert(0 <= p < earlier.len() && earlier[p].0 == entry.0);
                assert(all == earlier.update(p, (entry.0, earlier[p].1 + entry.1)));
                assert forall|i: int| 0 <= i < scene.len() implies (#[trigger] all[i]).0 == scene[i].0
                    && scene[i].1.is_prefix_of(all[i].1) by {
                    assert(scene[i].1.is_prefix_of(earlier[i].1));
                    if i == p {
                        assert(earlier[i].1.is_prefix_of(earlier[i].1 + entry.1));
                        assert forall|j: int| 0 <= j < scene[i].1.len() implies scene[i].1[j] == all[i].1[j] by {
                            assert(scene[i].1[j] == earlier[i].1[j]);
                        }
                    }
                }
            },
            None => {
                assert(all == earlier.push(entry));
                assert forall|i: int| 0 <= i < scene.len() implies (#[trigger] all[i]).0 == scene[i].0
                    && scene[i].1.is_prefix_of(all[i].1) by {
                    assert(all[i] == earlier[i]);
                }
            },
        }
        assert forall|k: int| 0 <= k < entries.len() implies exists|i: int|
            0 <= i < all.len() && (#[trigger] all[i]).0 == (#[trigger] entries[k]).0 by {
            if k < rest.len() {
                assert(entries[k] == rest[k]);
                let i = choose|i: int| 0 <= i < earlier.len() && (#[trigger] earlier[i]).0 == rest[k].0;
                assert(all[i].0 == earlier[i].0);
            } else {
                match scene_position(earlier, entry.0) {
                    Some(p) => {
                        assert(all[p].0 == entry.0);
                    },
                    None => {
                        assert(all[earlier.len() as int].0 == entry.0);
                    },
                }
            }
        }
    }
}

} // verus!
