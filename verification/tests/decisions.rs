use std::collections::{HashMap, HashSet};

use bevy::ecs::component::Tick;

use bevy_replicon::client_ticks::ClientTicks;
use bevy_replicon::entity::Entity;
use bevy_replicon::replication_decisions::{
    collect_despawns, collect_lost_components, collect_removals, component_write, entity_changes, finish_entity, replicate_into, scene_components, send_decision,
    ClientReplicationState, ComponentChange, ComponentWrite, LostScope, LostVisibility, EntityTicksState, ReplicationMode, ScopeLifetime,
};
use bevy_replicon::protocol::{check_protocol, ProtocolCheck};
use bevy_replicon::remote_trigger::{RemoteTargets, RemoteTrigger};
use bevy_replicon::replication_fns::FnsId;
use bevy_replicon::replication_rules::{ReplicationRule, ReplicationRules};
use bevy_replicon::replicon_tick::RepliconTick;

fn ticks_with(components: &[usize], system_tick: u32, remote_hidden: bool) -> EntityTicksState {
    EntityTicksState {
        server_tick: RepliconTick::new(1),
        system_tick: Tick::new(system_tick),
        components: components.iter().copied().collect(),
        remote_hidden,
    }
}

fn empty_client() -> ClientReplicationState {
    ClientReplicationState {
        entities: HashMap::new(),
        hidden: HashMap::new(),
        hidden_components: HashMap::new(),
        lost: Vec::new(),
    }
}

#[test]
fn changed_component_is_mutation() {
    let ticks = ticks_with(&[1], 3, false);
    let write = |hidden, mode, priority_due, last_changed| {
        component_write(Some(&ticks), 1, hidden, mode, priority_due, Tick::new(last_changed), Tick::new(10))
    };
    assert_eq!(write(None, ReplicationMode::OnChange, true, 5), ComponentWrite::Mutation);
    assert_eq!(write(None, ReplicationMode::OnChange, true, 2), ComponentWrite::Skip);
    assert_eq!(write(None, ReplicationMode::Once, true, 5), ComponentWrite::Skip);
    assert_eq!(write(None, ReplicationMode::OnChange, false, 5), ComponentWrite::Skip);
    assert_eq!(
        write(Some(ScopeLifetime::AfterFirstVisibility), ReplicationMode::OnChange, true, 5),
        ComponentWrite::Skip
    );
    assert_eq!(write(Some(ScopeLifetime::WhileVisible), ReplicationMode::OnChange, true, 5), ComponentWrite::Skip);
}

#[test]
fn missing_component_is_insertion() {
    let ticks = ticks_with(&[1], 3, false);
    let write = |entity_ticks, component, hidden| {
        component_write(entity_ticks, component, hidden, ReplicationMode::OnChange, true, Tick::new(5), Tick::new(10))
    };
    assert_eq!(write(None, 1, None), ComponentWrite::Insertion);
    assert_eq!(write(Some(&ticks), 2, None), ComponentWrite::Insertion);
    assert_eq!(write(None, 1, Some(ScopeLifetime::AlwaysPresent)), ComponentWrite::Insertion);
    assert_eq!(write(Some(&ticks), 2, Some(ScopeLifetime::AlwaysPresent)), ComponentWrite::Skip);
    assert_eq!(write(None, 1, Some(ScopeLifetime::AfterFirstVisibility)), ComponentWrite::Skip);
    assert_eq!(write(None, 1, Some(ScopeLifetime::WhileVisible)), ComponentWrite::Skip);
}

#[test]
fn updates_move_update_tick() {
    let mut ticks = ClientTicks::new();
    assert_eq!(send_decision(&mut ticks, true, true, false, RepliconTick::new(7)), (false, false));
    assert_eq!(ticks.update_tick(), RepliconTick::new(0));
    assert_eq!(send_decision(&mut ticks, true, true, true, RepliconTick::new(7)), (false, true));
    assert_eq!(send_decision(&mut ticks, false, false, false, RepliconTick::new(8)), (true, true));
    assert_eq!(ticks.update_tick(), RepliconTick::new(8));
}

#[test]
fn despawn_written_for_known_visible_entities() {
    let known = Entity::from_raw(1);
    let hidden = Entity::from_raw(2);
    let unknown = Entity::from_raw(3);
    let mut client = empty_client();
    client.entities.insert(known.to_bits(), ticks_with(&[], 1, false));
    client.entities.insert(hidden.to_bits(), ticks_with(&[], 1, false));
    client.hidden.insert(hidden.to_bits(), ScopeLifetime::AfterFirstVisibility);
    client.hidden_components.insert(known.to_bits(), [1].into_iter().collect());
    let mut clients = vec![client, empty_client()];

    let writes = collect_despawns(&[known, hidden, unknown], &mut clients);
    assert_eq!(writes.len(), 2);
    assert_eq!(writes[0].despawns, vec![known]);
    assert!(writes[0].hidden.is_empty());
    assert!(writes[1].despawns.is_empty());
    assert!(clients[0].entities.is_empty());
    assert!(clients[0].hidden.is_empty());
    assert!(clients[0].hidden_components.is_empty());
}

#[test]
fn lost_visibility_despawns_or_hides() {
    let gone = Entity::from_raw(1);
    let kept = Entity::from_raw(2);
    let components_only = Entity::from_raw(3);
    let mut client = empty_client();
    client.entities.insert(gone.to_bits(), ticks_with(&[], 1, false));
    client.entities.insert(kept.to_bits(), ticks_with(&[], 1, false));
    client.entities.insert(components_only.to_bits(), ticks_with(&[], 1, false));
    client.lost = vec![
        lost_entity(gone, Some(ScopeLifetime::WhileVisible), vec![]),
        lost_entity(kept, Some(ScopeLifetime::AfterFirstVisibility), vec![]),
        lost_entity(kept, Some(ScopeLifetime::AfterFirstVisibility), vec![]),
        lost_entity(components_only, None, vec![LostScope::Components(vec![1])]),
    ];
    let mut clients = vec![client];

    let writes = collect_despawns(&[], &mut clients);
    assert_eq!(writes[0].despawns, vec![gone]);
    assert_eq!(writes[0].hidden, vec![kept]);
    assert!(!clients[0].entities.contains_key(&gone.to_bits()));
    assert!(clients[0].entities[&kept.to_bits()].remote_hidden);
    assert!(!clients[0].entities[&components_only.to_bits()].remote_hidden);
}

#[test]
fn scene_holds_marked_archetypes() {
    let mut rules = ReplicationRules::new();
    rules.insert(ReplicationRule::new(vec![(1, FnsId(0))]));
    rules.insert(ReplicationRule::new(vec![(2, FnsId(1)), (3, FnsId(2))]));
    rules.insert(ReplicationRule::new(vec![(4, FnsId(3))]));
    let marked: HashSet<usize> = [0, 1, 2, 3].into_iter().collect();
    let unmarked: HashSet<usize> = [1, 2, 3].into_iter().collect();
    let archetypes = vec![
        (vec![Entity::from_raw(1), Entity::from_raw(2)], marked),
        (vec![Entity::from_raw(3)], unmarked),
    ];

    let scene = scene_components(&archetypes, 0, &rules);
    assert_eq!(scene, vec![(Entity::from_raw(1), vec![2, 3, 1]), (Entity::from_raw(2), vec![2, 3, 1])]);
}

#[test]
fn removals_written_for_sent_visible_components() {
    let entity = Entity::from_raw(1);
    let hidden_entity = Entity::from_raw(2);
    let mut client = empty_client();
    client.entities.insert(entity.to_bits(), ticks_with(&[1, 2, 3], 1, false));
    client.entities.insert(hidden_entity.to_bits(), ticks_with(&[1], 1, false));
    client.hidden.insert(hidden_entity.to_bits(), ScopeLifetime::AfterFirstVisibility);
    client.hidden_components.insert(entity.to_bits(), [2].into_iter().collect());
    let mut clients = vec![client];

    let removals = vec![
        (entity, vec![(1, FnsId(0)), (2, FnsId(1)), (4, FnsId(3))]),
        (hidden_entity, vec![(1, FnsId(0))]),
        (Entity::from_raw(3), vec![(1, FnsId(0))]),
    ];
    let writes = collect_removals(&removals, &mut clients);
    assert_eq!(writes, vec![vec![(entity, vec![FnsId(0)])]]);
    let left: HashSet<usize> = [2, 3].into_iter().collect();
    assert_eq!(clients[0].entities[&entity.to_bits()].components, left);
    assert!(clients[0].entities[&hidden_entity.to_bits()].components.contains(&1));
}

#[test]
fn new_entity_starts_replication() {
    let entity = Entity::from_raw(1);
    let mut client = empty_client();

    let flags = finish_entity(&mut client, entity, false, false, false, &[], Tick::new(4), RepliconTick::new(2));
    assert_eq!(flags, (false, true));
    let ticks = &client.entities[&entity.to_bits()];
    assert_eq!(ticks.server_tick, RepliconTick::new(2));
    assert_eq!(ticks.system_tick, Tick::new(4));
    assert!(ticks.components.is_empty());

    let flags = finish_entity(&mut client, entity, true, false, true, &[5], Tick::new(6), RepliconTick::new(3));
    assert_eq!(flags, (true, false));
    let ticks = &client.entities[&entity.to_bits()];
    assert_eq!(ticks.server_tick, RepliconTick::new(3));
    assert!(ticks.components.contains(&5));
}

#[test]
fn mutations_alone_keep_ticks() {
    let entity = Entity::from_raw(1);
    let mut client = empty_client();
    client.entities.insert(entity.to_bits(), ticks_with(&[1], 1, false));

    let flags = finish_entity(&mut client, entity, false, false, true, &[], Tick::new(4), RepliconTick::new(2));
    assert_eq!(flags, (false, false));
    assert_eq!(client.entities[&entity.to_bits()].server_tick, RepliconTick::new(1));
}

#[test]
fn hidden_entity_resumes_replication() {
    let entity = Entity::from_raw(1);
    let mut client = empty_client();
    client.entities.insert(entity.to_bits(), ticks_with(&[1], 1, true));

    let flags = finish_entity(&mut client, entity, false, false, false, &[], Tick::new(4), RepliconTick::new(2));
    assert_eq!(flags, (false, true));
    assert!(!client.entities[&entity.to_bits()].remote_hidden);

    let other = Entity::from_raw(2);
    client.hidden.insert(other.to_bits(), ScopeLifetime::WhileVisible);
    let flags = finish_entity(&mut client, other, true, true, true, &[1], Tick::new(4), RepliconTick::new(2));
    assert_eq!(flags, (false, false));
    assert!(!client.entities.contains_key(&other.to_bits()));
}

fn lost_entity(entity: Entity, entity_lifetime: Option<ScopeLifetime>, scopes: Vec<LostScope>) -> LostVisibility {
    LostVisibility {
        entity,
        entity_lifetime,
        scopes,
    }
}

#[test]
fn lost_components_are_removed() {
    let entity = Entity::from_raw(1);
    let others = Entity::from_raw(2);
    let gone = Entity::from_raw(3);
    let despawned = Entity::from_raw(4);
    let mut client = empty_client();
    client.entities.insert(entity.to_bits(), ticks_with(&[1, 2], 1, false));
    client.entities.insert(others.to_bits(), ticks_with(&[1, 2, 3], 1, false));
    client.entities.insert(gone.to_bits(), ticks_with(&[1], 1, false));
    client.entities.insert(despawned.to_bits(), ticks_with(&[1], 1, false));
    client.lost = vec![
        lost_entity(entity, None, vec![LostScope::Components(vec![1, 3, 5])]),
        lost_entity(others, Some(ScopeLifetime::AfterFirstVisibility), vec![LostScope::AllExcept(vec![2])]),
        lost_entity(gone, Some(ScopeLifetime::WhileVisible), vec![LostScope::Components(vec![1])]),
        lost_entity(despawned, None, vec![LostScope::Components(vec![1])]),
    ];
    let rules = vec![(1, FnsId(0)), (2, FnsId(1)), (3, FnsId(2))];
    let mut replicated = HashMap::new();
    replicated.insert(entity.to_bits(), rules.clone());
    replicated.insert(others.to_bits(), rules.clone());
    replicated.insert(gone.to_bits(), rules);

    let written = collect_lost_components(&mut client, &replicated);
    assert_eq!(written, vec![(entity, vec![FnsId(0)]), (others, vec![FnsId(0), FnsId(2)])]);
    let left: HashSet<usize> = [2].into_iter().collect();
    assert_eq!(client.entities[&entity.to_bits()].components, left);
    assert_eq!(client.entities[&others.to_bits()].components, left);
    assert!(client.entities[&gone.to_bits()].components.contains(&1));
    assert!(client.entities[&despawned.to_bits()].components.contains(&1));
    assert!(client.lost.is_empty());
}

#[test]
fn trigger_targets_keep_order() {
    let first = Entity::from_raw(1);
    let second = Entity::from_raw(2);
    assert_eq!(first.into_entities(), vec![first]);
    assert_eq!(vec![second, first].into_entities(), vec![second, first]);
    assert_eq!([first, second].into_entities(), vec![first, second]);
    let slice: &[Entity] = &[second];
    assert_eq!(slice.into_entities(), vec![second]);

    let trigger = RemoteTrigger::new(7u8, [first, second]);
    assert_eq!(trigger.event, 7);
    assert_eq!(trigger.targets, vec![first, second]);
}

fn change(component: usize, mode: ReplicationMode, hidden: Option<ScopeLifetime>, last_changed: u32) -> ComponentChange {
    ComponentChange {
        component,
        mode,
        hidden,
        last_changed: Tick::new(last_changed),
    }
}

#[test]
fn entity_changes_write_insertions_and_mutations() {
    let entity = Entity::from_raw(1);
    let mut client = empty_client();
    let changes = vec![
        change(1, ReplicationMode::OnChange, None, 5),
        change(2, ReplicationMode::Once, None, 5),
        change(3, ReplicationMode::OnChange, Some(ScopeLifetime::WhileVisible), 5),
    ];

    let written = entity_changes(&mut client, entity, &changes, true, false, Tick::new(6), RepliconTick::new(1));
    assert_eq!(written.insertions, vec![1, 2]);
    assert!(written.mutations.is_empty());
    assert!(!written.merge_mutations);
    assert!(!written.write_empty);
    let left: HashSet<usize> = [1, 2].into_iter().collect();
    assert_eq!(client.entities[&entity.to_bits()].components, left);

    // Later, only the component sent on change is mutated; the ticks stay.
    let changes = vec![
        change(1, ReplicationMode::OnChange, None, 8),
        change(2, ReplicationMode::Once, None, 8),
    ];
    let written = entity_changes(&mut client, entity, &changes, true, false, Tick::new(9), RepliconTick::new(2));
    assert!(written.insertions.is_empty());
    assert_eq!(written.mutations, vec![1]);
    assert!(!written.merge_mutations);
    assert_eq!(client.entities[&entity.to_bits()].server_tick, RepliconTick::new(1));

    // A new component merges the mutations into the update.
    let changes = vec![
        change(1, ReplicationMode::OnChange, None, 10),
        change(4, ReplicationMode::OnChange, None, 10),
    ];
    let written = entity_changes(&mut client, entity, &changes, true, false, Tick::new(11), RepliconTick::new(3));
    assert_eq!(written.insertions, vec![4]);
    assert_eq!(written.mutations, vec![1]);
    assert!(written.merge_mutations);
    assert_eq!(client.entities[&entity.to_bits()].server_tick, RepliconTick::new(3));
    assert!(client.entities[&entity.to_bits()].components.contains(&4));
}

#[test]
fn shared_component_is_listed_once() {
    let mut rules = ReplicationRules::new();
    rules.insert(ReplicationRule::new(vec![(1, FnsId(0)), (2, FnsId(1))]));
    rules.insert(ReplicationRule::new(vec![(2, FnsId(1)), (3, FnsId(2))]));
    let marked: HashSet<usize> = [0, 1, 2, 3].into_iter().collect();
    let entity = Entity::from_raw(1);

    let scene = scene_components(&[(vec![entity], marked)], 0, &rules);
    assert_eq!(scene, vec![(entity, vec![1, 2, 3])]);
}

#[test]
fn scene_keeps_existing_entries() {
    let mut rules = ReplicationRules::new();
    rules.insert(ReplicationRule::new(vec![(1, FnsId(0))]));
    let marked: HashSet<usize> = [0, 1].into_iter().collect();
    let marker_only: HashSet<usize> = [0].into_iter().collect();
    let unmarked: HashSet<usize> = [1].into_iter().collect();
    let first = Entity::from_raw(1);
    let second = Entity::from_raw(2);
    let bare = Entity::from_raw(3);
    let other = Entity::from_raw(4);
    let archetypes = vec![
        (vec![first, second], marked),
        (vec![bare], marker_only),
        (vec![Entity::from_raw(5)], unmarked),
    ];

    let mut scene = vec![(first, vec![9]), (other, vec![])];
    replicate_into(&mut scene, &archetypes, 0, &rules);
    assert_eq!(scene, vec![(first, vec![9, 1]), (other, vec![]), (second, vec![1]), (bare, vec![])]);
}

#[test]
fn protocol_hashes_must_match() {
    assert_eq!(check_protocol(7, 7), ProtocolCheck::Authorized);
    assert_eq!(check_protocol(7, 8), ProtocolCheck::Mismatch);
}
