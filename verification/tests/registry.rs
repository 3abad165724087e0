use std::collections::HashSet;

use bevy_replicon::command_markers::{CommandMarker, CommandMarkerIndex, CommandMarkers};
use bevy_replicon::replication_core::ReplicationRules as CoreReplicationRules;
use bevy_replicon::replication_fns::{ComponentFns, FnsId, ReplicationFns, UntypedCommandFns, UntypedRuleFns};
use bevy_replicon::replication_rules::{ReplicationRule, ReplicationRules};
use bevy_replicon::replication_setup::ReplicationSetup;

const COMPONENT_A: usize = 10;
const COMPONENT_B: usize = 11;
const COMPONENT_C: usize = 12;
const COMPONENT_D: usize = 13;

fn default_fns() -> UntypedCommandFns {
    UntypedCommandFns { write: 1, remove: 2 }
}

fn rule_priorities(setup: &ReplicationSetup) -> Vec<usize> {
    setup.rules().rules().iter().map(|rule| rule.priority).collect()
}

#[test]
fn command_markers_sorting() {
    let mut setup = ReplicationSetup::new();
    setup.register_marker(20);
    setup.register_marker_with_priority(21, 2);
    setup.register_marker_with_priority(22, 1);
    setup.register_marker(23);

    let priorities: Vec<_> = setup.markers().markers().iter().map(|marker| marker.priority).collect();
    assert_eq!(priorities, [2, 1, 0, 0]);
}

#[test]
fn command_markers_keep_registration_order_for_equal_priority() {
    let mut markers = CommandMarkers::new();
    assert_eq!(markers.insert(CommandMarker { component_id: 1, priority: 0 }), CommandMarkerIndex(0));
    assert_eq!(markers.insert(CommandMarker { component_id: 2, priority: 0 }), CommandMarkerIndex(1));
    assert_eq!(markers.insert(CommandMarker { component_id: 3, priority: 5 }), CommandMarkerIndex(0));
    let ids: Vec<_> = markers.markers().iter().map(|marker| marker.component_id).collect();
    assert_eq!(ids, [3, 1, 2]);
    assert_eq!(markers.marker_id(2), CommandMarkerIndex(2));

    let present: HashSet<usize> = [2, 7].into_iter().collect();
    assert_eq!(markers.iter_contains(&present), [false, false, true]);
}

#[test]
fn replication_rules_sorting() {
    let mut setup = ReplicationSetup::new();
    setup.replicate_with(COMPONENT_A, default_fns(), UntypedRuleFns(1));
    setup.replicate_with(COMPONENT_B, default_fns(), UntypedRuleFns(2));
    setup.replicate_group(&[
        (COMPONENT_A, default_fns(), UntypedRuleFns(3)),
        (COMPONENT_B, default_fns(), UntypedRuleFns(4)),
    ]);
    setup.replicate_group(&[
        (COMPONENT_B, default_fns(), UntypedRuleFns(5)),
        (COMPONENT_C, default_fns(), UntypedRuleFns(6)),
    ]);
    setup.replicate_with(COMPONENT_C, default_fns(), UntypedRuleFns(7));
    setup.replicate_with(COMPONENT_D, default_fns(), UntypedRuleFns(8));

    assert_eq!(rule_priorities(&setup), [2, 2, 1, 1, 1, 1]);
}

#[test]
fn rule_fns() {
    let mut replication_fns = ReplicationFns::new();
    replication_fns.register_rule_fns(COMPONENT_A, default_fns(), UntypedRuleFns(1));
    assert_eq!(replication_fns.rules_len(), 1);
    assert_eq!(replication_fns.components_len(), 1);
}

#[test]
fn duplicate_rule_fns() {
    let mut replication_fns = ReplicationFns::new();
    replication_fns.register_rule_fns(COMPONENT_A, default_fns(), UntypedRuleFns(1));
    replication_fns.register_rule_fns(COMPONENT_A, default_fns(), UntypedRuleFns(1));

    assert_eq!(replication_fns.rules_len(), 2);
    assert_eq!(
        replication_fns.components_len(),
        1,
        "multiple serde registrations for the same component should result only in a single command functions instance"
    );
}

#[test]
fn different_rule_fns() {
    let mut replication_fns = ReplicationFns::new();
    replication_fns.register_rule_fns(COMPONENT_A, default_fns(), UntypedRuleFns(1));
    replication_fns.register_rule_fns(COMPONENT_B, default_fns(), UntypedRuleFns(2));

    assert_eq!(replication_fns.rules_len(), 2);
    assert_eq!(replication_fns.components_len(), 2);
}

#[test]
fn registered_fns_ids_follow_registration() {
    let mut replication_fns = ReplicationFns::new();
    let first = replication_fns.register_rule_fns(COMPONENT_A, default_fns(), UntypedRuleFns(7));
    let second = replication_fns.register_rule_fns(COMPONENT_B, default_fns(), UntypedRuleFns(8));
    assert_eq!(first.fns_id(), FnsId(0));
    assert_eq!(second.fns_id(), FnsId(1));
    assert_eq!(second.component_id(), COMPONENT_B);
    let (component_fns, rule_fns) = replication_fns.get(second.fns_id());
    assert_eq!(rule_fns, UntypedRuleFns(8));
    assert_eq!(component_fns.write(&[]), default_fns());
}

#[test]
fn marker_fns_take_precedence_by_priority() {
    let mut setup = ReplicationSetup::new();
    setup.register_marker_with_priority(20, 1);
    setup.register_marker_with_priority(21, 5);
    let low = UntypedCommandFns { write: 30, remove: 31 };
    let high = UntypedCommandFns { write: 40, remove: 41 };
    setup.register_marker_fns(COMPONENT_A, default_fns(), 20, low);
    setup.register_marker_fns(COMPONENT_A, default_fns(), 21, high);
    setup.replicate_with(COMPONENT_A, default_fns(), UntypedRuleFns(1));

    let (component_fns, _) = setup.fns().get(FnsId(0));
    // Markers are ordered by priority: [21, 20].
    assert_eq!(component_fns.write(&[true, true]), high);
    assert_eq!(component_fns.write(&[false, true]), low);
    assert_eq!(component_fns.remove(&[false, false]), default_fns());
    assert_eq!(component_fns.write(&[true]), high);
}

#[test]
fn consume_or_write_follows_history_need() {
    let mut component_fns = ComponentFns::new(default_fns(), 2);
    let marker = UntypedCommandFns { write: 5, remove: 6 };
    component_fns.set_marker_fns(CommandMarkerIndex(1), marker);
    assert_eq!(component_fns.consume_or_write(&[true, true], &[false, true]), Some(marker));
    assert_eq!(component_fns.consume_or_write(&[true, true], &[true, false]), None);
    assert_eq!(component_fns.consume_or_write(&[true, false], &[true, true]), None);
    component_fns.add_marker_slot(CommandMarkerIndex(0));
    assert_eq!(component_fns.write(&[false, false, true]), marker);
    let replaced = UntypedCommandFns { write: 9, remove: 9 };
    component_fns.set_command_fns(replaced);
    assert_eq!(component_fns.write(&[true, true, false]), replaced);
}

#[test]
fn rule_matching() {
    let rule = ReplicationRule::new(vec![(COMPONENT_A, FnsId(0)), (COMPONENT_B, FnsId(1))]);
    assert_eq!(rule.priority, 2);

    let both: HashSet<usize> = [COMPONENT_A, COMPONENT_B, COMPONENT_C].into_iter().collect();
    let only_a: HashSet<usize> = [COMPONENT_A].into_iter().collect();
    let none: HashSet<usize> = HashSet::new();
    let removed_b: HashSet<usize> = [COMPONENT_B].into_iter().collect();
    let removed_c: HashSet<usize> = [COMPONENT_C].into_iter().collect();

    assert!(rule.matches(&both));
    assert!(!rule.matches(&only_a));
    assert!(rule.matches_removals(&only_a, &removed_b));
    assert!(!rule.matches_removals(&only_a, &removed_c));
    assert!(!rule.matches_removals(&none, &removed_b));
    assert!(!rule.matches_removals(&both, &none));
}

#[test]
fn rules_insert_after_equal_priority() {
    let mut rules = ReplicationRules::new();
    rules.insert(ReplicationRule::new(vec![(1, FnsId(0))]));
    rules.insert(ReplicationRule::new(vec![(2, FnsId(1)), (3, FnsId(2))]));
    rules.insert(ReplicationRule::new(vec![(4, FnsId(3))]));
    let firsts: Vec<_> = rules.rules().iter().map(|rule| rule.components[0].0).collect();
    assert_eq!(firsts, [2, 1, 4]);
}

#[test]
fn component_replication_rules() {
    let marker = 1;
    let mut rules = CoreReplicationRules::new(marker);
    rules.replicate(COMPONENT_A);
    rules.replicate(COMPONENT_B);
    rules.not_replicate_if_present(COMPONENT_A, COMPONENT_C);
    rules.not_replicate_if_present(COMPONENT_A, COMPONENT_D);

    let plain: HashSet<usize> = [marker, COMPONENT_A, COMPONENT_B].into_iter().collect();
    let with_d: HashSet<usize> = [marker, COMPONENT_A, COMPONENT_D].into_iter().collect();
    let unmarked: HashSet<usize> = [COMPONENT_A].into_iter().collect();

    assert!(rules.is_replicated_archetype(&plain));
    assert!(!rules.is_replicated_archetype(&unmarked));
    assert!(rules.is_replicated_component(&plain, COMPONENT_A));
    assert!(!rules.is_replicated_component(&with_d, COMPONENT_A));
    assert!(rules.is_replicated_component(&with_d, COMPONENT_B));
    assert!(!rules.is_replicated_component(&plain, COMPONENT_C));
}
