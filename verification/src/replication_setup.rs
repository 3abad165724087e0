use vstd::prelude::*;

use crate::command_markers::{CommandMarker, CommandMarkers};
use crate::replication_fns::{FnsId, ReplicationFns, UntypedCommandFns, UntypedRuleFns};
use crate::replication_rules::{ReplicationRule, ReplicationRules};

verus! {

/// The components of a registered group with the IDs of their functions, which follow the
/// `base` functions registered before.
pub open spec fn group_components(
    components: Seq<(usize, UntypedCommandFns, UntypedRuleFns)>,
    base: nat,
) -> Seq<(usize, FnsId)> {
    Seq::new(components.len(), |i: int| (components[i].0, FnsId((base + i) as usize)))
}

/// The replication resources an application registers into: command markers, replication
/// functions and replication rules.
pub struct ReplicationSetup {
    markers: CommandMarkers,
    fns: ReplicationFns,
    rules: ReplicationRules,
}

impl ReplicationSetup {
    /// The registered markers.
    pub closed spec fn markers_spec(&self) -> CommandMarkers {
        self.markers
    }

    /// The registered functions.
    pub closed spec fn fns_spec(&self) -> ReplicationFns {
        self.fns
    }

    /// The registered rules.
    pub closed spec fn rules_spec(&self) -> ReplicationRules {
        self.rules
    }

    /// Every resource is well formed, every component has one function slot per marker, and
    /// every rule refers to registered functions of its components.
    pub open spec fn wf(&self) -> bool {
        &&& self.markers_spec().wf()
        &&& self.fns_spec().wf()
        &&& self.rules_spec().wf()
        &&& self.fns_spec().marker_slots_spec() == self.markers_spec().markers_spec().len()
        &&& forall|r: int, c: int|
            0 <= r < self.rules_spec().components_spec().len() && 0 <= c
                < self.rules_spec().components_spec()[r].len() ==> {
                let (component_id, fns_id) = #[trigger] self.rules_spec().components_spec()[r][c];
                &&& fns_id.0 < self.fns_spec().rules_spec().len()
                &&& self.fns_spec().component_ids()[self.fns_spec().rules_spec()[fns_id.0 as int].1 as int]
                    == component_id
            }
    }

    /// Nothing registered.
    pub fn new() -> (setup: Self)
        ensures
            setup.wf(),
            setup.markers_spec().markers_spec().len() == 0,
            setup.rules_spec().priorities().len() == 0,
            setup.fns_spec().rules_spec().len() == 0,
            setup.fns_spec().component_ids().len() == 0,
    {
        ReplicationSetup {
            markers: CommandMarkers::new(),
            fns: ReplicationFns::new(),
            rules: ReplicationRules::new(),
        }
    }

    /// Registers a component as a marker with a priority of 0.
    pub fn register_marker(&mut self, component_id: usize)
        requires
            old(self).wf(),
            old(self).markers_spec().markers_spec().len() < usize::MAX,
        ensures
            final(self).wf(),
            final(self).markers_spec().markers_spec() == old(self).markers_spec().markers_spec().insert(
                crate::command_markers::insertion_index(old(self).markers_spec().markers_spec(), 0),
                CommandMarker { component_id, priority: 0 },
            ),
            final(self).rules_spec() == old(self).rules_spec(),
    {
        self.register_marker_with_priority(component_id, 0);
    }

    /// Registers a component as a marker with a priority: among the markers an entity holds,
    /// the one with the highest priority selects the command functions.
    pub fn register_marker_with_priority(&mut self, component_id: usize, priority: usize)
        requires
            old(self).wf(),
            old(self).markers_spec().markers_spec().len() < usize::MAX,
        ensures
            final(self).wf(),
            final(self).markers_spec().markers_spec() == old(self).markers_spec().markers_spec().insert(
                crate::command_markers::insertion_index(old(self).markers_spec().markers_spec(), priority),
                CommandMarker { component_id, priority },
            ),
            final(self).rules_spec() == old(self).rules_spec(),
            final(self).fns_spec().component_ids() == old(self).fns_spec().component_ids(),
            final(self).fns_spec().rules_spec() == old(self).fns_spec().rules_spec(),
            forall|i: int|
                0 <= i < old(self).fns_spec().component_ids().len() ==> {
                    &&& (#[trigger] final(self).fns_spec().component_fns(i)).markers_spec()
                        == old(self).fns_spec().component_fns(i).markers_spec().insert(
                        crate::command_markers::insertion_index(
                            old(self).markers_spec().markers_spec(),
                            priority,
                        ),
                        None,
                    )
                    &&& final(self).fns_spec().component_fns(i).commands_spec() == old(
                        self,
                    ).fns_spec().component_fns(i).commands_spec()
                },
    {
        let marker_id = self.markers.insert(CommandMarker { component_id, priority });
        proof {
            crate::command_markers::lemma_insertion_index(
                old(self).markers_spec().markers_spec(),
                priority,
            );
        }
        self.fns.register_marker(marker_id);
    }

    /// Assigns write and remove functions to a registered marker for a component.
    ///
    /// `default_fns` are the component's default command functions, used when the component
    /// has no functions yet.
    pub fn register_marker_fns(
        &mut self,
        component_id: usize,
        default_fns: UntypedCommandFns,
        marker_component_id: usize,
        command_fns: UntypedCommandFns,
    )
        requires
            old(self).wf(),
            exists|i: int|
                0 <= i < old(self).markers_spec().markers_spec().len()
                    && #[trigger] old(self).markers_spec().markers_spec()[i].component_id
                    == marker_component_id,
        ensures
            final(self).wf(),
            final(self).markers_spec() == old(self).markers_spec(),
            final(self).rules_spec() == old(self).rules_spec(),
            exists|index: int|
                0 <= index < final(self).fns_spec().component_ids().len()
                    && final(self).fns_spec().component_ids()[index] == component_id
                    && #[trigger] final(self).fns_spec().component_fns(index).markers_spec()[
                    crate::command_markers::first_marker_with(
                        final(self).markers_spec().markers_spec(),
                        marker_component_id,
                    )] == Some(command_fns),
    {
        let marker_id = self.markers.marker_id(marker_component_id);
        proof {
            crate::command_markers::lemma_first_marker_with(
                self.markers.markers_spec(),
                marker_component_id,
                marker_id.0 as int,
            );
        }
        let ghost before = self.fns;
        self.fns.set_marker_fns(component_id, default_fns, marker_id, command_fns);
        proof {
            assert(self.fns.rules_spec().take(before.rules_spec().len() as int) =~= before.rules_spec());
            assert(self.fns.component_ids().take(before.component_ids().len() as int)
                =~= before.component_ids());
            self.lemma_rules_kept(&before);
        }
    }

    /// Rules keep referring to registered functions of their components when functions are
    /// added.
    proof fn lemma_rules_kept(&self, before: &ReplicationFns)
        requires
            forall|r: int, c: int|
                0 <= r < self.rules_spec().components_spec().len() && 0 <= c
                    < self.rules_spec().components_spec()[r].len() ==> {
                    let (component_id, fns_id) = #[trigger] self.rules_spec().components_spec()[r][c];
                    &&& fns_id.0 < before.rules_spec().len()
                    &&& before.component_ids()[before.rules_spec()[fns_id.0 as int].1 as int]
                        == component_id
                },
            before.wf(),
            self.fns_spec().rules_spec().len() >= before.rules_spec().len(),
            self.fns_spec().rules_spec().take(before.rules_spec().len() as int) == before.rules_spec(),
            self.fns_spec().component_ids().len() >= before.component_ids().len(),
            self.fns_spec().component_ids().take(before.component_ids().len() as int)
                == before.component_ids(),
        ensures
            forall|r: int, c: int|
                0 <= r < self.rules_spec().components_spec().len() && 0 <= c
                    < self.rules_spec().components_spec()[r].len() ==> {
                    let (component_id, fns_id) = #[trigger] self.rules_spec().components_spec()[r][c];
                    &&& fns_id.0 < self.fns_spec().rules_spec().len()
                    &&& self.fns_spec().component_ids()[self.fns_spec().rules_spec()[fns_id.0 as int].1 as int]
                        == component_id
                },
    {
        assert forall|r: int, c: int|
            0 <= r < self.rules_spec().components_spec().len() && 0 <= c
                < self.rules_spec().components_spec()[r].len() implies {
                let (component_id, fns_id) = #[trigger] self.rules_spec().components_spec()[r][c];
                &&& fns_id.0 < self.fns_spec().rules_spec().len()
                &&& self.fns_spec().component_ids()[self.fns_spec().rules_spec()[fns_id.0 as int].1 as int]
                    == component_id
            } by {
            let (component_id, fns_id) = self.rules_spec().components_spec()[r][c];
            let f = fns_id.0 as int;
            assert(self.fns_spec().rules_spec().take(before.rules_spec().len() as int)[f]
                == self.fns_spec().rules_spec()[f]);
            let index = before.rules_spec()[f].1 as int;
            assert(index < before.component_ids().len());
            assert(self.fns_spec().component_ids().take(before.component_ids().len() as int)[index]
                == self.fns_spec().component_ids()[index]);
        }
    }

    /// Registers functions for one component and a rule that replicates it alone.
    ///
    /// `default_fns` are the component's default command functions, used when the component
    /// has no functions yet.
    pub fn replicate_with(
        &mut self,
        component_id: usize,
        default_fns: UntypedCommandFns,
        rule_fns: UntypedRuleFns,
    )
        requires
            old(self).wf(),
            old(self).fns_spec().rules_spec().len() < usize::MAX,
        ensures
            final(self).wf(),
            final(self).markers_spec() == old(self).markers_spec(),
            final(self).fns_spec().rules_spec().len() == old(self).fns_spec().rules_spec().len() + 1,
            final(self).fns_spec().rules_spec().drop_last() == old(self).fns_spec().rules_spec(),
            final(self).fns_spec().rules_spec().last().0 == rule_fns,
            final(self).rules_spec().priorities() == old(self).rules_spec().priorities().insert(
                crate::replication_rules::rule_insertion_index(old(self).rules_spec().priorities(), 1),
                1,
            ),
            final(self).rules_spec().components_spec() == old(self).rules_spec().components_spec().insert(
                crate::replication_rules::rule_insertion_index(old(self).rules_spec().priorities(), 1),
                seq![(component_id, FnsId(old(self).fns_spec().rules_spec().len() as usize))],
            ),
    {
        let mut group: Vec<(usize, UntypedCommandFns, UntypedRuleFns)> = Vec::new();
        group.push((component_id, default_fns, rule_fns));
        self.replicate_group(group.as_slice());
        proof {
            let base = old(self).fns_spec().rules_spec().len();
            assert(self.fns.rules_spec()[base + 0int].0 == group@[0].2);
            assert(self.fns.rules_spec().drop_last() =~= self.fns.rules_spec().take(base as int));
            assert(group_components(group@, old(self).fns_spec().rules_spec().len()) =~= seq![
                (component_id, FnsId(old(self).fns_spec().rules_spec().len() as usize)),
            ]);
        }
    }

    /// Registers functions for each component of a group and a rule that replicates the
    /// components only when an entity holds all of them.
    ///
    /// `components` holds each component with its default command functions and its
    /// serialization functions.
    pub fn replicate_group(&mut self, components: &[(usize, UntypedCommandFns, UntypedRuleFns)])
        requires
            old(self).wf(),
            old(self).fns_spec().rules_spec().len() + components@.len() <= usize::MAX,
        ensures
            final(self).wf(),
            final(self).markers_spec() == old(self).markers_spec(),
            final(self).fns_spec().rules_spec().len() == old(self).fns_spec().rules_spec().len()
                + components@.len(),
            final(self).fns_spec().rules_spec().take(old(self).fns_spec().rules_spec().len() as int)
                == old(self).fns_spec().rules_spec(),
            final(self).fns_spec().component_ids().take(old(self).fns_spec().component_ids().len() as int)
                == old(self).fns_spec().component_ids(),
            forall|i: int|
                0 <= i < components@.len() ==> #[trigger] final(self).fns_spec().rules_spec()[old(
                    self,
                ).fns_spec().rules_spec().len() + i].0 == components@[i].2,
            final(self).rules_spec().priorities() == old(self).rules_spec().priorities().insert(
                crate::replication_rules::rule_insertion_index(
                    old(self).rules_spec().priorities(),
                    components@.len() as usize,
                ),
                components@.len() as usize,
            ),
            final(self).rules_spec().components_spec() == old(self).rules_spec().components_spec().insert(
                crate::replication_rules::rule_insertion_index(
                    old(self).rules_spec().priorities(),
                    components@.len() as usize,
                ),
                group_components(components@, old(self).fns_spec().rules_spec().len()),
            ),
    {
        let ghost start = old(self).fns_spec();
        let ghost base = start.rules_spec().len();
        let mut registered: Vec<(usize, FnsId)> = Vec::new();
        let mut i: usize = 0;
        proof {
            assert(self.fns.rules_spec().take(base as int) =~= start.rules_spec());
            assert(self.fns.component_ids().take(start.component_ids().len() as int) =~= start.component_ids());
        }
        while i < components.len()
            invariant
                i <= components@.len(),
                base + components@.len() <= usize::MAX,
                start == old(self).fns_spec(),
                base == start.rules_spec().len(),
                start.wf(),
                self.fns.wf(),
                self.markers == old(self).markers,
                self.rules == old(self).rules,
                self.fns.marker_slots_spec() == start.marker_slots_spec(),
                self.fns.rules_spec().len() == base + i,
                self.fns.rules_spec().take(base as int) == start.rules_spec(),
                self.fns.component_ids().len() >= start.component_ids().len(),
                self.fns.component_ids().take(start.component_ids().len() as int) == start.component_ids(),
                registered@ == group_components(components@.take(i as int), base),
                forall|k: int|
                    0 <= k < i ==> #[trigger] self.fns.rules_spec()[base + k].0 == components@[k].2,
                forall|k: int|
                    0 <= k < i ==> self.fns.component_ids()[#[trigger] self.fns.rules_spec()[base + k].1 as int]
                        == components@[k].0,
            decreases components@.len() - i,
        {
            let (component_id, default_fns, rule_fns) = components[i];
            let ghost before = self.fns;
            let info = self.fns.register_rule_fns(component_id, default_fns, rule_fns);
            registered.push((info.component_id(), info.fns_id()));
            proof {
                let now = self.fns;
                assert(now.rules_spec().drop_last() == before.rules_spec());
                assert forall|k: int| 0 <= k < base + i implies now.rules_spec()[k] == before.rules_spec()[k] by {
                    assert(now.rules_spec().drop_last()[k] == now.rules_spec()[k]);
                }
                assert(now.rules_spec().take(base as int) =~= start.rules_spec()) by {
                    assert forall|k: int| 0 <= k < base implies now.rules_spec()[k] == start.rules_spec()[k] by {
                        assert(before.rules_spec().take(base as int)[k] == before.rules_spec()[k]);
                    }
                }
                assert forall|k: int| 0 <= k < before.component_ids().len() implies now.component_ids()[k]
                    == before.component_ids()[k] by {
                    if !before.component_ids().contains(component_id) {
                        assert(now.component_ids() == before.component_ids().push(component_id));
                    }
                }
                assert(now.component_ids().take(start.component_ids().len() as int) =~= start.component_ids())
                    by {
                    assert forall|k: int| 0 <= k < start.component_ids().len() implies now.component_ids()[k]
                        == start.component_ids()[k] by {
                        assert(before.component_ids().take(start.component_ids().len() as int)[k]
                            == before.component_ids()[k]);
                    }
                }
                assert forall|k: int| 0 <= k < i + 1 implies #[trigger] now.rules_spec()[base + k].0
                    == components@[k].2 by {
                    if k < i {
                        assert(now.rules_spec()[base + k] == before.rules_spec()[base + k]);
                    }
                }
                assert forall|k: int| 0 <= k < i + 1 implies now.component_ids()[
                    #[trigger] now.rules_spec()[base + k].1 as int] == components@[k].0 by {
                    if k < i {
                        assert(now.rules_spec()[base + k] == before.rules_spec()[base + k]);
                        assert(before.rules_spec()[base + k].1 < before.component_ids().len());
                    }
                }
                assert(components@.take(i + 1).drop_last() =~= components@.take(i as int));
                assert(registered@ =~= group_components(components@.take(i + 1), base));
            }
            i = i + 1;
        }
        proof {
            assert(components@.take(components@.len() as int) =~= components@);
        }
        let ghost group = registered@;
        let rule = ReplicationRule::new(registered);
        let ghost rules_before = self.rules;
        self.rules.insert(rule);
        proof {
            let t = crate::replication_rules::rule_insertion_index(rules_before.priorities(), group.len() as usize);
            crate::replication_rules::lemma_rule_insertion_index(rules_before.priorities(), group.len() as usize);
            let fns = self.fns;
            let old_rules = rules_before.components_spec();
            let new_rules = self.rules.components_spec();
            assert forall|r: int, c: int|
                0 <= r < new_rules.len() && 0 <= c < new_rules[r].len() implies {
                    let (component_id, fns_id) = #[trigger] new_rules[r][c];
                    &&& fns_id.0 < fns.rules_spec().len()
                    &&& fns.component_ids()[fns.rules_spec()[fns_id.0 as int].1 as int] == component_id
                } by {
                if r == t {
                    assert(new_rules[r] == group);
                    assert(group[c] == (components@[c].0, FnsId((base + c) as usize)));
                } else {
                    let o = if r < t { r } else { r - 1 };
                    assert(new_rules[r] == old_rules[o]);
                    let (component_id, fns_id) = old_rules[o][c];
                    assert(fns_id.0 < base);
                    let f = fns_id.0 as int;
                    assert(fns.rules_spec().take(base as int)[f] == fns.rules_spec()[f]);
                    let index = start.rules_spec()[f].1 as int;
                    assert(index < start.component_ids().len());
                    assert(fns.component_ids().take(start.component_ids().len() as int)[index]
                        == fns.component_ids()[index]);
                }
            }
        }
    }

    /// The registered markers.
    pub fn markers(&self) -> (markers: &CommandMarkers)
        ensures
            *markers == self.markers_spec(),
    {
        &self.markers
    }

    /// The registered functions.
    pub fn fns(&self) -> (fns: &ReplicationFns)
        ensures
            *fns == self.fns_spec(),
    {
        &self.fns
    }

    /// The registered rules.
    pub fn rules(&self) -> (rules: &ReplicationRules)
        ensures
            *rules == self.rules_spec(),
    {
        &self.rules
    }
}

impl Default for ReplicationSetup {
    fn default() -> (value: Self)
        ensures
            value.wf(),
            value.markers_spec().markers_spec().len() == 0,
            value.rules_spec().priorities().len() == 0,
            value.fns_spec().rules_spec().len() == 0,
    {
        Self::new()
    }
}

} // verus!
