use vstd::prelude::*;

use crate::command_markers::CommandMarkerIndex;

verus! {

/// Handles of a pair of write and remove functions, as the application registered them.
#[derive(Clone, Copy, Debug, PartialEq, Eq, Structural)]
pub struct UntypedCommandFns {
    /// Handle of the function that writes a received component.
    pub write: u64,
    /// Handle of the function that removes a component.
    pub remove: u64,
}

/// Handle of the serialization functions of a replication rule, as the application
/// registered them.
#[derive(Clone, Copy, Debug, PartialEq, Eq, Structural)]
pub struct UntypedRuleFns(pub u64);

/// ID of replication functions for a component.
///
/// Can be obtained from [`ReplicationFns::register_rule_fns`].
#[derive(Clone, Copy, Debug, PartialEq, Eq, Structural, Hash)]
pub struct FnsId(pub usize);

/// IDs of registered replication functions and of their component.
#[derive(Clone, Copy, Debug, PartialEq, Eq, Structural)]
pub struct FnsInfo {
    component_id: usize,
    fns_id: FnsId,
}

impl FnsInfo {
    /// The component.
    pub closed spec fn component_id_spec(&self) -> usize {
        self.component_id
    }

    /// The replication functions.
    pub closed spec fn fns_id_spec(&self) -> FnsId {
        self.fns_id
    }

    /// The component.
    pub fn component_id(&self) -> (id: usize)
        ensures
            id == self.component_id_spec(),
    {
        self.component_id
    }

    /// The replication functions.
    pub fn fns_id(&self) -> (id: FnsId)
        ensures
            id == self.fns_id_spec(),
    {
        self.fns_id
    }
}

/// The index of the first marker, from `i` on, that the entity holds and that has
/// functions of its own.
pub open spec fn first_selected(
    markers: Seq<Option<UntypedCommandFns>>,
    contains: Seq<bool>,
    i: nat,
) -> Option<nat>
    decreases markers.len() - i,
{
    if i >= markers.len() || i >= contains.len() {
        None
    } else if contains[i as int] && markers[i as int] is Some {
        Some(i)
    } else {
        first_selected(markers, contains, i + 1)
    }
}

/// The functions that write or remove a component: those of the first selected marker, or
/// the default ones.
pub open spec fn selected_fns(
    commands: UntypedCommandFns,
    markers: Seq<Option<UntypedCommandFns>>,
    contains: Seq<bool>,
) -> UntypedCommandFns {
    match first_selected(markers, contains, 0) {
        Some(i) => markers[i as int]->Some_0,
        None => commands,
    }
}

/// Command functions of a component: the default ones and one optional slot per marker.
pub struct ComponentFns {
    commands: UntypedCommandFns,
    markers: Vec<Option<UntypedCommandFns>>,
}

impl ComponentFns {
    /// The functions used when no marker selects others.
    pub closed spec fn commands_spec(&self) -> UntypedCommandFns {
        self.commands
    }

    /// The functions of each marker slot, in marker order.
    pub closed spec fn markers_spec(&self) -> Seq<Option<UntypedCommandFns>> {
        self.markers@
    }

    /// Functions with the given defaults and `marker_slots` empty marker slots.
    pub fn new(commands: UntypedCommandFns, marker_slots: usize) -> (fns: Self)
        ensures
            fns.commands_spec() == commands,
            fns.markers_spec() == Seq::new(marker_slots as nat, |i: int| None::<UntypedCommandFns>),
    {
        let mut markers: Vec<Option<UntypedCommandFns>> = Vec::new();
        let mut i: usize = 0;
        while i < marker_slots
            invariant
                i <= marker_slots,
                markers@ == Seq::new(i as nat, |k: int| None::<UntypedCommandFns>),
            decreases marker_slots - i,
        {
            markers.push(None);
            i = i + 1;
            proof {
                assert(markers@ =~= Seq::new(i as nat, |k: int| None::<UntypedCommandFns>));
            }
        }
        ComponentFns { commands, markers }
    }

    /// Adds an empty slot for a newly registered marker at its position.
    pub fn add_marker_slot(&mut self, marker_id: CommandMarkerIndex)
        requires
            marker_id.0 <= old(self).markers_spec().len(),
        ensures
            final(self).markers_spec() == old(self).markers_spec().insert(marker_id.0 as int, None),
            final(self).commands_spec() == old(self).commands_spec(),
    {
        self.markers.insert(marker_id.0, None);
    }

    /// Assigns functions to the slot of a marker.
    pub fn set_marker_fns(&mut self, marker_id: CommandMarkerIndex, command_fns: UntypedCommandFns)
        requires
            marker_id.0 < old(self).markers_spec().len(),
        ensures
            final(self).markers_spec() == old(self).markers_spec().update(
                marker_id.0 as int,
                Some(command_fns),
            ),
            final(self).commands_spec() == old(self).commands_spec(),
    {
        self.markers.set(marker_id.0, Some(command_fns));
    }

    /// Sets the functions used when no marker selects others.
    pub fn set_command_fns(&mut self, command_fns: UntypedCommandFns)
        ensures
            final(self).commands_spec() == command_fns,
            final(self).markers_spec() == old(self).markers_spec(),
    {
        self.commands = command_fns;
    }

    /// The index of the first marker the entity holds that has functions of its own.
    fn find_selected(&self, entity_markers: &[bool]) -> (index: Option<usize>)
        ensures
            index matches Some(i) ==> first_selected(self.markers_spec(), entity_markers@, 0) == Some(
                i as nat,
            ) && i < self.markers_spec().len() && i < entity_markers@.len() && entity_markers@[i as int]
                && self.markers_spec()[i as int] is Some,
            index is None ==> first_selected(self.markers_spec(), entity_markers@, 0) is None,
    {
        let mut i: usize = 0;
        while i < self.markers.len() && i < entity_markers.len()
            invariant
                first_selected(self.markers@, entity_markers@, 0) == first_selected(
                    self.markers@,
                    entity_markers@,
                    i as nat,
                ),
            decreases self.markers@.len() - i,
        {
            if entity_markers[i] && self.markers[i].is_some() {
                return Some(i);
            }
            i = i + 1;
        }
        None
    }

    /// The functions that write this component on an entity holding the given markers: the
    /// first marker, in priority order, that the entity holds and that has functions of its
    /// own selects them; otherwise the default ones.
    pub fn write(&self, entity_markers: &[bool]) -> (fns: UntypedCommandFns)
        ensures
            fns == selected_fns(self.commands_spec(), self.markers_spec(), entity_markers@),
    {
        match self.find_selected(entity_markers) {
            Some(i) => match self.markers[i] {
                Some(fns) => fns,
                None => self.commands,
            },
            None => self.commands,
        }
    }

    /// The functions that remove this component, selected as for [`Self::write`].
    pub fn remove(&self, entity_markers: &[bool]) -> (fns: UntypedCommandFns)
        ensures
            fns == selected_fns(self.commands_spec(), self.markers_spec(), entity_markers@),
    {
        self.write(entity_markers)
    }

    /// The functions that write this component when the selected marker keeps history, or
    /// `None` when the received value is only consumed: with no selected marker, or one that
    /// does not need history.
    pub fn consume_or_write(&self, entity_markers: &[bool], need_history: &[bool]) -> (fns: Option<
        UntypedCommandFns,
    >)
        ensures
            fns == match first_selected(self.markers_spec(), entity_markers@, 0) {
                Some(i) => if i < need_history@.len() && need_history@[i as int] {
                    self.markers_spec()[i as int]
                } else {
                    None
                },
                None => None,
            },
    {
        match self.find_selected(entity_markers) {
            Some(i) => if i < need_history.len() && need_history[i] {
                self.markers[i]
            } else {
                None
            },
            None => None,
        }
    }
}

/// Stores the replication functions: command functions per component and serialization
/// functions per rule.
pub struct ReplicationFns {
    /// Functions of each replicated component, with the component; each component once.
    components: Vec<(ComponentFns, usize)>,
    /// Serialization functions of each rule, with the index of its component in
    /// `components`. A component may have several.
    rules: Vec<(UntypedRuleFns, usize)>,
    /// Number of registered markers.
    marker_slots: usize,
}

impl ReplicationFns {
    /// The components with functions, in registration order.
    pub closed spec fn component_ids(&self) -> Seq<usize> {
        self.components@.map_values(|c: (ComponentFns, usize)| c.1)
    }

    /// The command functions of the component at `index`.
    pub closed spec fn component_fns(&self, index: int) -> ComponentFns {
        self.components@[index].0
    }

    /// The registered rule functions, each with the index of its component.
    pub closed spec fn rules_spec(&self) -> Seq<(UntypedRuleFns, usize)> {
        self.rules@
    }

    /// The number of registered markers.
    pub closed spec fn marker_slots_spec(&self) -> nat {
        self.marker_slots as nat
    }

    /// Each component appears once, every component has one slot per marker, and every rule
    /// points at a component.
    pub open spec fn wf(&self) -> bool {
        &&& forall|i: int, j: int|
            0 <= i < j < self.component_ids().len() ==> self.component_ids()[i] != self.component_ids()[j]
        &&& forall|i: int|
            0 <= i < self.component_ids().len() ==> (#[trigger] self.component_fns(i)).markers_spec().len()
                == self.marker_slots_spec()
        &&& forall|i: int|
            0 <= i < self.rules_spec().len() ==> (#[trigger] self.rules_spec()[i]).1
                < self.component_ids().len()
    }

    /// Well-formedness only depends on the components, their slot counts, the rules and the
    /// number of markers.
    proof fn lemma_wf_kept(a: &Self, b: &Self)
        requires
            a.wf(),
            b.component_ids() == a.component_ids(),
            b.rules_spec() == a.rules_spec(),
            b.marker_slots == a.marker_slots,
            forall|i: int|
                0 <= i < a.component_ids().len() ==> (#[trigger] b.component_fns(i)).markers_spec().len()
                    == a.component_fns(i).markers_spec().len(),
        ensures
            b.wf(),
    {
        assert forall|x: int, y: int| 0 <= x < y < b.component_ids().len() implies b.component_ids()[x]
            != b.component_ids()[y] by {
            assert(a.component_ids()[x] != a.component_ids()[y]);
        }
        assert forall|k: int| 0 <= k < b.component_ids().len() implies (
        #[trigger] b.component_fns(k)).markers_spec().len() == b.marker_slots_spec() by {
            assert(a.component_fns(k).markers_spec().len() == a.marker_slots_spec());
        }
        assert forall|k: int| 0 <= k < b.rules_spec().len() implies (#[trigger] b.rules_spec()[k]).1
            < b.component_ids().len() by {
            assert(a.rules_spec()[k].1 < a.component_ids().len());
        }
    }

    /// No component, no rule, no marker.
    pub fn new() -> (fns: Self)
        ensures
            fns.wf(),
            fns.component_ids().len() == 0,
            fns.rules_spec().len() == 0,
            fns.marker_slots_spec() == 0,
    {
        let fns = ReplicationFns { components: Vec::new(), rules: Vec::new(), marker_slots: 0 };
        proof {
            assert(fns.component_ids() =~= Seq::empty());
        }
        fns
    }

    /// Adds a slot for a newly registered marker, at its position, to every component.
    pub fn register_marker(&mut self, marker_id: CommandMarkerIndex)
        requires
            old(self).wf(),
            marker_id.0 <= old(self).marker_slots_spec(),
            old(self).marker_slots_spec() < usize::MAX,
        ensures
            final(self).wf(),
            final(self).marker_slots_spec() == old(self).marker_slots_spec() + 1,
            final(self).component_ids() == old(self).component_ids(),
            final(self).rules_spec() == old(self).rules_spec(),
            forall|i: int|
                0 <= i < old(self).component_ids().len() ==> {
                    &&& (#[trigger] final(self).component_fns(i)).markers_spec()
                        == old(self).component_fns(i).markers_spec().insert(marker_id.0 as int, None)
                    &&& final(self).component_fns(i).commands_spec() == old(self).component_fns(
                        i,
                    ).commands_spec()
                },
    {
        self.marker_slots = self.marker_slots + 1;
        let mut i: usize = 0;
        while i < self.components.len()
            invariant
                i <= self.components@.len(),
                self.components@.len() == old(self).components@.len(),
                self.rules@ == old(self).rules@,
                self.marker_slots == old(self).marker_slots + 1,
                marker_id.0 <= old(self).marker_slots,
                old(self).wf(),
                forall|k: int|
                    0 <= k < self.components@.len() ==> #[trigger] self.components@[k].1
                        == old(self).components@[k].1,
                forall|k: int|
                    0 <= k < i ==> {
                        &&& (#[trigger] self.components@[k]).0.markers_spec()
                            == old(self).components@[k].0.markers_spec().insert(marker_id.0 as int, None)
                        &&& self.components@[k].0.commands_spec()
                            == old(self).components@[k].0.commands_spec()
                    },
                forall|k: int| i <= k < self.components@.len() ==> #[trigger] self.components@[k] == old(
                    self,
                ).components@[k],
            decreases self.components@.len() - i,
        {
            proof {
                assert(old(self).component_fns(i as int).markers_spec().len() == old(self).marker_slots);
            }
            self.components[i].0.add_marker_slot(marker_id);
            i = i + 1;
        }
        proof {
            assert(self.component_ids() =~= old(self).component_ids());
            assert forall|k: int| 0 <= k < self.component_ids().len() implies (
            #[trigger] self.component_fns(k)).markers_spec().len() == self.marker_slots_spec() by {
                assert(old(self).component_fns(k).markers_spec().len() == old(self).marker_slots);
            }
            assert forall|a: int, b: int| 0 <= a < b < self.component_ids().len() implies self.component_ids()[a]
                != self.component_ids()[b] by {
                assert(old(self).component_ids()[a] != old(self).component_ids()[b]);
            }
            assert forall|k: int| 0 <= k < self.rules_spec().len() implies (
            #[trigger] self.rules_spec()[k]).1 < self.component_ids().len() by {
                assert(old(self).rules_spec()[k].1 < old(self).component_ids().len());
            }
        }
    }

    /// Returns the index of the functions of a component, creating them with the given
    /// defaults when the component has none yet, and the component.
    pub fn init_component_fns(&mut self, component_id: usize, default_fns: UntypedCommandFns) -> (result: (
        usize,
        usize,
    ))
        requires
            old(self).wf(),
        ensures
            final(self).wf(),
            result.1 == component_id,
            result.0 < final(self).component_ids().len(),
            final(self).component_ids()[result.0 as int] == component_id,
            final(self).rules_spec() == old(self).rules_spec(),
            final(self).marker_slots_spec() == old(self).marker_slots_spec(),
            old(self).component_ids().contains(component_id) ==> {
                &&& final(self).component_ids() == old(self).component_ids()
                &&& old(self).component_ids()[result.0 as int] == component_id
                &&& forall|i: int|
                    0 <= i < old(self).component_ids().len() ==> #[trigger] final(self).component_fns(i)
                        == old(self).component_fns(i)
            },
            !old(self).component_ids().contains(component_id) ==> {
                &&& final(self).component_ids() == old(self).component_ids().push(component_id)
                &&& result.0 == old(self).component_ids().len()
                &&& forall|i: int|
                    0 <= i < old(self).component_ids().len() ==> #[trigger] final(self).component_fns(i)
                        == old(self).component_fns(i)
                &&& final(self).component_fns(result.0 as int).commands_spec() == default_fns
                &&& final(self).component_fns(result.0 as int).markers_spec() == Seq::new(
                    old(self).marker_slots_spec(),
                    |k: int| None::<UntypedCommandFns>,
                )
            },
    {
        let mut i: usize = 0;
        while i < self.components.len()
            invariant
                i <= self.components@.len(),
                self.components@ == old(self).components@,
                self.rules@ == old(self).rules@,
                self.marker_slots == old(self).marker_slots,
                old(self).wf(),
                forall|k: int| 0 <= k < i ==> #[trigger] self.components@[k].1 != component_id,
            decreases self.components@.len() - i,
        {
            if self.components[i].1 == component_id {
                proof {
                    assert(self.component_ids()[i as int] == component_id);
                    Self::lemma_wf_kept(old(self), self);
                }
                return (i, component_id);
            }
            i = i + 1;
        }
        proof {
            assert forall|k: int| 0 <= k < self.component_ids().len() implies #[trigger] self.component_ids()[k]
                != component_id by {
                assert(self.component_ids()[k] == self.components@[k].1);
            }
        }
        let fns = ComponentFns::new(default_fns, self.marker_slots);
        let index = self.components.len();
        self.components.push((fns, component_id));
        proof {
            assert(self.component_ids() =~= old(self).component_ids().push(component_id));
            assert forall|k: int| 0 <= k < self.component_ids().len() implies (
            #[trigger] self.component_fns(k)).markers_spec().len() == self.marker_slots_spec() by {
                if k < index {
                    assert(self.component_fns(k) == old(self).component_fns(k));
                }
            }
            assert forall|a: int, b: int| 0 <= a < b < self.component_ids().len() implies self.component_ids()[a]
                != self.component_ids()[b] by {
                if b < index {
                    assert(old(self).component_ids()[a] != old(self).component_ids()[b]);
                } else {
                    assert(old(self).component_ids()[a] != component_id);
                }
            }
            assert forall|k: int| 0 <= k < self.rules_spec().len() implies (
            #[trigger] self.rules_spec()[k]).1 < self.component_ids().len() by {
                assert(old(self).rules_spec()[k].1 < old(self).component_ids().len());
            }
        }
        (index, component_id)
    }

    /// Assigns write and remove functions to a marker for a component, creating the
    /// component's functions with the given defaults when it has none yet.
    ///
    /// The marker must have been registered with [`Self::register_marker`].
    pub fn set_marker_fns(
        &mut self,
        component_id: usize,
        default_fns: UntypedCommandFns,
        marker_id: CommandMarkerIndex,
        command_fns: UntypedCommandFns,
    )
        requires
            old(self).wf(),
            marker_id.0 < old(self).marker_slots_spec(),
        ensures
            final(self).wf(),
            final(self).rules_spec() == old(self).rules_spec(),
            final(self).marker_slots_spec() == old(self).marker_slots_spec(),
            final(self).component_ids() == if old(self).component_ids().contains(component_id) {
                old(self).component_ids()
            } else {
                old(self).component_ids().push(component_id)
            },
            exists|index: int|
                0 <= index < final(self).component_ids().len() && final(self).component_ids()[index]
                    == component_id && #[trigger] final(self).component_fns(index).markers_spec()[marker_id.0 as int]
                    == Some(command_fns),
    {
        let (index, _) = self.init_component_fns(component_id, default_fns);
        proof {
            assert(self.component_fns(index as int).markers_spec().len() == self.marker_slots);
        }
        let ghost before = *self;
        self.components[index].0.set_marker_fns(marker_id, command_fns);
        proof {
            assert(self.component_ids() =~= before.component_ids());
            assert forall|i: int| 0 <= i < before.component_ids().len() implies (
            #[trigger] self.component_fns(i)).markers_spec().len() == before.component_fns(i).markers_spec().len() by {
                if i != index {
                    assert(self.component_fns(i) == before.component_fns(i));
                }
            }
            Self::lemma_wf_kept(&before, self);
            assert(self.component_ids() =~= old(self).component_ids().push(component_id)
                || self.component_ids() =~= old(self).component_ids()) by {
                if old(self).component_ids().contains(component_id) {
                    assert(self.component_ids() =~= old(self).component_ids());
                }
            }
            assert(self.component_fns(index as int).markers_spec()[marker_id.0 as int] == Some(command_fns));
        }
    }

    /// Sets the default write and remove functions of a component.
    pub fn set_command_fns(
        &mut self,
        component_id: usize,
        default_fns: UntypedCommandFns,
        command_fns: UntypedCommandFns,
    )
        requires
            old(self).wf(),
        ensures
            final(self).wf(),
            final(self).rules_spec() == old(self).rules_spec(),
            final(self).marker_slots_spec() == old(self).marker_slots_spec(),
            final(self).component_ids() == if old(self).component_ids().contains(component_id) {
                old(self).component_ids()
            } else {
                old(self).component_ids().push(component_id)
            },
            exists|index: int|
                0 <= index < final(self).component_ids().len() && final(self).component_ids()[index]
                    == component_id && #[trigger] final(self).component_fns(index).commands_spec()
                    == command_fns,
    {
        let (index, _) = self.init_component_fns(component_id, default_fns);
        let ghost before = *self;
        self.components[index].0.set_command_fns(command_fns);
        proof {
            assert(self.component_ids() =~= before.component_ids());
            assert forall|i: int| 0 <= i < before.component_ids().len() implies (
            #[trigger] self.component_fns(i)).markers_spec().len() == before.component_fns(i).markers_spec().len() by {
                if i != index {
                    assert(self.component_fns(i) == before.component_fns(i));
                }
            }
            Self::lemma_wf_kept(&before, self);
            assert(self.component_ids() =~= old(self).component_ids().push(component_id)
                || self.component_ids() =~= old(self).component_ids()) by {
                if old(self).component_ids().contains(component_id) {
                    assert(self.component_ids() =~= old(self).component_ids());
                }
            }
            assert(self.component_fns(index as int).commands_spec() == command_fns);
        }
    }

    /// Registers serialization functions for a component and returns their ID.
    ///
    /// A component registered several times keeps one set of command functions.
    pub fn register_rule_fns(
        &mut self,
        component_id: usize,
        default_fns: UntypedCommandFns,
        rule_fns: UntypedRuleFns,
    ) -> (info: FnsInfo)
        requires
            old(self).wf(),
        ensures
            final(self).wf(),
            info.component_id_spec() == component_id,
            info.fns_id_spec().0 == old(self).rules_spec().len(),
            final(self).rules_spec().len() == old(self).rules_spec().len() + 1,
            final(self).rules_spec().drop_last() == old(self).rules_spec(),
            final(self).rules_spec().last().0 == rule_fns,
            final(self).component_ids()[final(self).rules_spec().last().1 as int] == component_id,
            final(self).component_ids() == if old(self).component_ids().contains(component_id) {
                old(self).component_ids()
            } else {
                old(self).component_ids().push(component_id)
            },
            final(self).marker_slots_spec() == old(self).marker_slots_spec(),
    {
        let (index, _) = self.init_component_fns(component_id, default_fns);
        let ghost before = *self;
        self.rules.push((rule_fns, index));
        proof {
            assert forall|k: int| 0 <= k < self.rules_spec().len() implies (
            #[trigger] self.rules_spec()[k]).1 < self.component_ids().len() by {
                if k < before.rules_spec().len() {
                    assert(self.rules_spec()[k] == before.rules_spec()[k]);
                }
            }
            assert forall|x: int, y: int| 0 <= x < y < self.component_ids().len() implies self.component_ids()[x]
                != self.component_ids()[y] by {
                assert(before.component_ids()[x] != before.component_ids()[y]);
            }
            assert forall|k: int| 0 <= k < self.component_ids().len() implies (
            #[trigger] self.component_fns(k)).markers_spec().len() == self.marker_slots_spec() by {
                assert(before.component_fns(k).markers_spec().len() == before.marker_slots_spec());
            }
            assert(self.rules@.drop_last() =~= old(self).rules@);
            if !old(self).component_ids().contains(component_id) {
                assert(self.component_ids()[index as int] == component_id);
            }
        }
        FnsInfo { component_id, fns_id: FnsId(self.rules.len() - 1) }
    }

    /// Returns the command functions of the component of a rule and the rule's serialization
    /// functions.
    ///
    /// The ID must come from this instance.
    pub fn get(&self, fns_id: FnsId) -> (fns: (&ComponentFns, UntypedRuleFns))
        requires
            self.wf(),
            fns_id.0 < self.rules_spec().len(),
        ensures
            *fns.0 == self.component_fns(self.rules_spec()[fns_id.0 as int].1 as int),
            fns.1 == self.rules_spec()[fns_id.0 as int].0,
    {
        let (rule_fns, index) = self.rules[fns_id.0];
        (&self.components[index].0, rule_fns)
    }

    /// The number of registered rule functions.
    pub fn rules_len(&self) -> (len: usize)
        ensures
            len == self.rules_spec().len(),
    {
        self.rules.len()
    }

    /// The number of components with command functions.
    pub fn components_len(&self) -> (len: usize)
        ensures
            len == self.component_ids().len(),
    {
        self.components.len()
    }
}

impl Default for ReplicationFns {
    fn default() -> (value: Self)
        ensures
            value.wf(),
            value.component_ids().len() == 0,
            value.rules_spec().len() == 0,
            value.marker_slots_spec() == 0,
    {
        Self::new()
    }
}

} // verus!
