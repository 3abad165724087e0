use std::collections::HashSet;
use vstd::prelude::*;

verus! {

broadcast use vstd::std_specs::hash::group_hash_axioms;

/// A registered marker: the component that marks entities and its priority.
#[derive(Clone, Copy, Debug, PartialEq, Eq, Structural)]
pub struct CommandMarker {
    /// Index of the marker component.
    pub component_id: usize,
    /// Markers with a higher priority take precedence.
    pub priority: usize,
}

/// Position of a marker among the registered markers.
#[derive(Clone, Copy, Debug, PartialEq, Eq, Structural)]
pub struct CommandMarkerIndex(pub usize);

/// Whether `markers` is sorted by priority, highest first.
pub open spec fn sorted_by_priority(markers: Seq<CommandMarker>) -> bool {
    forall|i: int, j: int| 0 <= i < j < markers.len() ==> markers[i].priority >= markers[j].priority
}

/// The number of markers with a priority of at least `priority`: where a new marker with that
/// priority goes, after the markers it does not outrank.
pub open spec fn insertion_index(markers: Seq<CommandMarker>, priority: usize) -> int
    decreases markers.len(),
{
    if markers.len() == 0 {
        0
    } else if markers.last().priority >= priority {
        markers.len() as int
    } else {
        insertion_index(markers.drop_last(), priority)
    }
}

/// In a list sorted by priority, the markers before the insertion index have a priority of at
/// least `priority` and those from it on a lower one.
pub proof fn lemma_insertion_index(markers: Seq<CommandMarker>, priority: usize)
    requires
        sorted_by_priority(markers),
    ensures
        0 <= insertion_index(markers, priority) <= markers.len(),
        forall|i: int| 0 <= i < insertion_index(markers, priority) ==> markers[i].priority >= priority,
        forall|i: int|
            insertion_index(markers, priority) <= i < markers.len() ==> markers[i].priority < priority,
    decreases markers.len(),
{
    if markers.len() > 0 {
        let last = markers.len() - 1;
        if markers.last().priority < priority {
            let rest = markers.drop_last();
            lemma_insertion_index(rest, priority);
            assert forall|i: int| 0 <= i < insertion_index(markers, priority) implies markers[i].priority
                >= priority by {
                assert(markers[i] == rest[i]);
            }
            assert forall|i: int|
                insertion_index(markers, priority) <= i < markers.len() implies markers[i].priority
                < priority by {
                if i < last {
                    assert(markers[i] == rest[i]);
                }
            }
        } else {
            assert forall|i: int| 0 <= i < insertion_index(markers, priority) implies markers[i].priority
                >= priority by {
                if i < last {
                    assert(markers[i].priority >= markers[last].priority);
                }
            }
        }
    }
}

/// The position of the first marker for `component_id`, or the length of `markers` when
/// there is none.
pub open spec fn first_marker_with(markers: Seq<CommandMarker>, component_id: usize) -> int
    decreases markers.len(),
{
    if markers.len() == 0 || markers[0].component_id == component_id {
        0
    } else {
        1 + first_marker_with(markers.drop_first(), component_id)
    }
}

/// The first position holding a marker for `component_id` is [`first_marker_with`].
pub proof fn lemma_first_marker_with(markers: Seq<CommandMarker>, component_id: usize, i: int)
    requires
        0 <= i < markers.len(),
        markers[i].component_id == component_id,
        forall|k: int| 0 <= k < i ==> #[trigger] markers[k].component_id != component_id,
    ensures
        first_marker_with(markers, component_id) == i,
    decreases i,
{
    if i > 0 {
        let rest = markers.drop_first();
        assert forall|k: int| 0 <= k < i - 1 implies #[trigger] rest[k].component_id != component_id by {
            assert(rest[k] == markers[k + 1]);
        }
        assert(markers[0].component_id != component_id);
        lemma_first_marker_with(rest, component_id, i - 1);
    }
}

/// Registered markers that select other command functions when present, sorted by priority,
/// highest first.
pub struct CommandMarkers(Vec<CommandMarker>);

impl CommandMarkers {
    /// The registered markers, in order.
    pub closed spec fn markers_spec(&self) -> Seq<CommandMarker> {
        self.0@
    }

    /// The markers are sorted by priority.
    pub open spec fn wf(&self) -> bool {
        sorted_by_priority(self.markers_spec())
    }

    /// No registered marker.
    pub fn new() -> (markers: Self)
        ensures
            markers.wf(),
            markers.markers_spec().len() == 0,
    {
        CommandMarkers(Vec::new())
    }

    /// Inserts a marker, keeping the markers sorted by priority; a marker goes after those of
    /// the same priority registered before it.
    ///
    /// Returns the position of the new marker.
    pub fn insert(&mut self, marker: CommandMarker) -> (index: CommandMarkerIndex)
        requires
            old(self).wf(),
        ensures
            final(self).wf(),
            index.0 == insertion_index(old(self).markers_spec(), marker.priority),
            final(self).markers_spec() == old(self).markers_spec().insert(index.0 as int, marker),
    {
        proof {
            lemma_insertion_index(self.0@, marker.priority);
        }
        let mut low: usize = 0;
        let mut high: usize = self.0.len();
        let ghost target = insertion_index(self.0@, marker.priority);
        while low < high
            invariant
                0 <= low <= high <= self.0@.len(),
                self.0@ == old(self).0@,
                low <= target <= high,
                target == insertion_index(self.0@, marker.priority),
                forall|i: int| 0 <= i < target ==> self.0@[i].priority >= marker.priority,
                forall|i: int| target <= i < self.0@.len() ==> self.0@[i].priority < marker.priority,
            decreases high - low,
        {
            let middle = low + (high - low) / 2;
            if self.0[middle].priority >= marker.priority {
                low = middle + 1;
            } else {
                high = middle;
            }
        }
        self.0.insert(low, marker);
        proof {
            let markers = self.0@;
            assert forall|i: int, j: int| 0 <= i < j < markers.len() implies markers[i].priority
                >= markers[j].priority by {
                let old_markers = old(self).0@;
                if j < low {
                    assert(markers[i] == old_markers[i] && markers[j] == old_markers[j]);
                } else if j == low {
                    assert(markers[i] == old_markers[i]);
                } else if i == low {
                    assert(markers[j] == old_markers[j - 1]);
                } else if i < low {
                    assert(markers[i] == old_markers[i] && markers[j] == old_markers[j - 1]);
                } else {
                    assert(markers[i] == old_markers[i - 1] && markers[j] == old_markers[j - 1]);
                }
            }
        }
        CommandMarkerIndex(low)
    }

    /// Returns the position of the marker registered for a component.
    ///
    /// The marker must have been registered.
    pub fn marker_id(&self, component_id: usize) -> (index: CommandMarkerIndex)
        requires
            exists|i: int|
                0 <= i < self.markers_spec().len() && #[trigger] self.markers_spec()[i].component_id
                    == component_id,
        ensures
            index.0 < self.markers_spec().len(),
            self.markers_spec()[index.0 as int].component_id == component_id,
            forall|i: int| 0 <= i < index.0 ==> #[trigger] self.markers_spec()[i].component_id != component_id,
    {
        let mut i: usize = 0;
        while i < self.0.len()
            invariant
                i <= self.0@.len(),
                forall|k: int| 0 <= k < i ==> #[trigger] self.0@[k].component_id != component_id,
            decreases self.0@.len() - i,
        {
            if self.0[i].component_id == component_id {
                return CommandMarkerIndex(i);
            }
            i = i + 1;
        }
        proof {
            let w = choose|k: int|
                0 <= k < self.markers_spec().len() && #[trigger] self.markers_spec()[k].component_id
                    == component_id;
            assert(self.0@[w].component_id != component_id);
        }
        CommandMarkerIndex(0)
    }

    /// For each marker, in order, whether an entity with the given components holds it.
    pub fn iter_contains(&self, entity_components: &HashSet<usize>) -> (contains: Vec<bool>)
        ensures
            contains@.len() == self.markers_spec().len(),
            forall|i: int|
                0 <= i < contains@.len() ==> #[trigger] contains@[i] == entity_components@.contains(
                    self.markers_spec()[i].component_id,
                ),
    {
        let mut contains: Vec<bool> = Vec::new();
        let mut i: usize = 0;
        while i < self.0.len()
            invariant
                i <= self.0@.len(),
                contains@.len() == i,
                forall|k: int|
                    0 <= k < i ==> #[trigger] contains@[k] == entity_components@.contains(
                        self.0@[k].component_id,
                    ),
            decreases self.0@.len() - i,
        {
            contains.push(entity_components.contains(&self.0[i].component_id));
            i = i + 1;
        }
        contains
    }

    /// The registered markers, highest priority first.
    pub fn markers(&self) -> (markers: &[CommandMarker])
        ensures
            markers@ == self.markers_spec(),
    {
        self.0.as_slice()
    }
}

impl Default for CommandMarkers {
    fn default() -> (value: Self)
        ensures
            value.wf(),
            value.markers_spec().len() == 0,
    {
        Self::new()
    }
}

} // verus!
