use std::collections::HashSet;
use vstd::prelude::*;

use crate::replication_fns::FnsId;

verus! {

broadcast use vstd::std_specs::hash::group_hash_axioms;

/// Whether every component of `components` is in `archetype`.
pub open spec fn all_present(components: Seq<(usize, FnsId)>, archetype: Set<usize>) -> bool {
    forall|i: int| 0 <= i < components.len() ==> archetype.contains(#[trigger] components[i].0)
}

/// Whether a removal matches a rule: every component of the rule was removed or is still
/// there, and at least one was removed.
pub open spec fn removal_matches(
    components: Seq<(usize, FnsId)>,
    post_removal_archetype: Set<usize>,
    removed: Set<usize>,
) -> bool {
    &&& forall|i: int|
        0 <= i < components.len() ==> removed.contains(#[trigger] components[i].0)
            || post_removal_archetype.contains(components[i].0)
    &&& exists|i: int| 0 <= i < components.len() && removed.contains(#[trigger] components[i].0)
}

/// Components that replicate together, with their functions.
pub struct ReplicationRule {
    /// Priority of the rule: the number of its components; rules with more components take
    /// precedence for the components they share.
    pub priority: usize,
    /// The components of the rule with their serialization functions.
    pub components: Vec<(usize, FnsId)>,
}

impl ReplicationRule {
    /// A rule for the given components, whose priority is their number.
    pub fn new(components: Vec<(usize, FnsId)>) -> (rule: Self)
        ensures
            rule.priority == components@.len(),
            rule.components@ == components@,
    {
        ReplicationRule { priority: components.len(), components }
    }

    /// Whether an archetype holds every component of the rule.
    pub fn matches(&self, archetype: &HashSet<usize>) -> (matches: bool)
        ensures
            matches == all_present(self.components@, archetype@),
    {
        let mut i: usize = 0;
        while i < self.components.len()
            invariant
                i <= self.components@.len(),
                forall|k: int| 0 <= k < i ==> archetype@.contains(#[trigger] self.components@[k].0),
            decreases self.components@.len() - i,
        {
            if !archetype.contains(&self.components[i].0) {
                return false;
            }
            i = i + 1;
        }
        true
    }

    /// Whether the removal of `removed_components`, which leaves an entity with the
    /// components of `post_removal_archetype`, concerns this rule: some of its components were
    /// removed and all the others are still there.
    pub fn matches_removals(
        &self,
        post_removal_archetype: &HashSet<usize>,
        removed_components: &HashSet<usize>,
    ) -> (matches: bool)
        ensures
            matches == removal_matches(self.components@, post_removal_archetype@, removed_components@),
    {
        let mut matches = false;
        let mut i: usize = 0;
        while i < self.components.len()
            invariant
                i <= self.components@.len(),
                forall|k: int|
                    0 <= k < i ==> removed_components@.contains(#[trigger] self.components@[k].0)
                        || post_removal_archetype@.contains(self.components@[k].0),
                matches <==> exists|k: int|
                    0 <= k < i && removed_components@.contains(#[trigger] self.components@[k].0),
            decreases self.components@.len() - i,
        {
            let component_id = self.components[i].0;
            if removed_components.contains(&component_id) {
                matches = true;
            } else if !post_removal_archetype.contains(&component_id) {
                proof {
                    assert(!(removed_components@.contains(self.components@[i as int].0)
                        || post_removal_archetype@.contains(self.components@[i as int].0)));
                }
                return false;
            }
            i = i + 1;
        }
        matches
    }
}

/// Whether `rules` is sorted by priority, highest first.
pub open spec fn rules_sorted(priorities: Seq<usize>) -> bool {
    forall|i: int, j: int| 0 <= i < j < priorities.len() ==> priorities[i] >= priorities[j]
}

/// The number of priorities of at least `priority` at the front of a sorted list: where a
/// rule with that priority goes, after the rules it does not outrank.
pub open spec fn rule_insertion_index(priorities: Seq<usize>, priority: usize) -> int
    decreases priorities.len(),
{
    if priorities.len() == 0 {
        0
    } else if priorities.last() >= priority {
        priorities.len() as int
    } else {
        rule_insertion_index(priorities.drop_last(), priority)
    }
}

/// In a sorted list, the priorities before the insertion index are at least `priority` and
/// the others lower.
pub proof fn lemma_rule_insertion_index(priorities: Seq<usize>, priority: usize)
    requires
        rules_sorted(priorities),
    ensures
        0 <= rule_insertion_index(priorities, priority) <= priorities.len(),
        forall|i: int| 0 <= i < rule_insertion_index(priorities, priority) ==> priorities[i] >= priority,
        forall|i: int|
            rule_insertion_index(priorities, priority) <= i < priorities.len() ==> priorities[i] < priority,
    decreases priorities.len(),
{
    if priorities.len() > 0 {
        let last = priorities.len() - 1;
        if priorities.last() < priority {
            let rest = priorities.drop_last();
            lemma_rule_insertion_index(rest, priority);
            assert forall|i: int| 0 <= i < rule_insertion_index(priorities, priority) implies priorities[i]
                >= priority by {
                assert(priorities[i] == rest[i]);
            }
            assert forall|i: int|
                rule_insertion_index(priorities, priority) <= i < priorities.len() implies priorities[i]
                < priority by {
                if i < last {
                    assert(priorities[i] == rest[i]);
                }
            }
        } else {
            assert forall|i: int| 0 <= i < rule_insertion_index(priorities, priority) implies priorities[i]
                >= priority by {
                if i < last {
                    assert(priorities[i] >= priorities[last]);
                }
            }
        }
    }
}

/// All replication rules, sorted by priority, highest first.
pub struct ReplicationRules(Vec<ReplicationRule>);

impl ReplicationRules {
    /// The priorities of the rules, in order.
    pub closed spec fn priorities(&self) -> Seq<usize> {
        self.0@.map_values(|rule: ReplicationRule| rule.priority)
    }

    /// The components of each rule, in order.
    pub closed spec fn components_spec(&self) -> Seq<Seq<(usize, FnsId)>> {
        self.0@.map_values(|rule: ReplicationRule| rule.components@)
    }

    /// The rules are sorted by priority.
    pub open spec fn wf(&self) -> bool {
        &&& rules_sorted(self.priorities())
        &&& self.priorities().len() == self.components_spec().len()
    }

    /// No rule.
    pub fn new() -> (rules: Self)
        ensures
            rules.wf(),
            rules.priorities().len() == 0,
    {
        let rules = ReplicationRules(Vec::new());
        proof {
            assert(rules.priorities() =~= Seq::empty());
            assert(rules.components_spec() =~= Seq::empty());
        }
        rules
    }

    /// Inserts a rule, keeping the rules sorted by priority; a rule goes after those of the
    /// same priority inserted before it.
    pub fn insert(&mut self, rule: ReplicationRule)
        requires
            old(self).wf(),
        ensures
            final(self).wf(),
            final(self).priorities() == old(self).priorities().insert(
                rule_insertion_index(old(self).priorities(), rule.priority),
                rule.priority,
            ),
            final(self).components_spec() == old(self).components_spec().insert(
                rule_insertion_index(old(self).priorities(), rule.priority),
                rule.components@,
            ),
    {
        let ghost priorities = self.priorities();
        proof {
            lemma_rule_insertion_index(priorities, rule.priority);
        }
        let ghost target = rule_insertion_index(priorities, rule.priority);
        let mut low: usize = 0;
        let mut high: usize = self.0.len();
        while low < high
            invariant
                0 <= low <= high <= self.0@.len(),
                self.0@ == old(self).0@,
                priorities == self.priorities(),
                low <= target <= high,
                forall|i: int| 0 <= i < target ==> priorities[i] >= rule.priority,
                forall|i: int| target <= i < priorities.len() ==> priorities[i] < rule.priority,
            decreases high - low,
        {
            let middle = low + (high - low) / 2;
            proof {
                assert(priorities[middle as int] == self.0@[middle as int].priority);
            }
            if self.0[middle].priority >= rule.priority {
                low = middle + 1;
            } else {
                high = middle;
            }
        }
        let ghost components = rule.components@;
        let ghost priority = rule.priority;
        self.0.insert(low, rule);
        proof {
            assert(self.priorities() =~= priorities.insert(target, priority));
            assert(self.components_spec() =~= old(self).components_spec().insert(target, components));
            let p = self.priorities();
            assert forall|i: int, j: int| 0 <= i < j < p.len() implies p[i] >= p[j] by {
                if j < low {
                    assert(p[i] == priorities[i] && p[j] == priorities[j]);
                } else if j == low {
                    assert(p[i] == priorities[i]);
                } else if i == low {
                    assert(p[j] == priorities[j - 1]);
                } else if i < low {
                    assert(p[i] == priorities[i] && p[j] == priorities[j - 1]);
                } else {
                    assert(p[i] == priorities[i - 1] && p[j] == priorities[j - 1]);
                }
            }
        }
    }

    /// The rules, highest priority first.
    pub fn rules(&self) -> (rules: &[ReplicationRule])
        ensures
            rules@.map_values(|rule: ReplicationRule| rule.priority) == self.priorities(),
            rules@.map_values(|rule: ReplicationRule| rule.components@) == self.components_spec(),
    {
        self.0.as_slice()
    }
}

impl Default for ReplicationRules {
    fn default() -> (value: Self)
        ensures
            value.wf(),
            value.priorities().len() == 0,
    {
        Self::new()
    }
}


/// Which removals concern a rule: removing every component of a non-empty rule does, whatever
/// is left; so does removing some of its components while the entity keeps the others; a
/// removal that leaves some component of the rule neither removed nor on the entity does not,
/// and neither does one that removes none of its components.
pub proof fn lemma_removal_matches(
    components: Seq<(usize, FnsId)>,
    post_removal_archetype: Set<usize>,
    removed: Set<usize>,
)
    ensures
        components.len() > 0 && (forall|i: int| 0 <= i < components.len() ==> removed.contains(#[trigger] components[i].0))
            ==> removal_matches(components, post_removal_archetype, removed),
        (exists|i: int| 0 <= i < components.len() && removed.contains(#[trigger] components[i].0)) && (forall|i: int|
            0 <= i < components.len() && !removed.contains(#[trigger] components[i].0)
                ==> post_removal_archetype.contains(components[i].0)) ==> removal_matches(
            components,
            post_removal_archetype,
            removed,
        ),
        (exists|i: int|
            0 <= i < components.len() && !removed.contains(#[trigger] components[i].0)
                && !post_removal_archetype.contains(components[i].0)) ==> !removal_matches(
            components,
            post_removal_archetype,
            removed,
        ),
        (forall|i: int| 0 <= i < components.len() ==> !removed.contains(#[trigger] components[i].0))
            ==> !removal_matches(components, post_removal_archetype, removed),
{
    if components.len() > 0 && (forall|i: int| 0 <= i < components.len() ==> removed.contains(#[trigger] components[i].0)) {
        assert(removed.contains(components[0].0));
    }
}

} // verus!
