//! Targets of triggers sent over the network.

use vstd::prelude::*;

use crate::entity::Entity;

verus! {

/// Entities a remote trigger targets; unlike local triggers, the targets of a remote trigger
/// can only be entities.
pub trait RemoteTargets {
    /// The entities these targets stand for, in order.
    spec fn target_entities(&self) -> Seq<Entity>;

    /// Entities the trigger should target.
    fn into_entities(self) -> (entities: Vec<Entity>)
        ensures
            entities@ == self.target_entities(),
    ;
}

impl RemoteTargets for Entity {
    open spec fn target_entities(&self) -> Seq<Entity> {
        seq![*self]
    }

    fn into_entities(self) -> (entities: Vec<Entity>) {
        vec![self]
    }
}

impl RemoteTargets for Vec<Entity> {
    open spec fn target_entities(&self) -> Seq<Entity> {
        self@
    }

    fn into_entities(self) -> (entities: Vec<Entity>) {
        self
    }
}

impl<const N: usize> RemoteTargets for [Entity; N] {
    open spec fn target_entities(&self) -> Seq<Entity> {
        self@
    }

    fn into_entities(self) -> (entities: Vec<Entity>) {
        vstd::slice::slice_to_vec(vstd::array::array_as_slice(&self))
    }
}

impl<'a> RemoteTargets for &'a [Entity] {
    open spec fn target_entities(&self) -> Seq<Entity> {
        (*self)@
    }

    fn into_entities(self) -> (entities: Vec<Entity>) {
        vstd::slice::slice_to_vec(self)
    }
}

/// A trigger as it travels between client and server: the event with every entity it targets.
pub struct RemoteTrigger<E> {
    /// The triggered event.
    pub event: E,
    /// The entities the event targets.
    pub targets: Vec<Entity>,
}

impl<E> RemoteTrigger<E> {
    /// A trigger of `event` for `targets`.
    pub fn new<T: RemoteTargets>(event: E, targets: T) -> (trigger: Self)
        ensures
            trigger.event == event,
            trigger.targets@ == targets.target_entities(),
    {
        RemoteTrigger { event, targets: targets.into_entities() }
    }
}

} // verus!
