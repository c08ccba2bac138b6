//! What the kinds of data have in common.

use crate::state::StateSystem;
use vstd::prelude::*;

verus! {

/// Marks a type whose values a module holds as its own data.
pub trait Entity {

}

/// A value that can bring the data of its module up to date.
pub trait UpdateConfig<T: Entity> {
    /// Whether `after` is `before` brought up to date with this value.
    spec fn updates(&self, before: T, after: T) -> bool;

    /// Brings `entity` up to date with this value. The store is not
    /// touched.
    fn update(&self, entity: &mut T)
        ensures
            self.updates(*old(entity), *final(entity)),
    ;
}

/// A value that can be carried over to the store.
pub trait SyncData {
    /// What is published when the value needs work from other modules.
    type Event;

    /// Whether `after` is the store `before` with this value carried over.
    spec fn synced(&self, before: StateSystem, after: StateSystem) -> bool;

    /// Whether `event` is what this value publishes.
    spec fn announces(&self, event: Self::Event) -> bool;

    /// Carries the value over to the store.
    fn sync_data(&self, state: &mut StateSystem)
        ensures
            self.synced(*old(state), *final(state)),
    ;

    /// The event to publish for this value.
    fn publish_sync_event(&self) -> (event: Self::Event)
        ensures
            self.announces(event),
    ;
}

/// A value that can be added to the data of its module.
pub trait Registerable<T: Entity> {
    /// Whether `after` is `before` with this value added.
    spec fn registers(&self, before: T, after: T) -> bool;

    /// Adds the value to `entity`.
    fn add_to_self_module(&self, entity: &mut T)
        ensures
            self.registers(*old(entity), *final(entity)),
    ;
}

} // verus!
