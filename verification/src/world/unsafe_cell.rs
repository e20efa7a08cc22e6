//! A shared view of a world for systems that run side by side.

use vstd::prelude::*;
use crate::entity::storage::EntityStorage;
use crate::resource::storage::{NonSendResourceStorage, ResourceStorage};
use crate::world::World;

verus! {

/// View of a [`World`] in which all access goes through shared references.
/// Systems that run at the same time each hold one; what they may borrow
/// through it without failure is settled by the schedule, which puts no two
/// systems with conflicting parameters into one parallel step.
#[verifier::reject_recursive_types(V)]
pub struct UnsafeWorldCell<'w, V>(&'w World<V>);

impl<'w, V> UnsafeWorldCell<'w, V> {
    /// The world that the view belongs to.
    pub closed spec fn target(&self) -> World<V> {
        *self.0
    }

    /// Creates a view of `world`.
    pub fn new(world: &'w World<V>) -> (cell: UnsafeWorldCell<'w, V>)
        ensures
            cell.target() == *world,
    {
        UnsafeWorldCell(world)
    }

    /// Returns a second view of the same world.
    pub fn duplicate(&self) -> (cell: UnsafeWorldCell<'w, V>)
        ensures
            cell.target() == self.target(),
    {
        UnsafeWorldCell(self.0)
    }

    /// Gets a reference to the world that the view belongs to.
    pub fn world(&self) -> (world: &'w World<V>)
        ensures
            *world == self.target(),
    {
        self.0
    }

    /// Retrieves the world's entity storage.
    pub fn entities(&self) -> (entities: &'w EntityStorage<V>)
        ensures
            *entities == self.target().entities,
    {
        &self.0.entities
    }

    /// Retrieves the world's resource storage.
    pub fn resources(&self) -> (resources: &'w ResourceStorage<V>)
        ensures
            *resources == self.target().resources,
    {
        &self.0.resources
    }

    /// Retrieves the world's storage of thread-bound resources.
    pub fn non_send_resources(&self) -> (resources: &'w NonSendResourceStorage<V>)
        ensures
            *resources == self.target().non_send_resources,
    {
        &self.0.non_send_resources
    }
}

} // verus!
