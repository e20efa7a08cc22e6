//! The world containing both entities and resources.

pub mod unsafe_cell;

pub use self::unsafe_cell::UnsafeWorldCell;

use vstd::prelude::*;
use crate::entity::component::{Comp, CompMut};
use crate::entity::entity::{entity_at, fresh_entities, Entity, ATOMIC_BASE};
use crate::entity::layout::GroupLayout;
use crate::entity::storage::{attached, component_types, detached, extended, set_types, Entities, EntityStorage};
use crate::resource::borrow::{NonSend, NonSendMut, Res, ResMut};
use crate::resource::storage::{NonSendResourceStorage, ResourceStorage};
use crate::util::{without, TypeData};

verus! {

/// Storage for entities and resources.
#[verifier::reject_recursive_types(V)]
pub struct World<V> {
    /// Storage for entities.
    pub entities: EntityStorage<V>,
    /// Storage for resources.
    pub resources: ResourceStorage<V>,
    /// Storage for resources that stay on the owning thread.
    pub non_send_resources: NonSendResourceStorage<V>,
}

/// Create data from a [`World`].
pub trait FromWorld<V>: Sized {
    /// How the data and the world afterwards relate to the world before.
    /// A type that does not say so claims nothing.
    open spec fn made(before: World<V>, data: &Self, after: World<V>) -> bool {
        true
    }

    /// Create data from the given [`World`].
    fn from_world(world: &mut World<V>) -> (data: Self)
        requires
            old(world).wf(),
        ensures
            final(world).wf(),
            Self::made(*old(world), &data, *final(world)),
    ;
}

impl<V, T: Default> FromWorld<V> for T {
    /// The data is a default value of its type, and the world is left as it
    /// is.
    open spec fn made(before: World<V>, data: &T, after: World<V>) -> bool {
        after == before && call_ensures(T::default, (), *data)
    }

    fn from_world(world: &mut World<V>) -> (data: T) {
        T::default()
    }
}

impl<V> Default for World<V> {
    fn default() -> (world: World<V>)
        ensures
            world.wf(),
            world.entities.alive() == Seq::<Entity>::empty(),
            world.entities.next_index() == 0,
            world.entities.atomic_count() == 0,
            world.entities.maintain_count() == 0,
            world.entities.registered() == Set::<TypeData>::empty(),
            world.resources.types() == Set::<TypeData>::empty(),
            world.non_send_resources.types() == Set::<TypeData>::empty(),
    {
        World {
            entities: EntityStorage::empty(),
            resources: ResourceStorage::new(),
            non_send_resources: NonSendResourceStorage::new(),
        }
    }
}

impl<V> World<V> {
    /// The invariant of the world: that of each of its storages.
    pub open spec fn wf(&self) -> bool {
        &&& self.entities.wf()
        &&& self.resources.wf()
        &&& self.non_send_resources.wf()
    }

    /// Creates a new world with the given group layout.
    #[must_use]
    pub fn new(layout: &GroupLayout) -> (world: World<V>)
        ensures
            world.wf(),
            world.entities.alive() == Seq::<Entity>::empty(),
            world.entities.next_index() == 0,
            world.entities.atomic_count() == 0,
            world.entities.maintain_count() == 0,
            world.entities.registered() == layout.types(),
            forall|ty: TypeData| #[trigger] world.entities.members(ty) == Seq::<Entity>::empty(),
            world.resources.types() == Set::<TypeData>::empty(),
            world.non_send_resources.types() == Set::<TypeData>::empty(),
    {
        World {
            entities: EntityStorage::new(layout),
            resources: ResourceStorage::new(),
            non_send_resources: NonSendResourceStorage::new(),
        }
    }

    /// Creates a view of the world for systems that run side by side.
    pub fn as_unsafe_world_cell(&self) -> (cell: UnsafeWorldCell<'_, V>)
        ensures
            cell.target() == *self,
    {
        UnsafeWorldCell::new(self)
    }

    /// Returns whether the world contains no entities and no resources.
    #[must_use]
    pub fn is_empty(&self) -> (empty: bool)
        ensures
            empty == (self.entities.alive().len() == 0 && self.resources.types() == Set::<
                TypeData,
            >::empty() && self.non_send_resources.types() == Set::<TypeData>::empty()),
    {
        self.entities.is_empty() && self.resources.is_empty() && self.non_send_resources.is_empty()
    }

    /// Removes all entities and all resources from the storage.
    pub fn clear(&mut self)
        requires
            old(self).wf(),
        ensures
            final(self).wf(),
            final(self).entities.alive() == Seq::<Entity>::empty(),
            final(self).entities.next_index() == old(self).entities.next_index(),
            final(self).entities.atomic_count() >= old(self).entities.atomic_count(),
            final(self).entities.maintain_count() == old(self).entities.maintain_count(),
            final(self).entities.registered() == old(self).entities.registered(),
            forall|ty: TypeData| #[trigger] final(self).entities.members(ty) == Seq::<Entity>::empty(),
            final(self).resources.types() == Set::<TypeData>::empty(),
            final(self).non_send_resources.types() == Set::<TypeData>::empty(),
    {
        self.entities.clear();
        self.resources.clear();
        self.non_send_resources.clear();
    }

    /// Removes all entities and all resources from the storage and resets
    /// the entity allocator.
    ///
    /// After this call, the storage is allowed to return previously
    /// allocated entities.
    pub fn reset(&mut self)
        requires
            old(self).wf(),
        ensures
            final(self).wf(),
            final(self).entities.alive() == Seq::<Entity>::empty(),
            final(self).entities.next_index() == 0,
            final(self).entities.atomic_count() == 0,
            final(self).entities.maintain_count() == old(self).entities.maintain_count(),
            final(self).entities.registered() == old(self).entities.registered(),
            forall|ty: TypeData| #[trigger] final(self).entities.members(ty) == Seq::<Entity>::empty(),
            final(self).resources.types() == Set::<TypeData>::empty(),
            final(self).non_send_resources.types() == Set::<TypeData>::empty(),
    {
        self.entities.reset();
        self.resources.clear();
        self.non_send_resources.clear();
    }

    /// Sets a new `GroupLayout`: every component type that it names is
    /// registered.
    pub fn set_layout(&mut self, layout: &GroupLayout)
        requires
            old(self).wf(),
        ensures
            final(self).wf(),
            final(self).entities.alive() == old(self).entities.alive(),
            final(self).entities.next_index() == old(self).entities.next_index(),
            final(self).entities.atomic_count() == old(self).entities.atomic_count(),
            final(self).entities.maintain_count() == old(self).entities.maintain_count(),
            final(self).entities.registered() == old(self).entities.registered().union(layout.types()),
            forall|ty: TypeData| #[trigger] final(self).entities.members(ty) == old(self).entities.members(ty),
            final(self).resources == old(self).resources,
            final(self).non_send_resources == old(self).non_send_resources,
    {
        self.entities.set_layout(layout);
    }

    /// Registers a new component type.
    ///
    /// Returns whether the component was newly registered.
    pub fn register(&mut self, ty: TypeData) -> (added: bool)
        requires
            old(self).wf(),
        ensures
            final(self).wf(),
            added == !old(self).entities.registered().contains(ty),
            final(self).entities.registered() == old(self).entities.registered().insert(ty),
            final(self).entities.alive() == old(self).entities.alive(),
            final(self).entities.next_index() == old(self).entities.next_index(),
            final(self).entities.atomic_count() == old(self).entities.atomic_count(),
            final(self).entities.maintain_count() == old(self).entities.maintain_count(),
            forall|t: TypeData| #[trigger] final(self).entities.members(t) == old(self).entities.members(t),
            final(self).resources == old(self).resources,
            final(self).non_send_resources == old(self).non_send_resources,
    {
        self.entities.register(ty)
    }

    /// Returns whether the component type `ty` is registered.
    #[must_use]
    pub fn is_registered(&self, ty: TypeData) -> (registered: bool)
        ensures
            registered == self.entities.registered().contains(ty),
    {
        self.entities.is_registered(ty)
    }

    /// Creates a new entity with the given `components`. The components
    /// are left out unless every one of their types is registered.
    ///
    /// Returns the newly created entity.
    pub fn create(&mut self, components: Vec<(TypeData, V)>) -> (entity: Entity)
        requires
            old(self).wf(),
            old(self).entities.next_index() < ATOMIC_BASE,
        ensures
            final(self).wf(),
            entity.index == old(self).entities.next_index(),
            final(self).entities.alive() == old(self).entities.alive().push(entity),
            final(self).entities.next_index() == old(self).entities.next_index() + 1,
            final(self).entities.atomic_count() == old(self).entities.atomic_count(),
            final(self).entities.maintain_count() == old(self).entities.maintain_count(),
            final(self).entities.registered() == old(self).entities.registered(),
            forall|ty: TypeData|
                #[trigger] final(self).entities.members(ty) == attached(
                    old(self).entities.members(ty),
                    entity,
                    old(self).entities.all_registered(component_types(components@)) && component_types(
                        components@,
                    ).contains(ty),
                ),
            final(self).resources == old(self).resources,
            final(self).non_send_resources == old(self).non_send_resources,
    {
        self.entities.create(components)
    }

    /// Creates one new entity for each component set of `components`, in
    /// order.
    ///
    /// Returns the newly created entities, as they stand at the end of the
    /// stored ones.
    pub fn extend(&mut self, components: Vec<Vec<(TypeData, V)>>) -> (created: &[Entity])
        requires
            old(self).wf(),
            old(self).entities.next_index() + components@.len() <= ATOMIC_BASE,
        ensures
            final(self).wf(),
            created@ == fresh_entities(
                old(self).entities.next_index() as int,
                (old(self).entities.next_index() + components@.len()) as int,
            ),
            final(self).entities.alive() == old(self).entities.alive() + created@,
            final(self).entities.next_index() == old(self).entities.next_index() + components@.len(),
            final(self).entities.atomic_count() == old(self).entities.atomic_count(),
            final(self).entities.maintain_count() == old(self).entities.maintain_count(),
            final(self).entities.registered() == old(self).entities.registered(),
            forall|ty: TypeData|
                #[trigger] final(self).entities.members(ty) == extended(
                    old(self).entities.members(ty),
                    set_types(components@),
                    old(self).entities.next_index() as int,
                    old(self).entities.registered(),
                    ty,
                ),
            final(self).resources == old(self).resources,
            final(self).non_send_resources == old(self).non_send_resources,
    {
        self.entities.extend(components)
    }

    /// Creates a new entity without requiring exclusive access to the
    /// storage. The entity is not added to the storage until
    /// [`maintain`](Self::maintain) is called.
    ///
    /// Returns the newly created entity.
    pub fn create_atomic(&self) -> (entity: Entity)
        requires
            self.wf(),
        ensures
            exists|offset: u64|
                entity == #[trigger] entity_at((ATOMIC_BASE + self.entities.atomic_count()) as u64, offset),
            entity.index >= ATOMIC_BASE + self.entities.atomic_count(),
            !self.entities.alive().contains(entity),
    {
        self.entities.create_atomic()
    }

    /// Adds the given `components` to `entity` if `entity` is present in
    /// the storage and every type of `components` is registered.
    ///
    /// Returns whether the components were successfully added.
    pub fn insert(&mut self, entity: Entity, components: Vec<(TypeData, V)>) -> (added: bool)
        requires
            old(self).wf(),
        ensures
            final(self).wf(),
            added == (old(self).entities.alive().contains(entity) && old(self).entities.all_registered(
                component_types(components@),
            )),
            final(self).entities.alive() == old(self).entities.alive(),
            final(self).entities.next_index() == old(self).entities.next_index(),
            final(self).entities.atomic_count() == old(self).entities.atomic_count(),
            final(self).entities.maintain_count() == old(self).entities.maintain_count(),
            final(self).entities.registered() == old(self).entities.registered(),
            forall|ty: TypeData|
                #[trigger] final(self).entities.members(ty) == attached(
                    old(self).entities.members(ty),
                    entity,
                    added && component_types(components@).contains(ty),
                ),
            final(self).resources == old(self).resources,
            final(self).non_send_resources == old(self).non_send_resources,
    {
        self.entities.insert(entity, components)
    }

    /// Removes the components of the given `types` from `entity`.
    ///
    /// Returns, for each of `types` in order, the component that was
    /// removed, if the entity had one and no guard of it was leaked.
    #[must_use]
    pub fn remove(&mut self, entity: Entity, types: &[TypeData]) -> (removed: Vec<Option<V>>)
        requires
            old(self).wf(),
        ensures
            final(self).wf(),
            final(self).entities.alive() == old(self).entities.alive(),
            final(self).entities.next_index() == old(self).entities.next_index(),
            final(self).entities.atomic_count() == old(self).entities.atomic_count(),
            final(self).entities.maintain_count() == old(self).entities.maintain_count(),
            final(self).entities.registered() == old(self).entities.registered(),
            forall|ty: TypeData|
                #[trigger] final(self).entities.members(ty) == detached(
                    old(self).entities.members(ty),
                    entity,
                    types@.contains(ty),
                ),
            removed@.len() == types@.len(),
            forall|i: int|
                0 <= i < types@.len() ==> ((#[trigger] removed@[i]) is Some ==> old(self).entities.members(
                    types@[i],
                ).contains(entity) && !types@.take(i).contains(types@[i])),
            final(self).resources == old(self).resources,
            final(self).non_send_resources == old(self).non_send_resources,
    {
        self.entities.remove(entity, types)
    }

    /// Removes the components of the given `types` from `entity`.
    pub fn delete(&mut self, entity: Entity, types: &[TypeData])
        requires
            old(self).wf(),
        ensures
            final(self).wf(),
            final(self).entities.alive() == old(self).entities.alive(),
            final(self).entities.next_index() == old(self).entities.next_index(),
            final(self).entities.atomic_count() == old(self).entities.atomic_count(),
            final(self).entities.maintain_count() == old(self).entities.maintain_count(),
            final(self).entities.registered() == old(self).entities.registered(),
            forall|ty: TypeData|
                #[trigger] final(self).entities.members(ty) == detached(
                    old(self).entities.members(ty),
                    entity,
                    types@.contains(ty),
                ),
            final(self).resources == old(self).resources,
            final(self).non_send_resources == old(self).non_send_resources,
    {
        self.entities.delete(entity, types)
    }

    /// Removes the given `entity` and its components from the storage.
    ///
    /// Returns whether the `entity` was present in the storage.
    pub fn destroy(&mut self, entity: Entity) -> (destroyed: bool)
        requires
            old(self).wf(),
        ensures
            final(self).wf(),
            destroyed == old(self).entities.alive().contains(entity),
            final(self).entities.alive() == without(old(self).entities.alive(), entity),
            final(self).entities.next_index() == old(self).entities.next_index(),
            final(self).entities.atomic_count() == old(self).entities.atomic_count(),
            final(self).entities.maintain_count() == old(self).entities.maintain_count(),
            final(self).entities.registered() == old(self).entities.registered(),
            forall|ty: TypeData|
                #[trigger] final(self).entities.members(ty) == without(old(self).entities.members(ty), entity),
            final(self).resources == old(self).resources,
            final(self).non_send_resources == old(self).non_send_resources,
    {
        self.entities.destroy(entity)
    }

    /// Adds the entities allocated with
    /// [`create_atomic`](Self::create_atomic) to the storage.
    pub fn maintain(&mut self)
        requires
            old(self).wf(),
        ensures
            final(self).wf(),
            final(self).entities.maintain_count() == old(self).entities.maintain_count() + 1,
            final(self).entities.atomic_count() >= old(self).entities.atomic_count(),
            final(self).entities.alive() == old(self).entities.alive() + fresh_entities(
                ATOMIC_BASE + old(self).entities.atomic_count(),
                ATOMIC_BASE + final(self).entities.atomic_count(),
            ),
            final(self).entities.next_index() == old(self).entities.next_index(),
            final(self).entities.storages() == old(self).entities.storages(),
            final(self).resources == old(self).resources,
            final(self).non_send_resources == old(self).non_send_resources,
    {
        self.entities.maintain();
    }

    /// Returns whether `entity` is present in the storage.
    #[must_use]
    pub fn contains(&self, entity: Entity) -> (present: bool)
        ensures
            present == self.entities.alive().contains(entity),
    {
        self.entities.contains(entity)
    }

    /// Returns all entities in the storage.
    #[must_use]
    pub fn entities(&self) -> (entities: &[Entity])
        ensures
            entities@ == self.entities.alive(),
    {
        self.entities.entities()
    }

    /// Borrows a view over all entities in the storage.
    ///
    /// This view supports the creation of new entities without requiring
    /// exclusive access to the storage.
    #[must_use]
    pub fn borrow_entities(&self) -> (view: Entities<'_>)
        requires
            self.wf(),
        ensures
            view.wf(),
            view.alive() == self.entities.alive(),
            view.atomic_base() == ATOMIC_BASE + self.entities.atomic_count(),
    {
        self.entities.borrow_entities()
    }

    /// Borrows a shared view over all components of type `ty` in the
    /// storage. There is none where the type is not registered, or while an
    /// exclusive view over the type is alive.
    #[must_use]
    pub fn borrow(&self, ty: TypeData) -> (view: Option<Comp<'_, V>>)
        requires
            self.wf(),
        ensures
            view is Some ==> self.entities.registered().contains(ty) && view->0.ty() == ty
                && view->0.members() == self.entities.members(ty),
    {
        self.entities.borrow(ty)
    }

    /// Borrows an exclusive view over all components of type `ty` in the
    /// storage. There is none where the type is not registered, or while
    /// another view over the type is alive.
    #[must_use]
    pub fn borrow_mut(&self, ty: TypeData) -> (view: Option<CompMut<'_, V>>)
        requires
            self.wf(),
        ensures
            view is Some ==> self.entities.registered().contains(ty) && view->0.ty() == ty
                && view->0.members() == self.entities.members(ty),
    {
        self.entities.borrow_mut(ty)
    }

    /// Returns whether the storage contains a resource of type `ty`.
    pub fn contains_resource(&self, ty: TypeData) -> (present: bool)
        ensures
            present == self.resources.types().contains(ty),
    {
        self.resources.contains(ty)
    }

    /// Creates a resource from the world and inserts it under the type
    /// `ty`, into the world as the creation left it.
    ///
    /// Returns the previous resource, if any and no guard of it was leaked.
    pub fn init_resource(&mut self, ty: TypeData) -> (previous: Option<V>) where V: FromWorld<V>
        requires
            old(self).wf(),
        ensures
            final(self).wf(),
            final(self).resources.types().contains(ty),
            exists|made_world: World<V>, made: V|
                {
                    &&& #[trigger] V::made(*old(self), &made, made_world)
                    &&& made_world.wf()
                    &&& previous is Some ==> made_world.resources.types().contains(ty)
                    &&& final(self).resources.types() == made_world.resources.types().insert(ty)
                    &&& final(self).entities == made_world.entities
                    &&& final(self).non_send_resources == made_world.non_send_resources
                },
    {
        let resource = V::from_world(self);
        let ghost made = resource;
        let ghost made_world = *self;
        let previous = self.resources.insert(ty, resource);
        proof {
            assert(V::made(*old(self), &made, made_world));
        }
        previous
    }

    /// Inserts a new resource of type `ty` into the storage.
    ///
    /// Returns the previous resource, if any and no guard of it was leaked.
    pub fn insert_resource(&mut self, ty: TypeData, resource: V) -> (previous: Option<V>)
        requires
            old(self).wf(),
        ensures
            final(self).wf(),
            previous is Some ==> old(self).resources.types().contains(ty),
            final(self).resources.types() == old(self).resources.types().insert(ty),
            final(self).entities == old(self).entities,
            final(self).non_send_resources == old(self).non_send_resources,
    {
        self.resources.insert(ty, resource)
    }

    /// Removes the resource of type `ty` from the storage, if it exists.
    ///
    /// Returns the removed resource, if it was present and no guard of it
    /// was leaked.
    pub fn remove_resource(&mut self, ty: TypeData) -> (removed: Option<V>)
        requires
            old(self).wf(),
        ensures
            final(self).wf(),
            removed is Some ==> old(self).resources.types().contains(ty),
            final(self).resources.types() == old(self).resources.types().remove(ty),
            final(self).entities == old(self).entities,
            final(self).non_send_resources == old(self).non_send_resources,
    {
        self.resources.remove(ty)
    }

    /// Borrows the resource of type `ty` from the storage, if it exists
    /// and is not borrowed exclusively at this moment.
    #[must_use]
    pub fn try_resource(&self, ty: TypeData) -> (borrowed: Option<Res<'_, V>>)
        ensures
            borrowed is Some ==> self.resources.types().contains(ty),
    {
        self.resources.try_borrow(ty)
    }

    /// Mutably borrows the resource of type `ty` from the storage, if it
    /// exists and is not borrowed at this moment.
    #[must_use]
    pub fn try_resource_mut(&self, ty: TypeData) -> (borrowed: Option<ResMut<'_, V>>)
        ensures
            borrowed is Some ==> self.resources.types().contains(ty),
    {
        self.resources.try_borrow_mut(ty)
    }

    /// Gets a mutable reference to the resource of type `ty`, if it exists
    /// and no guard of it was leaked.
    pub fn get_resource(&mut self, ty: TypeData) -> (resource: Option<&mut V>)
        requires
            old(self).wf(),
        ensures
            final(self).wf(),
            resource is Some ==> old(self).resources.types().contains(ty),
            final(self).resources.types() == old(self).resources.types(),
            final(self).entities == old(self).entities,
            final(self).non_send_resources == old(self).non_send_resources,
    {
        self.resources.try_get_mut(ty)
    }

    /// Returns whether the storage contains a thread-bound resource of
    /// type `ty`.
    pub fn contains_non_send(&self, ty: TypeData) -> (present: bool)
        ensures
            present == self.non_send_resources.types().contains(ty),
    {
        self.non_send_resources.contains(ty)
    }

    /// Creates a thread-bound resource from the world and inserts it under
    /// the type `ty`, into the world as the creation left it.
    ///
    /// Returns the previous resource, if any and no guard of it was leaked.
    pub fn init_non_send(&mut self, ty: TypeData) -> (previous: Option<V>) where V: FromWorld<V>
        requires
            old(self).wf(),
        ensures
            final(self).wf(),
            final(self).non_send_resources.types().contains(ty),
            exists|made_world: World<V>, made: V|
                {
                    &&& #[trigger] V::made(*old(self), &made, made_world)
                    &&& made_world.wf()
                    &&& previous is Some ==> made_world.non_send_resources.types().contains(ty)
                    &&& final(self).non_send_resources.types() == made_world.non_send_resources.types().insert(ty)
                    &&& final(self).entities == made_world.entities
                    &&& final(self).resources == made_world.resources
                },
    {
        let resource = V::from_world(self);
        let ghost made = resource;
        let ghost made_world = *self;
        let previous = self.non_send_resources.insert(ty, resource);
        proof {
            assert(V::made(*old(self), &made, made_world));
        }
        previous
    }

    /// Inserts a new thread-bound resource of type `ty` into the storage.
    ///
    /// Returns the previous resource, if any and no guard of it was leaked.
    pub fn insert_non_send(&mut self, ty: TypeData, resource: V) -> (previous: Option<V>)
        requires
            old(self).wf(),
        ensures
            final(self).wf(),
            previous is Some ==> old(self).non_send_resources.types().contains(ty),
            final(self).non_send_resources.types() == old(self).non_send_resources.types().insert(ty),
            final(self).entities == old(self).entities,
            final(self).resources == old(self).resources,
    {
        self.non_send_resources.insert(ty, resource)
    }

    /// Removes the thread-bound resource of type `ty` from the storage, if
    /// it exists.
    ///
    /// Returns the removed resource, if it was present and no guard of it
    /// was leaked.
    pub fn remove_non_send(&mut self, ty: TypeData) -> (removed: Option<V>)
        requires
            old(self).wf(),
        ensures
            final(self).wf(),
            removed is Some ==> old(self).non_send_resources.types().contains(ty),
            final(self).non_send_resources.types() == old(self).non_send_resources.types().remove(ty),
            final(self).entities == old(self).entities,
            final(self).resources == old(self).resources,
    {
        self.non_send_resources.remove(ty)
    }

    /// Borrows the thread-bound resource of type `ty` from the storage, if
    /// it exists and is not borrowed exclusively at this moment.
    #[must_use]
    pub fn try_non_send(&self, ty: TypeData) -> (borrowed: Option<NonSend<'_, V>>)
        ensures
            borrowed is Some ==> self.non_send_resources.types().contains(ty),
    {
        self.non_send_resources.try_borrow(ty)
    }

    /// Mutably borrows the thread-bound resource of type `ty` from the
    /// storage, if it exists and is not borrowed at this moment.
    #[must_use]
    pub fn try_non_send_mut(&self, ty: TypeData) -> (borrowed: Option<NonSendMut<'_, V>>)
        ensures
            borrowed is Some ==> self.non_send_resources.types().contains(ty),
    {
        self.non_send_resources.try_borrow_mut(ty)
    }
}

} // verus!
