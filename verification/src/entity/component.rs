//! Storage for the components of one type, and the views that systems
//! borrow over it.

use vstd::prelude::*;
use atomic_refcell::{AtomicRef, AtomicRefCell, AtomicRefMut};
use crate::entity::entity::Entity;
use crate::resource::borrow::{
    cell_new, cell_try_borrow, cell_try_borrow_mut, check_free, check_free_mut, content_mut_of, content_of,
    exchange,
};
use crate::util::{lemma_first_index_unique, lemma_without, without, TypeData};

verus! {

/// One stored component: its entity and the cell that guards its value.
#[verifier::reject_recursive_types(V)]
pub struct ComponentSlot<V> {
    entity: Entity,
    cell: AtomicRefCell<V>,
}

/// The components of one type. Which entities have one changes only
/// through exclusive access; the values are borrowed under run-time checks.
#[verifier::reject_recursive_types(V)]
pub struct ComponentStorage<V> {
    ty: TypeData,
    slots: Vec<ComponentSlot<V>>,
    lock: AtomicRefCell<()>,
}

/// The entities of the given slots, in order.
pub closed spec fn slot_entities<V>(slots: Seq<ComponentSlot<V>>) -> Seq<Entity> {
    slots.map_values(|slot: ComponentSlot<V>| slot.entity)
}

impl<V> ComponentStorage<V> {
    /// The type of the stored components.
    pub closed spec fn ty(&self) -> TypeData {
        self.ty
    }

    /// The entities that have a component, in storage order.
    pub closed spec fn members(&self) -> Seq<Entity> {
        slot_entities(self.slots@)
    }

    /// No entity has two components.
    pub open spec fn wf(&self) -> bool {
        self.members().no_duplicates()
    }

    /// Creates an empty storage for components of type `ty`.
    pub fn new(ty: TypeData) -> (storage: ComponentStorage<V>)
        ensures
            storage.wf(),
            storage.ty() == ty,
            storage.members() == Seq::<Entity>::empty(),
    {
        let storage = ComponentStorage { ty, slots: Vec::new(), lock: cell_new(()) };
        assert(storage.members() =~= Seq::<Entity>::empty());
        storage
    }

    /// Returns the type of the stored components.
    pub fn type_data(&self) -> (ty: TypeData)
        ensures
            ty == self.ty(),
    {
        self.ty
    }

    /// Returns the number of stored components.
    pub fn len(&self) -> (len: usize)
        ensures
            len == self.members().len(),
    {
        self.slots.len()
    }

    /// Returns the entity of the component at `index`.
    pub fn entity_at(&self, index: usize) -> (entity: Entity)
        requires
            index < self.members().len(),
        ensures
            entity == self.members()[index as int],
    {
        self.slots[index].entity
    }

    /// Returns where the component of `entity` is stored, if it has one.
    pub fn position(&self, entity: Entity) -> (found: Option<usize>)
        ensures
            match found {
                Some(i) => i < self.members().len() && self.members()[i as int] == entity,
                None => !self.members().contains(entity),
            },
    {
        let mut i: usize = 0;
        while i < self.slots.len()
            invariant
                0 <= i <= self.slots@.len(),
                forall|j: int| 0 <= j < i ==> self.slots@[j].entity != entity,
            decreases self.slots@.len() - i,
        {
            if self.slots[i].entity == entity {
                return Some(i);
            }
            i = i + 1;
        }
        None
    }

    /// Returns whether `entity` has a component in this storage.
    pub fn contains(&self, entity: Entity) -> (present: bool)
        ensures
            present == self.members().contains(entity),
    {
        self.position(entity).is_some()
    }

    /// Gives `entity` the component `value`, and returns the component that
    /// it replaces, if the entity had one. A replaced component whose guard
    /// was leaked is dropped and not returned.
    pub fn insert(&mut self, entity: Entity, value: V) -> (previous: Option<V>)
        requires
            old(self).wf(),
        ensures
            final(self).wf(),
            final(self).ty() == old(self).ty(),
            previous is Some ==> old(self).members().contains(entity),
            final(self).members() == if old(self).members().contains(entity) {
                old(self).members()
            } else {
                old(self).members().push(entity)
            },
    {
        match self.position(entity) {
            Some(i) => {
                let ghost before = self.slots@;
                let checked = check_free_mut(&mut self.slots[i].cell);
                let previous = match exchange(checked, value) {
                    Ok(previous) => Some(previous),
                    Err(value) => {
                        let mut cell = cell_new(value);
                        core::mem::swap(&mut self.slots[i].cell, &mut cell);
                        None
                    },
                };
                proof {
                    assert(slot_entities(self.slots@) =~= slot_entities(before));
                }
                previous
            },
            None => {
                let ghost before = self.slots@;
                self.slots.push(ComponentSlot { entity, cell: cell_new(value) });
                proof {
                    assert(slot_entities(self.slots@) =~= slot_entities(before).push(entity));
                    assert forall|a: int, b: int| 0 <= a < self.members().len() && 0 <= b < self.members().len() && a != b implies self.members()[a] != self.members()[b] by {
                        if a < before.len() && b < before.len() {
                            assert(slot_entities(before)[a] != slot_entities(before)[b]);
                        } else if a < before.len() {
                            assert(slot_entities(before)[a] == before[a].entity);
                        } else {
                            assert(slot_entities(before)[b] == before[b].entity);
                        }
                    }
                }
                None
            },
        }
    }

    /// Takes the component of `entity` out of the storage, and returns it,
    /// if the entity had one. A component whose guard was leaked is dropped
    /// and not returned.
    pub fn remove(&mut self, entity: Entity) -> (removed: Option<V>)
        requires
            old(self).wf(),
        ensures
            final(self).wf(),
            final(self).ty() == old(self).ty(),
            removed is Some ==> old(self).members().contains(entity),
            final(self).members() == without(old(self).members(), entity),
    {
        match self.position(entity) {
            Some(i) => {
                let ghost before = self.slots@;
                let slot = self.slots.remove(i);
                proof {
                    assert(slot_entities(self.slots@) =~= slot_entities(before).remove(i as int));
                    lemma_first_index_unique(slot_entities(before), i as int);
                    lemma_without(slot_entities(before), entity);
                }
                content_of(check_free(slot.cell))
            },
            None => None,
        }
    }

    /// Removes all components.
    pub fn clear(&mut self)
        ensures
            final(self).wf(),
            final(self).ty() == old(self).ty(),
            final(self).members() == Seq::<Entity>::empty(),
    {
        self.slots.clear();
        assert(self.members() =~= Seq::<Entity>::empty());
    }

    /// Gets a mutable reference to the component of `entity`, if it has
    /// one and no guard of it was leaked.
    pub fn get_mut(&mut self, entity: Entity) -> (value: Option<&mut V>)
        ensures
            value is Some ==> old(self).members().contains(entity),
            final(self).ty() == old(self).ty(),
            final(self).members() == old(self).members(),
    {
        match self.position(entity) {
            Some(i) => {
                let ghost before = self.slots@;
                let value = content_mut_of(check_free_mut(&mut self.slots[i].cell));
                proof {
                    assert(slot_entities(after_borrow(self.slots)@) =~= slot_entities(before));
                }
                value
            },
            None => None,
        }
    }

    /// Borrows a shared view over the components. There is none while an
    /// exclusive view is alive.
    pub fn try_borrow(&self) -> (view: Option<Comp<'_, V>>)
        ensures
            view is Some ==> view->0.ty() == self.ty() && view->0.members() == self.members(),
    {
        match cell_try_borrow(&self.lock) {
            Some(guard) => Some(Comp { storage: self, guard }),
            None => None,
        }
    }

    /// Borrows an exclusive view over the components. There is none while
    /// another view is alive.
    pub fn try_borrow_mut(&self) -> (view: Option<CompMut<'_, V>>)
        ensures
            view is Some ==> view->0.ty() == self.ty() && view->0.members() == self.members(),
    {
        match cell_try_borrow_mut(&self.lock) {
            Some(guard) => Some(CompMut { storage: self, guard }),
            None => None,
        }
    }
}

/// Shared view over all components of one type.
#[verifier::reject_recursive_types(V)]
pub struct Comp<'a, V> {
    storage: &'a ComponentStorage<V>,
    guard: AtomicRef<'a, ()>,
}

/// Exclusive view over all components of one type.
#[verifier::reject_recursive_types(V)]
pub struct CompMut<'a, V> {
    storage: &'a ComponentStorage<V>,
    guard: AtomicRefMut<'a, ()>,
}

impl<'a, V> Comp<'a, V> {
    /// The type of the viewed components.
    pub closed spec fn ty(&self) -> TypeData {
        self.storage.ty()
    }

    /// The entities that have a component, in storage order.
    pub closed spec fn members(&self) -> Seq<Entity> {
        self.storage.members()
    }

    /// Returns the number of components in the view.
    pub fn len(&self) -> (len: usize)
        ensures
            len == self.members().len(),
    {
        self.storage.len()
    }

    /// Returns the entity of the component at `index`.
    pub fn entity_at(&self, index: usize) -> (entity: Entity)
        requires
            index < self.members().len(),
        ensures
            entity == self.members()[index as int],
    {
        self.storage.entity_at(index)
    }

    /// Returns whether `entity` has a component in the view.
    pub fn contains(&self, entity: Entity) -> (present: bool)
        ensures
            present == self.members().contains(entity),
    {
        self.storage.contains(entity)
    }

    /// Borrows the component of `entity` for reading. There is no borrow
    /// where the entity has no component, or where its value is borrowed
    /// exclusively at this moment.
    pub fn get(&self, entity: Entity) -> (value: Option<AtomicRef<'a, V>>)
        ensures
            value is Some ==> self.members().contains(entity),
    {
        match self.storage.position(entity) {
            Some(i) => cell_try_borrow(&self.storage.slots[i].cell),
            None => None,
        }
    }
}

impl<'a, V> CompMut<'a, V> {
    /// The type of the viewed components.
    pub closed spec fn ty(&self) -> TypeData {
        self.storage.ty()
    }

    /// The entities that have a component, in storage order.
    pub closed spec fn members(&self) -> Seq<Entity> {
        self.storage.members()
    }

    /// Returns the number of components in the view.
    pub fn len(&self) -> (len: usize)
        ensures
            len == self.members().len(),
    {
        self.storage.len()
    }

    /// Returns the entity of the component at `index`.
    pub fn entity_at(&self, index: usize) -> (entity: Entity)
        requires
            index < self.members().len(),
        ensures
            entity == self.members()[index as int],
    {
        self.storage.entity_at(index)
    }

    /// Returns whether `entity` has a component in the view.
    pub fn contains(&self, entity: Entity) -> (present: bool)
        ensures
            present == self.members().contains(entity),
    {
        self.storage.contains(entity)
    }

    /// Borrows the component of `entity` for reading. There is no borrow
    /// where the entity has no component, or where its value is borrowed
    /// exclusively at this moment.
    pub fn get(&self, entity: Entity) -> (value: Option<AtomicRef<'a, V>>)
        ensures
            value is Some ==> self.members().contains(entity),
    {
        match self.storage.position(entity) {
            Some(i) => cell_try_borrow(&self.storage.slots[i].cell),
            None => None,
        }
    }

    /// Borrows the component of `entity` for writing. There is no borrow
    /// where the entity has no component, or where its value is borrowed at
    /// this moment.
    pub fn get_mut(&mut self, entity: Entity) -> (value: Option<AtomicRefMut<'a, V>>)
        ensures
            value is Some ==> old(self).members().contains(entity),
            final(self).ty() == old(self).ty(),
            final(self).members() == old(self).members(),
    {
        match self.storage.position(entity) {
            Some(i) => cell_try_borrow_mut(&self.storage.slots[i].cell),
            None => None,
        }
    }
}

} // verus!
