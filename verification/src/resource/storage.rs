//! Storage for resources: at most one value for each type identity.

use vstd::prelude::*;
use atomic_refcell::AtomicRefCell;
use crate::resource::borrow::{
    cell_new, cell_try_borrow, cell_try_borrow_mut, check_free, check_free_mut, content_mut_of, content_of,
    exchange, NonSend, NonSendMut, Res, ResMut,
};
use crate::util::TypeData;

verus! {

/// One stored resource: its type and the cell that guards its value.
#[verifier::reject_recursive_types(V)]
pub struct ResourceSlot<V> {
    ty: TypeData,
    cell: AtomicRefCell<V>,
}

/// Maps type identities to resources. The values are borrowed under
/// run-time checks; which types are present changes only through exclusive
/// access.
#[verifier::reject_recursive_types(V)]
pub struct ResourceStorage<V> {
    slots: Vec<ResourceSlot<V>>,
}

/// The types of the given slots, in order.
pub closed spec fn slot_types<V>(slots: Seq<ResourceSlot<V>>) -> Seq<TypeData> {
    slots.map_values(|slot: ResourceSlot<V>| slot.ty)
}

impl<V> ResourceStorage<V> {
    /// No type has two resources.
    pub closed spec fn wf(&self) -> bool {
        slot_types(self.slots@).no_duplicates()
    }

    /// The types that have a resource, as a set.
    pub closed spec fn types(&self) -> Set<TypeData> {
        slot_types(self.slots@).to_set()
    }

    /// Creates a storage without resources.
    pub fn new() -> (storage: ResourceStorage<V>)
        ensures
            storage.wf(),
            storage.types() == Set::<TypeData>::empty(),
    {
        let storage = ResourceStorage { slots: Vec::new() };
        assert(slot_types(storage.slots@) =~= Seq::<TypeData>::empty());
        assert(storage.types() =~= Set::<TypeData>::empty());
        storage
    }

    fn position(&self, ty: TypeData) -> (found: Option<usize>)
        ensures
            match found {
                Some(i) => i < self.slots@.len() && self.slots@[i as int].ty == ty,
                None => !self.types().contains(ty),
            },
    {
        let mut i: usize = 0;
        while i < self.slots.len()
            invariant
                0 <= i <= self.slots@.len(),
                forall|j: int| 0 <= j < i ==> self.slots@[j].ty != ty,
            decreases self.slots@.len() - i,
        {
            if self.slots[i].ty == ty {
                return Some(i);
            }
            i = i + 1;
        }
        assert(!slot_types(self.slots@).contains(ty));
        None
    }

    /// Returns whether the storage contains a resource of type `ty`.
    pub fn contains(&self, ty: TypeData) -> (present: bool)
        ensures
            present == self.types().contains(ty),
    {
        let found = self.position(ty);
        proof {
            if let Some(i) = found {
                assert(slot_types(self.slots@)[i as int] == ty);
            }
        }
        found.is_some()
    }

    /// Returns whether the storage contains no resources.
    pub fn is_empty(&self) -> (empty: bool)
        ensures
            empty == (self.types() == Set::<TypeData>::empty()),
    {
        proof {
            if self.slots@.len() > 0 {
                assert(slot_types(self.slots@)[0] == self.slots@[0].ty);
                assert(self.types().contains(self.slots@[0].ty));
            } else {
                assert(self.types() =~= Set::<TypeData>::empty());
            }
        }
        self.slots.len() == 0
    }

    /// Inserts a resource of type `ty`, and returns the resource that it
    /// replaces, if there was one. A replaced resource whose guard was
    /// leaked is dropped and not returned.
    pub fn insert(&mut self, ty: TypeData, resource: V) -> (previous: Option<V>)
        requires
            old(self).wf(),
        ensures
            final(self).wf(),
            previous is Some ==> old(self).types().contains(ty),
            final(self).types() == old(self).types().insert(ty),
    {
        match self.position(ty) {
            Some(i) => {
                proof {
                    assert(slot_types(self.slots@)[i as int] == ty);
                }
                let ghost before = self.slots@;
                let checked = check_free_mut(&mut self.slots[i].cell);
                let previous = match exchange(checked, resource) {
                    Ok(previous) => Some(previous),
                    Err(resource) => {
                        let mut cell = cell_new(resource);
                        core::mem::swap(&mut self.slots[i].cell, &mut cell);
                        None
                    },
                };
                proof {
                    assert(slot_types(self.slots@) =~= slot_types(before));
                    assert(self.types() =~= old(self).types().insert(ty));
                }
                previous
            },
            None => {
                let ghost before = self.slots@;
                self.slots.push(ResourceSlot { ty, cell: cell_new(resource) });
                proof {
                    assert(slot_types(self.slots@) =~= slot_types(before).push(ty));
                    assert(self.types() =~= old(self).types().insert(ty)) by {
                        assert forall|t: TypeData| self.types().contains(t) <==> old(self).types().insert(ty).contains(t) by {
                            if self.types().contains(t) {
                                let k = choose|k: int| 0 <= k < slot_types(self.slots@).len() && slot_types(self.slots@)[k] == t;
                                if k < before.len() {
                                    assert(slot_types(before)[k] == t);
                                }
                            }
                            if old(self).types().contains(t) {
                                let k = choose|k: int| 0 <= k < slot_types(before).len() && slot_types(before)[k] == t;
                                assert(slot_types(self.slots@)[k] == t);
                            }
                            if t == ty {
                                assert(slot_types(self.slots@)[before.len() as int] == t);
                            }
                        }
                    }
                }
                None
            },
        }
    }

    /// Removes the resource of type `ty`, and returns it, if there was one.
    /// A resource whose guard was leaked is dropped and not returned.
    pub fn remove(&mut self, ty: TypeData) -> (removed: Option<V>)
        requires
            old(self).wf(),
        ensures
            final(self).wf(),
            removed is Some ==> old(self).types().contains(ty),
            final(self).types() == old(self).types().remove(ty),
    {
        match self.position(ty) {
            Some(i) => {
                let ghost before = self.slots@;
                let slot = self.slots.remove(i);
                proof {
                    assert(slot_types(before)[i as int] == ty);
                    assert(slot_types(self.slots@) =~= slot_types(before).remove(i as int));
                    crate::util::lemma_first_index_unique(slot_types(before), i as int);
                    crate::util::lemma_without(slot_types(before), ty);
                    assert(self.types() =~= old(self).types().remove(ty));
                }
                content_of(check_free(slot.cell))
            },
            None => {
                assert(self.types() =~= old(self).types().remove(ty));
                None
            },
        }
    }

    /// Removes all resources.
    pub fn clear(&mut self)
        ensures
            final(self).wf(),
            final(self).types() == Set::<TypeData>::empty(),
    {
        self.slots.clear();
        assert(slot_types(self.slots@) =~= Seq::<TypeData>::empty());
        assert(self.types() =~= Set::<TypeData>::empty());
    }

    /// Borrows the resource of type `ty` for reading. There is no borrow
    /// where the type has no resource, or where the resource is borrowed
    /// exclusively at this moment.
    pub fn try_borrow(&self, ty: TypeData) -> (borrowed: Option<Res<'_, V>>)
        ensures
            borrowed is Some ==> self.types().contains(ty),
    {
        match self.position(ty) {
            Some(i) => {
                proof {
                    assert(slot_types(self.slots@)[i as int] == ty);
                }
                match cell_try_borrow(&self.slots[i].cell) {
                    Some(guard) => Some(Res(guard)),
                    None => None,
                }
            },
            None => None,
        }
    }

    /// Borrows the resource of type `ty` for writing. There is no borrow
    /// where the type has no resource, or where the resource is borrowed at
    /// this moment.
    pub fn try_borrow_mut(&self, ty: TypeData) -> (borrowed: Option<ResMut<'_, V>>)
        ensures
            borrowed is Some ==> self.types().contains(ty),
    {
        match self.position(ty) {
            Some(i) => {
                proof {
                    assert(slot_types(self.slots@)[i as int] == ty);
                }
                match cell_try_borrow_mut(&self.slots[i].cell) {
                    Some(guard) => Some(ResMut(guard)),
                    None => None,
                }
            },
            None => None,
        }
    }

    /// Gets a mutable reference to the resource of type `ty`, if there is
    /// one and no guard of it was leaked.
    pub fn try_get_mut(&mut self, ty: TypeData) -> (resource: Option<&mut V>)
        requires
            old(self).wf(),
        ensures
            final(self).wf(),
            final(self).types() == old(self).types(),
            resource is Some ==> old(self).types().contains(ty),
    {
        match self.position(ty) {
            Some(i) => {
                proof {
                    assert(slot_types(self.slots@)[i as int] == ty);
                }
                let ghost before = self.slots@;
                let value = content_mut_of(check_free_mut(&mut self.slots[i].cell));
                proof {
                    assert(slot_types(after_borrow(self.slots)@) =~= slot_types(before));
                }
                value
            },
            None => None,
        }
    }
}

/// Maps type identities to resources that stay on the thread that owns the
/// registry. It stores them as `ResourceStorage` does, and lends them out
/// as `NonSend` and `NonSendMut`.
#[verifier::reject_recursive_types(V)]
pub struct NonSendResourceStorage<V> {
    inner: ResourceStorage<V>,
}

impl<V> NonSendResourceStorage<V> {
    /// No type has two resources.
    pub closed spec fn wf(&self) -> bool {
        self.inner.wf()
    }

    /// The types that have a resource, as a set.
    pub closed spec fn types(&self) -> Set<TypeData> {
        self.inner.types()
    }

    /// Creates a storage without resources.
    pub fn new() -> (storage: NonSendResourceStorage<V>)
        ensures
            storage.wf(),
            storage.types() == Set::<TypeData>::empty(),
    {
        NonSendResourceStorage { inner: ResourceStorage::new() }
    }

    /// Returns whether the storage contains a resource of type `ty`.
    pub fn contains(&self, ty: TypeData) -> (present: bool)
        ensures
            present == self.types().contains(ty),
    {
        self.inner.contains(ty)
    }

    /// Returns whether the storage contains no resources.
    pub fn is_empty(&self) -> (empty: bool)
        ensures
            empty == (self.types() == Set::<TypeData>::empty()),
    {
        self.inner.is_empty()
    }

    /// Inserts a resource of type `ty`, and returns the resource that it
    /// replaces, if there was one. A replaced resource whose guard was
    /// leaked is dropped and not returned.
    pub fn insert(&mut self, ty: TypeData, resource: V) -> (previous: Option<V>)
        requires
            old(self).wf(),
        ensures
            final(self).wf(),
            previous is Some ==> old(self).types().contains(ty),
            final(self).types() == old(self).types().insert(ty),
    {
        self.inner.insert(ty, resource)
    }

    /// Removes the resource of type `ty`, and returns it, if there was one.
    /// A resource whose guard was leaked is dropped and not returned.
    pub fn remove(&mut self, ty: TypeData) -> (removed: Option<V>)
        requires
            old(self).wf(),
        ensures
            final(self).wf(),
            removed is Some ==> old(self).types().contains(ty),
            final(self).types() == old(self).types().remove(ty),
    {
        self.inner.remove(ty)
    }

    /// Removes all resources.
    pub fn clear(&mut self)
        ensures
            final(self).wf(),
            final(self).types() == Set::<TypeData>::empty(),
    {
        self.inner.clear()
    }

    /// Borrows the resource of type `ty` for reading. There is no borrow
    /// where the type has no resource, or where the resource is borrowed
    /// exclusively at this moment.
    pub fn try_borrow(&self, ty: TypeData) -> (borrowed: Option<NonSend<'_, V>>)
        ensures
            borrowed is Some ==> self.types().contains(ty),
    {
        match self.inner.try_borrow(ty) {
            Some(res) => Some(NonSend(res.0)),
            None => None,
        }
    }

    /// Borrows the resource of type `ty` for writing. There is no borrow
    /// where the type has no resource, or where the resource is borrowed at
    /// this moment.
    pub fn try_borrow_mut(&self, ty: TypeData) -> (borrowed: Option<NonSendMut<'_, V>>)
        ensures
            borrowed is Some ==> self.types().contains(ty),
    {
        match self.inner.try_borrow_mut(ty) {
            Some(res) => Some(NonSendMut(res.0)),
            None => None,
        }
    }

    /// Gets a mutable reference to the resource of type `ty`, if there is
    /// one and no guard of it was leaked.
    pub fn try_get_mut(&mut self, ty: TypeData) -> (resource: Option<&mut V>)
        requires
            old(self).wf(),
        ensures
            final(self).wf(),
            final(self).types() == old(self).types(),
            resource is Some ==> old(self).types().contains(ty),
    {
        self.inner.try_get_mut(ty)
    }
}

} // verus!
