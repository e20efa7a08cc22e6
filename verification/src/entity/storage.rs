//! Storage for entities and their components.

use vstd::prelude::*;
use vstd::slice::slice_subrange;
use std::sync::atomic::AtomicU64;
use crate::entity::allocator::{new_counter, reserve, take_reserved};
use crate::entity::component::{Comp, CompMut, ComponentStorage};
use crate::entity::entity::{entity_at, entity_for, fresh_entities, Entity, ATOMIC_BASE, NULL_INDEX};
use crate::entity::layout::GroupLayout;
use crate::util::{first_index_of, lemma_first_index_of, lemma_first_index_unique, lemma_without, without, TypeData};

verus! {

/// The types of the given storages, in order.
pub open spec fn types_of<V>(storages: Seq<ComponentStorage<V>>) -> Seq<TypeData> {
    storages.map_values(|storage: ComponentStorage<V>| storage.ty())
}

/// The entities that have a component of type `ty` in the given storages.
pub open spec fn members_of<V>(storages: Seq<ComponentStorage<V>>, ty: TypeData) -> Seq<Entity> {
    match first_index_of(types_of(storages), ty) {
        Some(i) => storages[i].members(),
        None => Seq::empty(),
    }
}

/// `members` with `entity` added at the end, if `applies` and the entity is
/// not yet among them.
pub open spec fn attached(members: Seq<Entity>, entity: Entity, applies: bool) -> Seq<Entity> {
    if applies && !members.contains(entity) {
        members.push(entity)
    } else {
        members
    }
}

/// `members` without `entity`, if `applies`.
pub open spec fn detached(members: Seq<Entity>, entity: Entity, applies: bool) -> Seq<Entity> {
    if applies {
        without(members, entity)
    } else {
        members
    }
}

/// The types of the given components, in order.
pub open spec fn component_types<V>(components: Seq<(TypeData, V)>) -> Seq<TypeData> {
    components.map_values(|component: (TypeData, V)| component.0)
}

/// The type lists of the given component sets, in order.
pub open spec fn set_types<V>(sets: Seq<Vec<(TypeData, V)>>) -> Seq<Seq<TypeData>> {
    sets.map_values(|set: Vec<(TypeData, V)>| component_types(set@))
}

/// The members of one type after an entity was created for each of `sets`,
/// the first with the index `first`: an entity joins where its set names
/// the type `ty` and all the types of its set are registered.
pub open spec fn extended(
    members: Seq<Entity>,
    sets: Seq<Seq<TypeData>>,
    first: int,
    registered: Set<TypeData>,
    ty: TypeData,
) -> Seq<Entity>
    decreases sets.len(),
{
    if sets.len() == 0 {
        members
    } else {
        let last = sets.last();
        attached(
            extended(members, sets.drop_last(), first, registered, ty),
            Entity { index: (first + sets.len() - 1) as u64 },
            (forall|i: int| 0 <= i < last.len() ==> registered.contains(#[trigger] last[i])) && last.contains(ty),
        )
    }
}

/// Whether an index lies in one of the two ranges from which entities have
/// been handed out and stored.
pub open spec fn index_in_use(index: u64, next: nat, atomic_next: nat) -> bool {
    index < next || ATOMIC_BASE <= index < ATOMIC_BASE + atomic_next
}

proof fn lemma_lookup<V>(storages: Seq<ComponentStorage<V>>, i: int)
    requires
        types_of(storages).no_duplicates(),
        0 <= i < storages.len(),
    ensures
        types_of(storages).contains(storages[i].ty()),
        members_of(storages, storages[i].ty()) == storages[i].members(),
{
    assert(types_of(storages)[i] == storages[i].ty());
    lemma_first_index_unique(types_of(storages), i);
}

proof fn lemma_update<V>(before: Seq<ComponentStorage<V>>, after: Seq<ComponentStorage<V>>, i: int)
    requires
        types_of(before).no_duplicates(),
        0 <= i < before.len(),
        after.len() == before.len(),
        after[i].ty() == before[i].ty(),
        forall|j: int| 0 <= j < before.len() && j != i ==> after[j] == before[j],
    ensures
        types_of(after) == types_of(before),
        members_of(after, before[i].ty()) == after[i].members(),
        forall|ty: TypeData| ty != before[i].ty() ==> #[trigger] members_of(after, ty) == members_of(before, ty),
{
    assert(types_of(after) =~= types_of(before)) by {
        assert forall|j: int| 0 <= j < before.len() implies types_of(after)[j] == types_of(before)[j] by {
            if j != i {
                assert(after[j] == before[j]);
            }
        }
    }
    lemma_lookup(after, i);
    assert forall|ty: TypeData| ty != before[i].ty() implies members_of(after, ty) == members_of(before, ty) by {
        if types_of(before).contains(ty) {
            lemma_first_index_of(types_of(before), ty);
            let k = first_index_of(types_of(before), ty)->0;
            assert(types_of(before)[k] == before[k].ty());
            assert(k != i);
        }
    }
}

proof fn lemma_push<V>(before: Seq<ComponentStorage<V>>, storage: ComponentStorage<V>)
    requires
        types_of(before).no_duplicates(),
        !types_of(before).contains(storage.ty()),
    ensures
        types_of(before.push(storage)) == types_of(before).push(storage.ty()),
        types_of(before.push(storage)).no_duplicates(),
        types_of(before.push(storage)).to_set() == types_of(before).to_set().insert(storage.ty()),
        members_of(before.push(storage), storage.ty()) == storage.members(),
        forall|ty: TypeData| ty != storage.ty() ==> #[trigger] members_of(before.push(storage), ty) == members_of(before, ty),
{
    let after = before.push(storage);
    assert(types_of(after) =~= types_of(before).push(storage.ty()));
    assert forall|a: int, b: int| 0 <= a < after.len() && 0 <= b < after.len() && a != b implies types_of(after)[a] != types_of(after)[b] by {
        if a < before.len() {
            assert(types_of(before)[a] == types_of(after)[a]);
        }
        if b < before.len() {
            assert(types_of(before)[b] == types_of(after)[b]);
        }
    }
    assert(types_of(after).to_set() =~= types_of(before).to_set().insert(storage.ty())) by {
        assert forall|ty: TypeData| types_of(after).contains(ty) <==> (types_of(before).contains(ty) || ty == storage.ty()) by {
            if types_of(after).contains(ty) {
                let k = choose|k: int| 0 <= k < after.len() && types_of(after)[k] == ty;
                if k < before.len() {
                    assert(types_of(before)[k] == ty);
                }
            }
            if types_of(before).contains(ty) {
                let k = choose|k: int| 0 <= k < before.len() && types_of(before)[k] == ty;
                assert(types_of(after)[k] == ty);
            }
            if ty == storage.ty() {
                assert(types_of(after)[before.len() as int] == ty);
            }
        }
    }
    lemma_lookup(after, before.len() as int);
    assert forall|ty: TypeData| ty != storage.ty() implies members_of(after, ty) == members_of(before, ty) by {
        if types_of(before).contains(ty) {
            lemma_first_index_of(types_of(before), ty);
            let k = first_index_of(types_of(before), ty)->0;
            assert(types_of(after)[k] == ty);
            lemma_first_index_unique(types_of(after), k);
            assert(after[k] == before[k]);
        } else {
            if types_of(after).contains(ty) {
                let k = choose|k: int| 0 <= k < after.len() && types_of(after)[k] == ty;
                if k < before.len() {
                    assert(types_of(before)[k] == ty);
                }
            }
        }
    }
}

/// Storage for entities and their components.
#[verifier::reject_recursive_types(V)]
pub struct EntityStorage<V> {
    entities: Vec<Entity>,
    next: u64,
    atomic_next: u64,
    reserved: AtomicU64,
    components: Vec<ComponentStorage<V>>,
    maintains: Ghost<nat>,
}

/// View over all entities of a storage. It can hand out new entities
/// without exclusive access; they join the storage when it is next
/// maintained.
pub struct Entities<'a> {
    entities: &'a Vec<Entity>,
    atomic_base: u64,
    reserved: &'a AtomicU64,
}

impl<'a> Entities<'a> {
    /// The entities in the view, in the order in which they were stored.
    pub closed spec fn alive(&self) -> Seq<Entity> {
        self.entities@
    }

    /// The lowest index that the view hands out.
    pub closed spec fn atomic_base(&self) -> u64 {
        self.atomic_base
    }

    /// Every entity in the view has an index below the ones that the view
    /// hands out, or outside their range.
    pub open spec fn wf(&self) -> bool {
        &&& self.atomic_base() >= ATOMIC_BASE
        &&& forall|i: int| 0 <= i < self.alive().len() ==> (#[trigger] self.alive()[i]).index < self.atomic_base()
    }

    /// Returns the number of entities in the view.
    pub fn len(&self) -> (len: usize)
        ensures
            len == self.alive().len(),
    {
        self.entities.len()
    }

    /// Returns the entity at `index`.
    pub fn entity_at(&self, index: usize) -> (entity: Entity)
        requires
            index < self.alive().len(),
        ensures
            entity == self.alive()[index as int],
    {
        self.entities[index]
    }

    /// Returns whether `entity` is in the view.
    pub fn contains(&self, entity: Entity) -> (present: bool)
        ensures
            present == self.alive().contains(entity),
    {
        contains_entity(self.entities, entity)
    }

    /// Creates a new entity without exclusive access to the storage: draws
    /// the next number from the counter and hands out `entity_for` the
    /// number. The entity is not in the storage until the storage is
    /// maintained. When no index is left, the entity that is never stored
    /// comes back.
    pub fn create_atomic(&self) -> (entity: Entity)
        requires
            self.wf(),
        ensures
            exists|offset: u64| entity == #[trigger] entity_at(self.atomic_base(), offset),
            entity.index >= self.atomic_base(),
            !self.alive().contains(entity),
    {
        let offset = reserve(self.reserved);
        entity_for(self.atomic_base, offset)
    }
}

/// Returns whether `entity` occurs in `entities`.
pub fn contains_entity(entities: &Vec<Entity>, entity: Entity) -> (present: bool)
    ensures
        present == entities@.contains(entity),
{
    let mut i: usize = 0;
    while i < entities.len()
        invariant
            0 <= i <= entities@.len(),
            forall|j: int| 0 <= j < i ==> entities@[j] != entity,
        decreases entities@.len() - i,
    {
        if entities[i] == entity {
            return true;
        }
        i = i + 1;
    }
    false
}

impl<V> EntityStorage<V> {
    /// The entities in the storage, in the order in which they were stored.
    pub closed spec fn alive(&self) -> Seq<Entity> {
        self.entities@
    }

    /// The index that the next entity created under exclusive access gets.
    pub closed spec fn next_index(&self) -> nat {
        self.next as nat
    }

    /// How many entities created under shared access have been stored.
    pub closed spec fn atomic_count(&self) -> nat {
        self.atomic_next as nat
    }

    /// How often the storage has been maintained.
    pub closed spec fn maintain_count(&self) -> nat {
        self.maintains@
    }

    /// The component storages, one for each registered type.
    pub closed spec fn storages(&self) -> Seq<ComponentStorage<V>> {
        self.components@
    }

    /// The registered component types.
    pub open spec fn registered(&self) -> Set<TypeData> {
        types_of(self.storages()).to_set()
    }

    /// The entities that have a component of type `ty`, in storage order.
    /// There are none where the type is not registered.
    pub open spec fn members(&self, ty: TypeData) -> Seq<Entity> {
        members_of(self.storages(), ty)
    }

    /// The invariant of the storage: no entity is stored twice, every
    /// stored entity has an index that was handed out, each registered type
    /// has one storage, and only stored entities have components.
    pub open spec fn wf(&self) -> bool {
        &&& self.alive().no_duplicates()
        &&& self.next_index() <= ATOMIC_BASE
        &&& ATOMIC_BASE + self.atomic_count() <= NULL_INDEX
        &&& forall|i: int| 0 <= i < self.alive().len() ==> index_in_use((#[trigger] self.alive()[i]).index, self.next_index(), self.atomic_count())
        &&& types_of(self.storages()).no_duplicates()
        &&& forall|i: int| 0 <= i < self.storages().len() ==> (#[trigger] self.storages()[i]).wf()
        &&& forall|i: int, k: int| 0 <= i < self.storages().len() && 0 <= k < self.storages()[i].members().len() ==> self.alive().contains(#[trigger] self.storages()[i].members()[k])
    }

    /// Only stored entities have components, no entity has two of one type,
    /// and an unregistered type has none.
    pub proof fn lemma_members(&self, ty: TypeData)
        requires
            self.wf(),
        ensures
            self.members(ty).no_duplicates(),
            forall|k: int| 0 <= k < self.members(ty).len() ==> self.alive().contains(#[trigger] self.members(ty)[k]),
            !self.registered().contains(ty) ==> self.members(ty) == Seq::<Entity>::empty(),
    {
        if types_of(self.storages()).contains(ty) {
            lemma_first_index_of(types_of(self.storages()), ty);
            let i = first_index_of(types_of(self.storages()), ty)->0;
            assert(self.storages()[i].wf());
        }
    }

    /// Creates a storage without entities and without registered types.
    pub fn empty() -> (storage: EntityStorage<V>)
        ensures
            storage.wf(),
            storage.alive() == Seq::<Entity>::empty(),
            storage.next_index() == 0,
            storage.atomic_count() == 0,
            storage.maintain_count() == 0,
            storage.registered() == Set::<TypeData>::empty(),
    {
        let storage = EntityStorage {
            entities: Vec::new(),
            next: 0,
            atomic_next: 0,
            reserved: new_counter(),
            components: Vec::new(),
            maintains: Ghost(0),
        };
        assert(types_of(storage.storages()) =~= Seq::<TypeData>::empty());
        assert(storage.registered() =~= Set::<TypeData>::empty());
        storage
    }

    fn find(&self, ty: TypeData) -> (found: Option<usize>)
        ensures
            match found {
                Some(i) => i < self.storages().len() && self.storages()[i as int].ty() == ty && self.registered().contains(ty),
                None => !self.registered().contains(ty),
            },
    {
        let mut i: usize = 0;
        while i < self.components.len()
            invariant
                0 <= i <= self.components@.len(),
                forall|j: int| 0 <= j < i ==> self.components@[j].ty() != ty,
            decreases self.components@.len() - i,
        {
            if self.components[i].type_data() == ty {
                assert(types_of(self.storages())[i as int] == ty);
                return Some(i);
            }
            i = i + 1;
        }
        assert(!types_of(self.storages()).contains(ty));
        None
    }

    /// Registers a new component type. Returns whether the type was newly
    /// registered.
    pub fn register(&mut self, ty: TypeData) -> (added: bool)
        requires
            old(self).wf(),
        ensures
            final(self).wf(),
            added == !old(self).registered().contains(ty),
            final(self).registered() == old(self).registered().insert(ty),
            final(self).alive() == old(self).alive(),
            final(self).next_index() == old(self).next_index(),
            final(self).atomic_count() == old(self).atomic_count(),
            final(self).maintain_count() == old(self).maintain_count(),
            forall|t: TypeData| #[trigger] final(self).members(t) == old(self).members(t),
    {
        match self.find(ty) {
            Some(_) => {
                assert(self.registered() =~= old(self).registered().insert(ty));
                false
            },
            None => {
                let storage = ComponentStorage::new(ty);
                proof {
                    lemma_push(self.components@, storage);
                    old(self).lemma_members(ty);
                }
                self.components.push(storage);
                true
            },
        }
    }

    /// Returns whether the component type `ty` is registered.
    pub fn is_registered(&self, ty: TypeData) -> (registered: bool)
        ensures
            registered == self.registered().contains(ty),
    {
        self.find(ty).is_some()
    }

    /// Returns whether `entity` is in the storage.
    pub fn contains(&self, entity: Entity) -> (present: bool)
        ensures
            present == self.alive().contains(entity),
    {
        contains_entity(&self.entities, entity)
    }

    /// Returns the index that the next entity created under exclusive
    /// access gets.
    pub fn next(&self) -> (next: u64)
        ensures
            next == self.next_index(),
    {
        self.next
    }

    /// Returns whether the storage holds no entities.
    pub fn is_empty(&self) -> (empty: bool)
        ensures
            empty == (self.alive().len() == 0),
    {
        self.entities.len() == 0
    }

    /// Returns all entities in the storage.
    pub fn entities(&self) -> (entities: &[Entity])
        ensures
            entities@ == self.alive(),
    {
        self.entities.as_slice()
    }

    /// Borrows a view over all entities in the storage.
    pub fn borrow_entities(&self) -> (view: Entities<'_>)
        requires
            self.wf(),
        ensures
            view.wf(),
            view.alive() == self.alive(),
            view.atomic_base() == ATOMIC_BASE + self.atomic_count(),
    {
        Entities { entities: &self.entities, atomic_base: ATOMIC_BASE + self.atomic_next, reserved: &self.reserved }
    }

    /// Creates a new entity without exclusive access to the storage. The
    /// entity is not in the storage until the storage is maintained. When no
    /// index is left, the entity that is never stored comes back.
    pub fn create_atomic(&self) -> (entity: Entity)
        requires
            self.wf(),
        ensures
            exists|offset: u64| entity == #[trigger] entity_at((ATOMIC_BASE + self.atomic_count()) as u64, offset),
            entity.index >= ATOMIC_BASE + self.atomic_count(),
            !self.alive().contains(entity),
    {
        let view = self.borrow_entities();
        let entity = view.create_atomic();
        proof {
            let offset = choose|offset: u64| entity == #[trigger] entity_at(view.atomic_base(), offset);
            assert(entity == entity_at((ATOMIC_BASE + self.atomic_count()) as u64, offset));
        }
        entity
    }

    /// Adds the entities created under shared access to the storage: as
    /// many as were handed out since they were last added. How many that
    /// are is known to the counter alone; what happens for each number is
    /// told by `add_reserved`.
    pub fn maintain(&mut self)
        requires
            old(self).wf(),
        ensures
            final(self).wf(),
            final(self).maintain_count() == old(self).maintain_count() + 1,
            final(self).atomic_count() >= old(self).atomic_count(),
            final(self).alive() == old(self).alive() + fresh_entities(
                ATOMIC_BASE + old(self).atomic_count(),
                ATOMIC_BASE + final(self).atomic_count(),
            ),
            final(self).next_index() == old(self).next_index(),
            final(self).storages() == old(self).storages(),
    {
        let pending = take_reserved(&self.reserved);
        self.add_reserved(pending);
        self.maintains = Ghost(self.maintains@ + 1);
    }

    /// Adds the next `count` entities of the range that is handed out under
    /// shared access to the storage, in the order of their indexes, as far
    /// as the range goes.
    pub fn add_reserved(&mut self, count: u64)
        requires
            old(self).wf(),
        ensures
            final(self).wf(),
            final(self).maintain_count() == old(self).maintain_count(),
            final(self).atomic_count() == if old(self).atomic_count() + count <= NULL_INDEX - ATOMIC_BASE {
                old(self).atomic_count() + count
            } else {
                NULL_INDEX - ATOMIC_BASE
            },
            final(self).alive() == old(self).alive() + fresh_entities(
                ATOMIC_BASE + old(self).atomic_count(),
                ATOMIC_BASE + final(self).atomic_count(),
            ),
            final(self).next_index() == old(self).next_index(),
            final(self).storages() == old(self).storages(),
    {
        let mut done: u64 = 0;
        assert(self.alive() =~= old(self).alive() + fresh_entities(ATOMIC_BASE + old(self).atomic_count(), ATOMIC_BASE + self.atomic_count()));
        while done < count && self.atomic_next < NULL_INDEX - ATOMIC_BASE
            invariant
                old(self).wf(),
                self.wf(),
                self.atomic_count() == old(self).atomic_count() + done,
                self.maintain_count() == old(self).maintain_count(),
                self.alive() == old(self).alive() + fresh_entities(
                    ATOMIC_BASE + old(self).atomic_count(),
                    ATOMIC_BASE + self.atomic_count(),
                ),
                self.next_index() == old(self).next_index(),
                self.storages() == old(self).storages(),
                done <= count,
            decreases count - done,
        {
            let entity = Entity { index: ATOMIC_BASE + self.atomic_next };
            let ghost before = self.entities@;
            let ghost held = self.atomic_next;
            self.entities.push(entity);
            self.atomic_next = self.atomic_next + 1;
            done = done + 1;
            proof {
                assert(self.alive() =~= old(self).alive() + fresh_entities(ATOMIC_BASE + old(self).atomic_count(), ATOMIC_BASE + self.atomic_count()));
                assert forall|a: int, b: int| 0 <= a < self.alive().len() && 0 <= b < self.alive().len() && a != b implies self.alive()[a] != self.alive()[b] by {
                    if a < before.len() && b < before.len() {
                        assert(before[a] != before[b]);
                    } else if a < before.len() {
                        assert(index_in_use(before[a].index, self.next as nat, held as nat));
                    } else {
                        assert(index_in_use(before[b].index, self.next as nat, held as nat));
                    }
                }
                assert forall|i: int| 0 <= i < self.alive().len() implies index_in_use((#[trigger] self.alive()[i]).index, self.next_index(), self.atomic_count()) by {
                    if i < before.len() {
                        assert(index_in_use(before[i].index, self.next as nat, held as nat));
                    }
                }
                assert forall|i: int, k: int| 0 <= i < self.storages().len() && 0 <= k < self.storages()[i].members().len() implies self.alive().contains(#[trigger] self.storages()[i].members()[k]) by {
                    let e = self.storages()[i].members()[k];
                    assert(before.contains(e));
                    let j = choose|j: int| 0 <= j < before.len() && before[j] == e;
                    assert(self.alive()[j] == e);
                }
            }
        }
    }

    /// Whether every one of `types` is registered.
    pub open spec fn all_registered(&self, types: Seq<TypeData>) -> bool {
        forall|i: int| 0 <= i < types.len() ==> self.registered().contains(#[trigger] types[i])
    }

    fn accepts(&self, components: &Vec<(TypeData, V)>) -> (all: bool)
        ensures
            all == self.all_registered(component_types(components@)),
    {
        let mut i: usize = 0;
        while i < components.len()
            invariant
                0 <= i <= components@.len(),
                forall|j: int| 0 <= j < i ==> self.registered().contains(#[trigger] component_types(components@)[j]),
            decreases components@.len() - i,
        {
            if !self.is_registered(components[i].0) {
                assert(component_types(components@)[i as int] == components@[i as int].0);
                return false;
            }
            assert(component_types(components@)[i as int] == components@[i as int].0);
            i = i + 1;
        }
        true
    }

    /// Adds the given `components` to `entity`, each in the place of the
    /// component of its type that the entity had, if any. Nothing is added
    /// unless the entity is in the storage and every type is registered.
    ///
    /// Returns whether the components were added.
    pub fn insert(&mut self, entity: Entity, components: Vec<(TypeData, V)>) -> (added: bool)
        requires
            old(self).wf(),
        ensures
            final(self).wf(),
            added == (old(self).alive().contains(entity) && old(self).all_registered(
                component_types(components@),
            )),
            final(self).alive() == old(self).alive(),
            final(self).next_index() == old(self).next_index(),
            final(self).atomic_count() == old(self).atomic_count(),
            final(self).maintain_count() == old(self).maintain_count(),
            final(self).registered() == old(self).registered(),
            forall|ty: TypeData|
                #[trigger] final(self).members(ty) == attached(
                    old(self).members(ty),
                    entity,
                    added && component_types(components@).contains(ty),
                ),
    {
        if !self.contains(entity) || !self.accepts(&components) {
            return false;
        }
        let ghost types = component_types(components@);
        let mut rest = components;
        let ghost mut done: int = 0;
        assert(types.take(0) =~= Seq::<TypeData>::empty());
        while rest.len() > 0
            invariant
                old(self).wf(),
                self.wf(),
                old(self).alive().contains(entity),
                types == component_types(components@),
                0 <= done <= types.len(),
                rest@ == components@.skip(done),
                self.alive() == old(self).alive(),
                self.next_index() == old(self).next_index(),
                self.atomic_count() == old(self).atomic_count(),
                self.maintain_count() == old(self).maintain_count(),
                types_of(self.storages()) == types_of(old(self).storages()),
                old(self).all_registered(types),
                forall|ty: TypeData|
                    #[trigger] self.members(ty) == attached(old(self).members(ty), entity, types.take(done).contains(ty)),
            decreases rest@.len(),
        {
            let ghost pre = *self;
            let (ty, value) = rest.remove(0);
            proof {
                assert(components@.skip(done)[0] == components@[done]);
                assert(types[done] == ty);
                assert(rest@ =~= components@.skip(done + 1));
                assert(types.take(done + 1) =~= types.take(done).push(ty));
            }
            match self.find(ty) {
                Some(i) => {
                    let ghost before = self.components@;
                    let _ = self.components[i].insert(entity, value);
                    proof {
                        let after = self.components@;
                        lemma_lookup(before, i as int);
                        lemma_update(before, after, i as int);
                        assert(after[i as int].members().contains(entity)) by {
                            if !before[i as int].members().contains(entity) {
                                let m = before[i as int].members().push(entity);
                                assert(m[m.len() - 1] == entity);
                            }
                        }
                        assert forall|j: int, k: int| 0 <= j < after.len() && 0 <= k < after[j].members().len() implies self.alive().contains(#[trigger] after[j].members()[k]) by {
                            if j != i {
                                assert(after[j] == before[j]);
                                assert(self.alive().contains(before[j].members()[k]));
                            } else if k < before[j].members().len() {
                                assert(self.alive().contains(before[j].members()[k]));
                            }
                        }
                        assert forall|j: int| 0 <= j < after.len() implies (#[trigger] after[j]).wf() by {
                            if j != i {
                                assert(after[j] == before[j]);
                            }
                        }
                        let t0 = types.take(done);
                        let t1 = types.take(done + 1);
                        assert(pre.storages() == before);
                        assert(self.storages() == after);
                        assert(pre.members(ty) == before[i as int].members());
                        assert forall|t: TypeData| self.members(t) == attached(old(self).members(t), entity, t1.contains(t)) by {
                            assert(pre.members(t) == attached(old(self).members(t), entity, t0.contains(t)));
                            if t == ty {
                                assert(t1[done] == ty);
                                if t0.contains(ty) {
                                    let k = choose|k: int| 0 <= k < t0.len() && t0[k] == ty;
                                    assert(t1[k] == ty);
                                }
                                if !old(self).members(ty).contains(entity) {
                                    let m = old(self).members(ty).push(entity);
                                    assert(m[m.len() - 1] == entity);
                                }
                            } else {
                                if t1.contains(t) {
                                    let k = choose|k: int| 0 <= k < t1.len() && t1[k] == t;
                                    assert(t0[k] == t);
                                }
                                if t0.contains(t) {
                                    let k = choose|k: int| 0 <= k < t0.len() && t0[k] == t;
                                    assert(t1[k] == t);
                                }
                            }
                        }
                    }
                },
                None => {
                    proof {
                        assert(old(self).registered().contains(types[done]));
                        assert(false);
                    }
                },
            }
            proof {
                done = done + 1;
            }
        }
        proof {
            assert(types.take(done) =~= types);
        }
        true
    }

    /// Creates a new entity with the given `components`. The components are
    /// left out unless every one of their types is registered.
    ///
    /// Returns the newly created entity.
    pub fn create(&mut self, components: Vec<(TypeData, V)>) -> (entity: Entity)
        requires
            old(self).wf(),
            old(self).next_index() < ATOMIC_BASE,
        ensures
            final(self).wf(),
            entity.index == old(self).next_index(),
            final(self).alive() == old(self).alive().push(entity),
            final(self).next_index() == old(self).next_index() + 1,
            final(self).atomic_count() == old(self).atomic_count(),
            final(self).maintain_count() == old(self).maintain_count(),
            final(self).registered() == old(self).registered(),
            forall|ty: TypeData|
                #[trigger] final(self).members(ty) == attached(
                    old(self).members(ty),
                    entity,
                    old(self).all_registered(component_types(components@)) && component_types(
                        components@,
                    ).contains(ty),
                ),
    {
        let entity = Entity { index: self.next };
        let ghost before = self.entities@;
        self.entities.push(entity);
        self.next = self.next + 1;
        proof {
            assert forall|a: int, b: int| 0 <= a < self.alive().len() && 0 <= b < self.alive().len() && a != b implies self.alive()[a] != self.alive()[b] by {
                if a < before.len() && b < before.len() {
                    assert(before[a] != before[b]);
                } else if a < before.len() {
                    assert(index_in_use(before[a].index, old(self).next_index(), old(self).atomic_count()));
                } else {
                    assert(index_in_use(before[b].index, old(self).next_index(), old(self).atomic_count()));
                }
            }
            assert forall|i: int| 0 <= i < self.alive().len() implies index_in_use((#[trigger] self.alive()[i]).index, self.next_index(), self.atomic_count()) by {
                if i < before.len() {
                    assert(index_in_use(before[i].index, old(self).next_index(), old(self).atomic_count()));
                }
            }
            assert forall|i: int, k: int| 0 <= i < self.storages().len() && 0 <= k < self.storages()[i].members().len() implies self.alive().contains(#[trigger] self.storages()[i].members()[k]) by {
                let e = self.storages()[i].members()[k];
                assert(before.contains(e));
                let j = choose|j: int| 0 <= j < before.len() && before[j] == e;
                assert(self.alive()[j] == e);
            }
            assert(self.alive()[before.len() as int] == entity);
        }
        let _ = self.insert(entity, components);
        entity
    }

    /// Creates one new entity for each component set of `components`, in
    /// order, as `create` does.
    ///
    /// Returns the newly created entities, as they stand at the end of the
    /// stored ones.
    pub fn extend(&mut self, components: Vec<Vec<(TypeData, V)>>) -> (created: &[Entity])
        requires
            old(self).wf(),
            old(self).next_index() + components@.len() <= ATOMIC_BASE,
        ensures
            final(self).wf(),
            created@ == fresh_entities(
                old(self).next_index() as int,
                (old(self).next_index() + components@.len()) as int,
            ),
            final(self).alive() == old(self).alive() + created@,
            final(self).next_index() == old(self).next_index() + components@.len(),
            final(self).atomic_count() == old(self).atomic_count(),
            final(self).maintain_count() == old(self).maintain_count(),
            final(self).registered() == old(self).registered(),
            forall|ty: TypeData|
                #[trigger] final(self).members(ty) == extended(
                    old(self).members(ty),
                    set_types(components@),
                    old(self).next_index() as int,
                    old(self).registered(),
                    ty,
                ),
    {
        let mut created: Vec<Entity> = Vec::new();
        let mut rest = components;
        let ghost mut done: int = 0;
        let ghost sets = set_types(components@);
        let ghost first = self.next_index() as int;
        proof {
            assert(sets.take(0) =~= Seq::<Seq<TypeData>>::empty());
            assert(created@ =~= fresh_entities(first, first));
            assert(self.alive() =~= old(self).alive() + created@);
        }
        while rest.len() > 0
            invariant
                old(self).wf(),
                self.wf(),
                sets == set_types(components@),
                first == old(self).next_index(),
                first + components@.len() <= ATOMIC_BASE,
                0 <= done <= components@.len(),
                rest@ == components@.skip(done),
                created@ == fresh_entities(first, first + done),
                self.alive() == old(self).alive() + created@,
                self.next_index() == first + done,
                self.atomic_count() == old(self).atomic_count(),
                self.maintain_count() == old(self).maintain_count(),
                self.registered() == old(self).registered(),
                forall|ty: TypeData|
                    #[trigger] self.members(ty) == extended(
                        old(self).members(ty),
                        sets.take(done),
                        first,
                        old(self).registered(),
                        ty,
                    ),
            decreases rest@.len(),
        {
            let ghost pre = *self;
            let set = rest.remove(0);
            proof {
                assert(components@.skip(done)[0] == components@[done]);
                assert(rest@ =~= components@.skip(done + 1));
                assert(sets[done] == component_types(set@));
                assert(sets.take(done + 1).drop_last() =~= sets.take(done));
                assert(sets.take(done + 1).last() == sets[done]);
            }
            let entity = self.create(set);
            created.push(entity);
            proof {
                assert(created@ =~= fresh_entities(first, first + done + 1));
                assert(self.alive() =~= old(self).alive() + created@);
                let s1 = sets.take(done + 1);
                assert forall|ty: TypeData|
                    #[trigger] self.members(ty) == extended(old(self).members(ty), s1, first, old(self).registered(), ty) by {
                    assert(pre.members(ty) == extended(old(self).members(ty), sets.take(done), first, old(self).registered(), ty));
                    assert(pre.all_registered(sets[done]) <==> (forall|i: int| 0 <= i < s1.last().len() ==> old(self).registered().contains(#[trigger] s1.last()[i])));
                }
                done = done + 1;
            }
        }
        proof {
            assert(sets.take(done) =~= sets);
        }
        let end = self.entities.len();
        let start = end - created.len();
        proof {
            assert(self.alive().subrange(start as int, end as int) =~= created@);
        }
        slice_subrange(self.entities.as_slice(), start, end)
    }

    /// Removes the components of the given `types` from `entity`.
    ///
    /// Returns, for each of `types` in order, the component that was
    /// removed, if the entity had one and no guard of it was leaked.
    pub fn remove(&mut self, entity: Entity, types: &[TypeData]) -> (removed: Vec<Option<V>>)
        requires
            old(self).wf(),
        ensures
            final(self).wf(),
            final(self).alive() == old(self).alive(),
            final(self).next_index() == old(self).next_index(),
            final(self).atomic_count() == old(self).atomic_count(),
            final(self).maintain_count() == old(self).maintain_count(),
            final(self).registered() == old(self).registered(),
            forall|ty: TypeData|
                #[trigger] final(self).members(ty) == detached(old(self).members(ty), entity, types@.contains(ty)),
            removed@.len() == types@.len(),
            forall|i: int|
                0 <= i < types@.len() ==> ((#[trigger] removed@[i]) is Some ==> old(self).members(
                    types@[i],
                ).contains(entity) && !types@.take(i).contains(types@[i])),
    {
        let mut removed: Vec<Option<V>> = Vec::new();
        let mut done: usize = 0;
        assert(types@.take(0) =~= Seq::<TypeData>::empty());
        while done < types.len()
            invariant
                old(self).wf(),
                self.wf(),
                0 <= done <= types@.len(),
                self.alive() == old(self).alive(),
                self.next_index() == old(self).next_index(),
                self.atomic_count() == old(self).atomic_count(),
                self.maintain_count() == old(self).maintain_count(),
                types_of(self.storages()) == types_of(old(self).storages()),
                forall|ty: TypeData|
                    #[trigger] self.members(ty) == detached(old(self).members(ty), entity, types@.take(done as int).contains(ty)),
                removed@.len() == done,
                forall|i: int|
                    0 <= i < done ==> ((#[trigger] removed@[i]) is Some ==> old(self).members(
                        types@[i],
                    ).contains(entity) && !types@.take(i).contains(types@[i])),
            decreases types@.len() - done,
        {
            let ty = types[done];
            let ghost pre = *self;
            let ghost held = self.members(ty);
            proof {
                assert(types@.take(done + 1) =~= types@.take(done as int).push(ty));
                old(self).lemma_members(ty);
                lemma_without(old(self).members(ty), entity);
            }
            match self.find(ty) {
                Some(i) => {
                    let ghost before = self.components@;
                    let value = self.components[i].remove(entity);
                    removed.push(value);
                    proof {
                        let after = self.components@;
                        assert(pre.storages() == before);
                        assert(self.storages() == after);
                        lemma_lookup(before, i as int);
                        lemma_update(before, after, i as int);
                        lemma_without(before[i as int].members(), entity);
                        assert forall|j: int, k: int| 0 <= j < after.len() && 0 <= k < after[j].members().len() implies self.alive().contains(#[trigger] after[j].members()[k]) by {
                            if j != i {
                                assert(after[j] == before[j]);
                                assert(self.alive().contains(before[j].members()[k]));
                            } else {
                                let e = after[j].members()[k];
                                assert(after[j].members().contains(e));
                                assert(before[j].members().contains(e));
                                let k2 = choose|k2: int| 0 <= k2 < before[j].members().len() && before[j].members()[k2] == e;
                                assert(self.alive().contains(before[j].members()[k2]));
                            }
                        }
                        assert forall|j: int| 0 <= j < after.len() implies (#[trigger] after[j]).wf() by {
                            if j != i {
                                assert(after[j] == before[j]);
                            }
                        }
                    }
                },
                None => {
                    removed.push(None);
                    proof {
                        self.lemma_members(ty);
                        assert(types_of(old(self).storages()).to_set() =~= types_of(self.storages()).to_set());
                    }
                },
            }
            proof {
                let t0 = types@.take(done as int);
                let t1 = types@.take(done + 1);
                assert forall|t: TypeData| self.members(t) == detached(old(self).members(t), entity, t1.contains(t)) by {
                    if t == ty {
                        assert(t1[done as int] == ty);
                    } else {
                        assert(pre.members(t) == detached(old(self).members(t), entity, t0.contains(t)));
                        assert(self.members(t) == pre.members(t));
                        if t1.contains(t) {
                            let k = choose|k: int| 0 <= k < t1.len() && t1[k] == t;
                            assert(t0[k] == t);
                        }
                        if t0.contains(t) {
                            let k = choose|k: int| 0 <= k < t0.len() && t0[k] == t;
                            assert(t1[k] == t);
                        }
                    }
                }
            }
            done = done + 1;
        }
        proof {
            assert(types@.take(done as int) =~= types@);
        }
        removed
    }

    /// Removes the components of the given `types` from `entity`.
    pub fn delete(&mut self, entity: Entity, types: &[TypeData])
        requires
            old(self).wf(),
        ensures
            final(self).wf(),
            final(self).alive() == old(self).alive(),
            final(self).next_index() == old(self).next_index(),
            final(self).atomic_count() == old(self).atomic_count(),
            final(self).maintain_count() == old(self).maintain_count(),
            final(self).registered() == old(self).registered(),
            forall|ty: TypeData|
                #[trigger] final(self).members(ty) == detached(old(self).members(ty), entity, types@.contains(ty)),
    {
        let _ = self.remove(entity, types);
    }

    /// Borrows a shared view over all components of type `ty`. There is
    /// none where the type is not registered, or while an exclusive view
    /// over the type is alive.
    pub fn borrow(&self, ty: TypeData) -> (view: Option<Comp<'_, V>>)
        requires
            self.wf(),
        ensures
            view is Some ==> self.registered().contains(ty) && view->0.ty() == ty && view->0.members()
                == self.members(ty),
    {
        match self.find(ty) {
            Some(i) => {
                proof {
                    lemma_lookup(self.storages(), i as int);
                }
                self.components[i].try_borrow()
            },
            None => None,
        }
    }

    /// Borrows an exclusive view over all components of type `ty`. There
    /// is none where the type is not registered, or while another view over
    /// the type is alive.
    pub fn borrow_mut(&self, ty: TypeData) -> (view: Option<CompMut<'_, V>>)
        requires
            self.wf(),
        ensures
            view is Some ==> self.registered().contains(ty) && view->0.ty() == ty && view->0.members()
                == self.members(ty),
    {
        match self.find(ty) {
            Some(i) => {
                proof {
                    lemma_lookup(self.storages(), i as int);
                }
                self.components[i].try_borrow_mut()
            },
            None => None,
        }
    }

    /// Removes the given `entity` and its components from the storage.
    ///
    /// Returns whether the `entity` was present in the storage.
    pub fn destroy(&mut self, entity: Entity) -> (destroyed: bool)
        requires
            old(self).wf(),
        ensures
            final(self).wf(),
            destroyed == old(self).alive().contains(entity),
            final(self).alive() == without(old(self).alive(), entity),
            final(self).next_index() == old(self).next_index(),
            final(self).atomic_count() == old(self).atomic_count(),
            final(self).maintain_count() == old(self).maintain_count(),
            final(self).registered() == old(self).registered(),
            forall|ty: TypeData| #[trigger] final(self).members(ty) == without(old(self).members(ty), entity),
    {
        let mut at: usize = 0;
        while at < self.entities.len() && self.entities[at] != entity
            invariant
                *self == *old(self),
                0 <= at <= self.entities@.len(),
                forall|j: int| 0 <= j < at ==> self.entities@[j] != entity,
            decreases self.entities@.len() - at,
        {
            at = at + 1;
        }
        if at == self.entities.len() {
            proof {
                assert forall|ty: TypeData| #[trigger] self.members(ty) == without(old(self).members(ty), entity) by {
                    old(self).lemma_members(ty);
                    if old(self).members(ty).contains(entity) {
                        let k = choose|k: int| 0 <= k < old(self).members(ty).len() && old(self).members(ty)[k] == entity;
                        assert(old(self).alive().contains(old(self).members(ty)[k]));
                    }
                }
            }
            return false;
        }
        let _ = self.entities.remove(at);
        proof {
            lemma_first_index_unique(old(self).alive(), at as int);
            lemma_without(old(self).alive(), entity);
        }
        let mut i: usize = 0;
        while i < self.components.len()
            invariant
                old(self).wf(),
                self.alive() == without(old(self).alive(), entity),
                self.next_index() == old(self).next_index(),
                self.atomic_count() == old(self).atomic_count(),
                self.maintain_count() == old(self).maintain_count(),
                0 <= i <= self.storages().len(),
                self.storages().len() == old(self).storages().len(),
                forall|j: int| 0 <= j < self.storages().len() ==> (#[trigger] self.storages()[j]).ty() == old(self).storages()[j].ty(),
                forall|j: int| 0 <= j < i ==> (#[trigger] self.storages()[j]).members() == without(old(self).storages()[j].members(), entity),
                forall|j: int| i <= j < self.storages().len() ==> (#[trigger] self.storages()[j]) == old(self).storages()[j],
            decreases self.storages().len() - i,
        {
            let ghost before = self.components@;
            assert(before[i as int] == old(self).storages()[i as int]);
            assert(old(self).storages()[i as int].wf());
            let _ = self.components[i].remove(entity);
            proof {
                let after = self.components@;
                assert forall|j: int| 0 <= j < after.len() implies (#[trigger] after[j]).ty() == old(self).storages()[j].ty() by {
                    if j != i {
                        assert(after[j] == before[j]);
                    }
                }
                assert forall|j: int| 0 <= j < i + 1 implies (#[trigger] after[j]).members() == without(old(self).storages()[j].members(), entity) by {
                    if j != i {
                        assert(after[j] == before[j]);
                    }
                }
                assert forall|j: int| i + 1 <= j < after.len() implies (#[trigger] after[j]) == old(self).storages()[j] by {
                    assert(after[j] == before[j]);
                }
            }
            i = i + 1;
        }
        proof {
            let before = old(self).storages();
            let after = self.storages();
            assert(types_of(after) =~= types_of(before)) by {
                assert forall|j: int| 0 <= j < before.len() implies types_of(after)[j] == types_of(before)[j] by {
                    assert(after[j].ty() == before[j].ty());
                }
            }
            assert forall|j: int| 0 <= j < after.len() implies (#[trigger] after[j]).wf() by {
                assert(before[j].wf());
                lemma_without(before[j].members(), entity);
            }
            assert forall|j: int, k: int| 0 <= j < after.len() && 0 <= k < after[j].members().len() implies self.alive().contains(#[trigger] after[j].members()[k]) by {
                let e = after[j].members()[k];
                assert(before[j].wf());
                lemma_without(before[j].members(), entity);
                assert(after[j].members().contains(e));
                assert(e != entity);
                assert(before[j].members().contains(e));
                let k2 = choose|k2: int| 0 <= k2 < before[j].members().len() && before[j].members()[k2] == e;
                assert(old(self).alive().contains(before[j].members()[k2]));
            }
            assert forall|i: int| 0 <= i < self.alive().len() implies index_in_use((#[trigger] self.alive()[i]).index, self.next_index(), self.atomic_count()) by {
                let e = self.alive()[i];
                assert(self.alive().contains(e));
                assert(old(self).alive().contains(e));
                let k = choose|k: int| 0 <= k < old(self).alive().len() && old(self).alive()[k] == e;
                assert(index_in_use(old(self).alive()[k].index, old(self).next_index(), old(self).atomic_count()));
            }
            assert forall|ty: TypeData| #[trigger] self.members(ty) == without(old(self).members(ty), entity) by {
                if types_of(before).contains(ty) {
                    lemma_first_index_of(types_of(before), ty);
                    let j = first_index_of(types_of(before), ty)->0;
                    assert(after[j].members() == without(before[j].members(), entity));
                }
            }
        }
        true
    }

    /// Removes all entities and their components from the storage, those
    /// created under shared access that have not joined it yet included.
    /// The registered types stay registered, and no index that was handed
    /// out is handed out again.
    pub fn clear(&mut self)
        requires
            old(self).wf(),
        ensures
            final(self).wf(),
            final(self).alive() == Seq::<Entity>::empty(),
            final(self).next_index() == old(self).next_index(),
            final(self).atomic_count() >= old(self).atomic_count(),
            final(self).maintain_count() == old(self).maintain_count(),
            final(self).registered() == old(self).registered(),
            forall|ty: TypeData| #[trigger] final(self).members(ty) == Seq::<Entity>::empty(),
    {
        let pending = take_reserved(&self.reserved);
        self.add_reserved(pending);
        let ghost kept = *self;
        self.entities.clear();
        let mut i: usize = 0;
        while i < self.components.len()
            invariant
                kept.wf(),
                self.alive() == Seq::<Entity>::empty(),
                self.next_index() == kept.next_index(),
                self.atomic_count() == kept.atomic_count(),
                self.maintain_count() == kept.maintain_count(),
                0 <= i <= self.storages().len(),
                self.storages().len() == kept.storages().len(),
                forall|j: int| 0 <= j < self.storages().len() ==> (#[trigger] self.storages()[j]).ty() == kept.storages()[j].ty(),
                forall|j: int| 0 <= j < i ==> (#[trigger] self.storages()[j]).members() == Seq::<Entity>::empty(),
            decreases self.storages().len() - i,
        {
            let ghost before = self.components@;
            self.components[i].clear();
            proof {
                let after = self.components@;
                assert forall|j: int| 0 <= j < after.len() implies (#[trigger] after[j]).ty() == kept.storages()[j].ty() by {
                    if j != i {
                        assert(after[j] == before[j]);
                    }
                }
                assert forall|j: int| 0 <= j < i + 1 implies (#[trigger] after[j]).members() == Seq::<Entity>::empty() by {
                    if j != i {
                        assert(after[j] == before[j]);
                    }
                }
            }
            i = i + 1;
        }
        proof {
            let before = kept.storages();
            let after = self.storages();
            assert(types_of(after) =~= types_of(before)) by {
                assert forall|j: int| 0 <= j < before.len() implies types_of(after)[j] == types_of(before)[j] by {
                    assert(after[j].ty() == before[j].ty());
                }
            }
            assert forall|ty: TypeData| #[trigger] self.members(ty) == Seq::<Entity>::empty() by {
                if types_of(after).contains(ty) {
                    lemma_first_index_of(types_of(after), ty);
                }
            }
        }
    }

    /// Removes all entities and their components from the storage and
    /// resets the entity allocator, so that the storage may hand out
    /// entities that it has handed out before.
    pub fn reset(&mut self)
        requires
            old(self).wf(),
        ensures
            final(self).wf(),
            final(self).alive() == Seq::<Entity>::empty(),
            final(self).next_index() == 0,
            final(self).atomic_count() == 0,
            final(self).maintain_count() == old(self).maintain_count(),
            final(self).registered() == old(self).registered(),
            forall|ty: TypeData| #[trigger] final(self).members(ty) == Seq::<Entity>::empty(),
    {
        self.clear();
        let ghost cleared = *self;
        let _ = take_reserved(&self.reserved);
        self.next = 0;
        self.atomic_next = 0;
        proof {
            assert(self.storages() == cleared.storages());
            assert forall|ty: TypeData| #[trigger] self.members(ty) == Seq::<Entity>::empty() by {
                assert(cleared.members(ty) == Seq::<Entity>::empty());
            }
        }
    }

    /// Registers every component type that `layout` names.
    pub fn set_layout(&mut self, layout: &GroupLayout)
        requires
            old(self).wf(),
        ensures
            final(self).wf(),
            final(self).alive() == old(self).alive(),
            final(self).next_index() == old(self).next_index(),
            final(self).atomic_count() == old(self).atomic_count(),
            final(self).maintain_count() == old(self).maintain_count(),
            final(self).registered() == old(self).registered().union(layout.types()),
            forall|ty: TypeData| #[trigger] final(self).members(ty) == old(self).members(ty),
    {
        let mut i: usize = 0;
        while i < layout.family_count()
            invariant
                old(self).wf(),
                self.wf(),
                0 <= i <= layout.families().len(),
                self.alive() == old(self).alive(),
                self.next_index() == old(self).next_index(),
                self.atomic_count() == old(self).atomic_count(),
                self.maintain_count() == old(self).maintain_count(),
                forall|ty: TypeData| #[trigger] self.members(ty) == old(self).members(ty),
                forall|ty: TypeData|
                    #[trigger] self.registered().contains(ty) <==> (old(self).registered().contains(ty)
                        || named_before(layout.families(), i as int, 0, ty)),
            decreases layout.families().len() - i,
        {
            let family = layout.family(i);
            let mut j: usize = 0;
            while j < family.len()
                invariant
                    old(self).wf(),
                    self.wf(),
                    0 <= i < layout.families().len(),
                    *family == layout.families()[i as int],
                    0 <= j <= family@.len(),
                    self.alive() == old(self).alive(),
                    self.next_index() == old(self).next_index(),
                    self.atomic_count() == old(self).atomic_count(),
                    self.maintain_count() == old(self).maintain_count(),
                    forall|ty: TypeData| #[trigger] self.members(ty) == old(self).members(ty),
                    forall|ty: TypeData|
                        #[trigger] self.registered().contains(ty) <==> (old(self).registered().contains(ty)
                            || named_before(layout.families(), i as int, j as int, ty)),
                decreases family@.len() - j,
            {
                let ghost pre = *self;
                let _ = self.register(family[j]);
                proof {
                    assert forall|ty: TypeData| #[trigger] self.members(ty) == old(self).members(ty) by {
                        assert(pre.members(ty) == old(self).members(ty));
                    }
                    assert forall|ty: TypeData| #[trigger] self.registered().contains(ty) <==> (old(self).registered().contains(ty) || named_before(layout.families(), i as int, j + 1, ty)) by {
                        assert(pre.registered().contains(ty) <==> (old(self).registered().contains(ty) || named_before(layout.families(), i as int, j as int, ty)));
                        lemma_named_step(layout.families(), i as int, j as int, ty);
                    }
                }
                j = j + 1;
            }
            proof {
                assert forall|ty: TypeData| #[trigger] self.registered().contains(ty) <==> (old(self).registered().contains(ty) || named_before(layout.families(), i + 1, 0, ty)) by {
                    lemma_named_next(layout.families(), i as int, ty);
                }
            }
            i = i + 1;
        }
        proof {
            assert forall|ty: TypeData| self.registered().contains(ty) <==> old(self).registered().union(layout.types()).contains(ty) by {
                lemma_named_all(layout.families(), ty);
            }
            assert(self.registered() =~= old(self).registered().union(layout.types()));
        }
    }

    /// Creates a storage without entities, in which the component types
    /// that `layout` names are registered.
    pub fn new(layout: &GroupLayout) -> (storage: EntityStorage<V>)
        ensures
            storage.wf(),
            storage.alive() == Seq::<Entity>::empty(),
            storage.next_index() == 0,
            storage.atomic_count() == 0,
            storage.maintain_count() == 0,
            storage.registered() == layout.types(),
            forall|ty: TypeData| #[trigger] storage.members(ty) == Seq::<Entity>::empty(),
    {
        let mut storage = EntityStorage::empty();
        let ghost start = storage;
        storage.set_layout(layout);
        proof {
            assert(storage.registered() =~= layout.types());
            assert forall|ty: TypeData| #[trigger] storage.members(ty) == Seq::<Entity>::empty() by {
                start.lemma_members(ty);
            }
        }
        storage
    }
}

/// Whether `ty` is named in one of the first `i` families, or among the
/// first `j` types of family `i`.
pub open spec fn named_before(families: Seq<Vec<TypeData>>, i: int, j: int, ty: TypeData) -> bool {
    exists|a: int, b: int|
        0 <= a < families.len() && 0 <= b < families[a]@.len() && (a < i || (a == i && b < j))
            && #[trigger] families[a]@[b] == ty
}

proof fn lemma_named_step(families: Seq<Vec<TypeData>>, i: int, j: int, ty: TypeData)
    requires
        0 <= i < families.len(),
        0 <= j < families[i]@.len(),
    ensures
        named_before(families, i, j + 1, ty) <==> (named_before(families, i, j, ty) || families[i]@[j] == ty),
{
    if named_before(families, i, j + 1, ty) {
        let (a, b) = choose|a: int, b: int|
            0 <= a < families.len() && 0 <= b < families[a]@.len() && (a < i || (a == i && b < j + 1))
                && #[trigger] families[a]@[b] == ty;
        if !(a == i && b == j) {
            assert(families[a]@[b] == ty);
        }
    }
    if named_before(families, i, j, ty) {
        let (a, b) = choose|a: int, b: int|
            0 <= a < families.len() && 0 <= b < families[a]@.len() && (a < i || (a == i && b < j))
                && #[trigger] families[a]@[b] == ty;
        assert(families[a]@[b] == ty);
    }
    if families[i]@[j] == ty {
        assert(named_before(families, i, j + 1, ty));
    }
}

proof fn lemma_named_next(families: Seq<Vec<TypeData>>, i: int, ty: TypeData)
    requires
        0 <= i < families.len(),
    ensures
        named_before(families, i + 1, 0, ty) <==> named_before(families, i, families[i]@.len() as int, ty),
{
    if named_before(families, i + 1, 0, ty) {
        let (a, b) = choose|a: int, b: int|
            0 <= a < families.len() && 0 <= b < families[a]@.len() && (a < i + 1 || (a == i + 1 && b < 0))
                && #[trigger] families[a]@[b] == ty;
        assert(families[a]@[b] == ty);
    }
    if named_before(families, i, families[i]@.len() as int, ty) {
        let (a, b) = choose|a: int, b: int|
            0 <= a < families.len() && 0 <= b < families[a]@.len() && (a < i || (a == i && b < families[i]@.len()))
                && #[trigger] families[a]@[b] == ty;
        assert(families[a]@[b] == ty);
    }
}

proof fn lemma_named_all(families: Seq<Vec<TypeData>>, ty: TypeData)
    ensures
        named_before(families, families.len() as int, 0, ty) <==> crate::entity::layout::families_contain(families, ty),
{
    if named_before(families, families.len() as int, 0, ty) {
        let (a, b) = choose|a: int, b: int|
            0 <= a < families.len() && 0 <= b < families[a]@.len() && (a < families.len() || (a == families.len() && b < 0))
                && #[trigger] families[a]@[b] == ty;
        assert(families[a]@[b] == ty);
    }
    if crate::entity::layout::families_contain(families, ty) {
        let (a, b) = choose|a: int, b: int| 0 <= a < families.len() && 0 <= b < families[a]@.len() && #[trigger] families[a]@[b] == ty;
        assert(families[a]@[b] == ty);
    }
}

} // verus!
