//! Commands: changes to the world that are queued while systems run and
//! applied, in the order in which they were queued, at the next
//! synchronization point.

use vstd::prelude::*;
use crate::entity::entity::{entity_at, fresh_entities, Entity, ATOMIC_BASE};
use crate::entity::storage::{attached, component_types, detached, extended, set_types, Entities};
use crate::system::deferred::{Deferred, SystemBuffer};
use crate::system::kind::SystemParamKind;
use crate::system::param::SystemParam;
use crate::util::{lemma_without, without, TypeData};
use crate::world::{UnsafeWorldCell, World};

verus! {

/// A [`World`] mutation.
pub trait Command<V: 'static>: Send + 'static {
    /// How the world after the command relates to the world before it.
    /// A command that does not say so claims nothing.
    open spec fn effect(&self, before: World<V>, after: World<V>) -> bool {
        true
    }

    /// Applies this command.
    fn apply(self, world: &mut World<V>) where Self: Sized
        requires
            old(world).wf(),
        ensures
            final(world).wf(),
            self.effect(*old(world), *final(world)),
    ;

    /// Applies this command, taken out of its box.
    fn apply_boxed(self: Box<Self>, world: &mut World<V>)
        requires
            old(world).wf(),
        ensures
            final(world).wf(),
            self.effect(*old(world), *final(world)),
    ;
}

impl<V: 'static> Command<V> for Box<dyn Command<V>> {
    open spec fn effect(&self, before: World<V>, after: World<V>) -> bool {
        (**self).effect(before, after)
    }

    fn apply(self, world: &mut World<V>) {
        self.apply_boxed(world)
    }

    fn apply_boxed(self: Box<Self>, world: &mut World<V>) {
        (*self).apply(world)
    }
}

/// Whether `after` is `before` maintained once: the count of maintenances
/// is up by one, the entities created under shared access are added to the
/// storage, and nothing else is changed.
pub open spec fn maintained<V>(before: World<V>, after: World<V>) -> bool {
    &&& after.entities.maintain_count() == before.entities.maintain_count() + 1
    &&& after.entities.atomic_count() >= before.entities.atomic_count()
    &&& after.entities.alive() == before.entities.alive() + fresh_entities(
        ATOMIC_BASE + before.entities.atomic_count(),
        ATOMIC_BASE + after.entities.atomic_count(),
    )
    &&& after.entities.next_index() == before.entities.next_index()
    &&& after.entities.storages() == before.entities.storages()
    &&& after.resources == before.resources
    &&& after.non_send_resources == before.non_send_resources
}

/// Whether the entities and the allocator are the same in both worlds.
pub open spec fn same_entities<V>(before: World<V>, after: World<V>) -> bool {
    &&& after.entities.alive() == before.entities.alive()
    &&& after.entities.next_index() == before.entities.next_index()
    &&& after.entities.atomic_count() == before.entities.atomic_count()
    &&& after.entities.maintain_count() == before.entities.maintain_count()
    &&& after.entities.registered() == before.entities.registered()
}

/// Whether the resources of both kinds are the same in both worlds.
pub open spec fn same_resources<V>(before: World<V>, after: World<V>) -> bool {
    &&& after.resources == before.resources
    &&& after.non_send_resources == before.non_send_resources
}

/// The structural changes to a world that can be queued.
#[allow(inconsistent_fields)]
pub enum WorldCommand<V> {
    /// Adds the entities created under shared access to the storage, then
    /// adds the components to the entity.
    Insert { entity: Entity, components: Vec<(TypeData, V)> },
    /// Creates one entity for each set of components. Nothing is created
    /// where the storage has fewer indexes left than there are sets.
    Extend { components: Vec<Vec<(TypeData, V)>> },
    /// Removes the components of the given types from the entity.
    Delete { entity: Entity, types: Vec<TypeData> },
    /// Removes the entity and its components.
    Destroy { entity: Entity },
    /// Inserts the resource under the given type.
    InsertResource { ty: TypeData, resource: V },
    /// Removes the resource of the given type.
    RemoveResource { ty: TypeData },
}

impl<V: Send + Sync + 'static> Command<V> for WorldCommand<V> {
    open spec fn effect(&self, before: World<V>, after: World<V>) -> bool {
        match *self {
            WorldCommand::Insert { entity, components } => {
                exists|mid: World<V>|
                    {
                        &&& #[trigger] maintained(before, mid)
                        &&& same_entities(mid, after)
                        &&& same_resources(mid, after)
                        &&& forall|ty: TypeData|
                            #[trigger] after.entities.members(ty) == attached(
                                mid.entities.members(ty),
                                entity,
                                mid.entities.alive().contains(entity) && mid.entities.all_registered(
                                    component_types(components@),
                                ) && component_types(components@).contains(ty),
                            )
                    }
            },
            WorldCommand::Extend { components } => {
                if before.entities.next_index() + components@.len() <= ATOMIC_BASE {
                    &&& after.entities.alive() == before.entities.alive() + fresh_entities(
                        before.entities.next_index() as int,
                        (before.entities.next_index() + components@.len()) as int,
                    )
                    &&& after.entities.next_index() == before.entities.next_index() + components@.len()
                    &&& after.entities.atomic_count() == before.entities.atomic_count()
                    &&& after.entities.maintain_count() == before.entities.maintain_count()
                    &&& after.entities.registered() == before.entities.registered()
                    &&& same_resources(before, after)
                    &&& forall|ty: TypeData|
                        #[trigger] after.entities.members(ty) == extended(
                            before.entities.members(ty),
                            set_types(components@),
                            before.entities.next_index() as int,
                            before.entities.registered(),
                            ty,
                        )
                } else {
                    after == before
                }
            },
            WorldCommand::Delete { entity, types } => {
                &&& same_entities(before, after)
                &&& same_resources(before, after)
                &&& forall|ty: TypeData|
                    #[trigger] after.entities.members(ty) == detached(
                        before.entities.members(ty),
                        entity,
                        types@.contains(ty),
                    )
            },
            WorldCommand::Destroy { entity } => {
                &&& after.entities.alive() == without(before.entities.alive(), entity)
                &&& after.entities.next_index() == before.entities.next_index()
                &&& after.entities.atomic_count() == before.entities.atomic_count()
                &&& after.entities.maintain_count() == before.entities.maintain_count()
                &&& after.entities.registered() == before.entities.registered()
                &&& same_resources(before, after)
                &&& forall|ty: TypeData|
                    #[trigger] after.entities.members(ty) == without(before.entities.members(ty), entity)
            },
            WorldCommand::InsertResource { ty, resource } => {
                &&& after.entities == before.entities
                &&& after.non_send_resources == before.non_send_resources
                &&& after.resources.types() == before.resources.types().insert(ty)
            },
            WorldCommand::RemoveResource { ty } => {
                &&& after.entities == before.entities
                &&& after.non_send_resources == before.non_send_resources
                &&& after.resources.types() == before.resources.types().remove(ty)
            },
        }
    }

    fn apply(self, world: &mut World<V>) {
        match self {
            WorldCommand::Insert { entity, components } => {
                world.maintain();
                let ghost mid = *world;
                let _ = world.insert(entity, components);
                assert(maintained(*old(world), mid));
            },
            WorldCommand::Extend { components } => {
                if components.len() as u64 <= ATOMIC_BASE - world.entities.next() {
                    let _ = world.extend(components);
                }
            },
            WorldCommand::Delete { entity, types } => {
                world.delete(entity, types.as_slice());
            },
            WorldCommand::Destroy { entity } => {
                let _ = world.destroy(entity);
            },
            WorldCommand::InsertResource { ty, resource } => {
                let _ = world.insert_resource(ty, resource);
            },
            WorldCommand::RemoveResource { ty } => {
                let _ = world.remove_resource(ty);
            },
        }
    }

    fn apply_boxed(self: Box<Self>, world: &mut World<V>) {
        (*self).apply(world)
    }
}

/// Whether command `i` of `commands` leads from world `i` of `worlds`, which
/// is well formed, to the next one.
pub open spec fn is_step<V: 'static, C: Command<V>>(commands: Seq<C>, worlds: Seq<World<V>>, i: int) -> bool {
    worlds[i].wf() && commands[i].effect(worlds[i], worlds[i + 1])
}

/// Whether `worlds` are the worlds that a run through `commands` passes:
/// it starts at `before`, each command leads from one world to the next,
/// and it ends at `after`.
pub open spec fn is_trace<V: 'static, C: Command<V>>(
    commands: Seq<C>,
    worlds: Seq<World<V>>,
    before: World<V>,
    after: World<V>,
) -> bool {
    &&& worlds.len() == commands.len() + 1
    &&& worlds[0] == before
    &&& worlds[commands.len() as int] == after
    &&& forall|i: int| 0 <= i < commands.len() ==> #[trigger] is_step(commands, worlds, i)
}

/// Whether `after` is the world that comes of `before` when the commands
/// are applied one after the other, the first one first.
pub open spec fn applied_in_order<V: 'static, C: Command<V>>(
    commands: Seq<C>,
    before: World<V>,
    after: World<V>,
) -> bool {
    exists|worlds: Seq<World<V>>| is_trace(commands, worlds, before, after)
}

/// A queue of commands that perform changes to the [`World`].
pub struct CommandQueue<C> {
    commands: Vec<C>,
}

impl<C> View for CommandQueue<C> {
    type V = Seq<C>;

    closed spec fn view(&self) -> Seq<C> {
        self.commands@
    }
}

impl<C> CommandQueue<C> {
    /// Creates an empty queue.
    pub fn new() -> (queue: CommandQueue<C>)
        ensures
            queue@ == Seq::<C>::empty(),
    {
        CommandQueue { commands: Vec::new() }
    }

    /// Returns the number of commands in the queue.
    pub fn len(&self) -> (len: usize)
        ensures
            len == self@.len(),
    {
        self.commands.len()
    }

    /// Returns whether the queue holds no command.
    pub fn is_empty(&self) -> (empty: bool)
        ensures
            empty == (self@.len() == 0),
    {
        self.commands.len() == 0
    }

    /// Push a command onto the queue.
    pub fn push(&mut self, command: C)
        ensures
            final(self)@ == old(self)@.push(command),
    {
        self.commands.push(command);
    }

    /// Take all commands from `other` and append them to `self`, leaving
    /// `other` empty.
    pub fn append(&mut self, other: &mut CommandQueue<C>)
        ensures
            final(self)@ == old(self)@ + old(other)@,
            final(other)@ == Seq::<C>::empty(),
    {
        self.commands.append(&mut other.commands);
    }

    /// Applies the commands to the world, in the order in which they were
    /// pushed, and leaves the queue empty.
    pub fn apply_to<V: 'static>(&mut self, world: &mut World<V>) where C: Command<V>
        requires
            old(world).wf(),
        ensures
            final(self)@ == Seq::<C>::empty(),
            final(world).wf(),
            applied_in_order(old(self)@, *old(world), *final(world)),
    {
        let mut pending: Vec<C> = Vec::new();
        core::mem::swap(&mut self.commands, &mut pending);
        let ghost all = pending@;
        let ghost mut done: int = 0;
        let ghost mut trace: Seq<World<V>> = seq![*world];
        while pending.len() > 0
            invariant
                self@ == Seq::<C>::empty(),
                all == old(self)@,
                0 <= done <= all.len(),
                pending@ == all.skip(done),
                world.wf(),
                is_trace(all.take(done), trace, *old(world), *world),
            decreases pending@.len(),
        {
            let ghost mid = *world;
            let command = pending.remove(0);
            proof {
                assert(all.skip(done)[0] == all[done]);
                assert(pending@ =~= all.skip(done + 1));
            }
            command.apply(world);
            proof {
                let prefix = all.take(done + 1);
                let longer = trace.push(*world);
                assert forall|i: int| 0 <= i < prefix.len() implies #[trigger] is_step(prefix, longer, i) by {
                    if i < done {
                        assert(all.take(done)[i] == prefix[i]);
                        assert(is_step(all.take(done), trace, i));
                    } else {
                        assert(prefix[i] == command);
                        assert(longer[i] == mid);
                    }
                }
                trace = longer;
                done = done + 1;
            }
        }
        proof {
            assert(all.take(done) =~= all);
        }
    }
}

impl<V: 'static, C: Command<V> + Sync> SystemBuffer<V> for CommandQueue<C> {
    open spec fn flushed(&self) -> bool {
        self@.len() == 0
    }

    open spec fn applied(&self, before: World<V>, after: World<V>) -> bool {
        applied_in_order(self@, before, after)
    }

    fn apply(&mut self, world: &mut World<V>) {
        self.apply_to(world);
    }
}

impl<C> Default for CommandQueue<C> {
    fn default() -> (queue: CommandQueue<C>)
        ensures
            queue@ == Seq::<C>::empty(),
    {
        CommandQueue::new()
    }
}

/// A queue of commands that change the [`World`], filled by a system while
/// it runs.
#[verifier::reject_recursive_types(V)]
pub struct Commands<'w, 's, V> {
    queue: Deferred<'s, CommandQueue<WorldCommand<V>>>,
    entities: Entities<'w>,
}

impl<'w, 's, V> Commands<'w, 's, V> {
    /// The commands that are queued, the oldest first.
    pub closed spec fn pending(&self) -> Seq<WorldCommand<V>> {
        self.queue.value()@
    }

    /// The entities that are in the storage while the commands are held
    /// back.
    pub closed spec fn alive(&self) -> Seq<Entity> {
        self.entities.alive()
    }

    /// The lowest index that the commands hand out to a new entity.
    pub closed spec fn atomic_base(&self) -> u64 {
        self.entities.atomic_base()
    }

    /// The invariant of the entity view that the commands hold.
    pub closed spec fn wf(&self) -> bool {
        self.entities.wf()
    }

    /// Creates a new entity without requiring exclusive access to the
    /// storage. The entity is not added to the storage until the storage
    /// is maintained.
    ///
    /// Returns the newly created entity.
    pub fn create_atomic(&self) -> (entity: Entity)
        requires
            self.wf(),
        ensures
            exists|offset: u64| entity == #[trigger] entity_at(self.atomic_base(), offset),
            !self.alive().contains(entity),
    {
        let entity = self.entities.create_atomic();
        proof {
            let offset = choose|offset: u64| entity == #[trigger] entity_at(self.entities.atomic_base(), offset);
            assert(entity == entity_at(self.atomic_base(), offset));
        }
        entity
    }

    /// Creates a new entity with the given `components`.
    ///
    /// Returns the newly created entity.
    pub fn create(&mut self, components: Vec<(TypeData, V)>) -> (entity: Entity)
        requires
            old(self).wf(),
        ensures
            final(self).wf(),
            final(self).alive() == old(self).alive(),
            final(self).atomic_base() == old(self).atomic_base(),
            exists|offset: u64| entity == #[trigger] entity_at(old(self).atomic_base(), offset),
            !old(self).alive().contains(entity),
            final(self).pending() == old(self).pending().push(WorldCommand::Insert { entity, components }),
    {
        let entity = self.create_atomic();
        self.insert(entity, components);
        entity
    }

    /// Creates new entities with the given sets of components.
    pub fn extend(&mut self, components: Vec<Vec<(TypeData, V)>>)
        ensures
            final(self).wf() == old(self).wf(),
            final(self).alive() == old(self).alive(),
            final(self).atomic_base() == old(self).atomic_base(),
            final(self).pending() == old(self).pending().push(WorldCommand::Extend { components }),
    {
        self.queue.get_mut().push(WorldCommand::Extend { components });
    }

    /// Adds the given `components` to `entity` if `entity` is present in
    /// the storage.
    pub fn insert(&mut self, entity: Entity, components: Vec<(TypeData, V)>)
        ensures
            final(self).wf() == old(self).wf(),
            final(self).alive() == old(self).alive(),
            final(self).atomic_base() == old(self).atomic_base(),
            final(self).pending() == old(self).pending().push(WorldCommand::Insert { entity, components }),
    {
        self.queue.get_mut().push(WorldCommand::Insert { entity, components });
    }

    /// Removes the components of the given `types` from the given
    /// `entity`.
    pub fn delete(&mut self, entity: Entity, types: Vec<TypeData>)
        ensures
            final(self).wf() == old(self).wf(),
            final(self).alive() == old(self).alive(),
            final(self).atomic_base() == old(self).atomic_base(),
            final(self).pending() == old(self).pending().push(WorldCommand::Delete { entity, types }),
    {
        self.queue.get_mut().push(WorldCommand::Delete { entity, types });
    }

    /// Removes the given `entity` and its components from the storage.
    pub fn destroy(&mut self, entity: Entity)
        ensures
            final(self).wf() == old(self).wf(),
            final(self).alive() == old(self).alive(),
            final(self).atomic_base() == old(self).atomic_base(),
            final(self).pending() == old(self).pending().push(WorldCommand::Destroy { entity }),
    {
        self.queue.get_mut().push(WorldCommand::Destroy { entity });
    }

    /// Insert a resource into the storage.
    pub fn insert_resource(&mut self, ty: TypeData, resource: V)
        ensures
            final(self).wf() == old(self).wf(),
            final(self).alive() == old(self).alive(),
            final(self).atomic_base() == old(self).atomic_base(),
            final(self).pending() == old(self).pending().push(WorldCommand::InsertResource { ty, resource }),
    {
        self.queue.get_mut().push(WorldCommand::InsertResource { ty, resource });
    }

    /// Removes a resource from the storage.
    pub fn remove_resource(&mut self, ty: TypeData)
        ensures
            final(self).wf() == old(self).wf(),
            final(self).alive() == old(self).alive(),
            final(self).atomic_base() == old(self).atomic_base(),
            final(self).pending() == old(self).pending().push(WorldCommand::RemoveResource { ty }),
    {
        self.queue.get_mut().push(WorldCommand::RemoveResource { ty });
    }
}

impl<V: Send + Sync + 'static> SystemParam<V> for Commands<'_, '_, V> {
    type State = CommandQueue<WorldCommand<V>>;

    type Item<'w, 's> = Commands<'w, 's, V>;

    open spec fn spec_send() -> bool {
        true
    }

    open spec fn spec_kinds() -> Seq<SystemParamKind> {
        seq![SystemParamKind::Entities]
    }

    open spec fn spec_flushed(state: &Self::State) -> bool {
        state@.len() == 0
    }

    open spec fn init_relation(before: World<V>, state: &Self::State, after: World<V>) -> bool {
        after == before && state@ == Seq::<WorldCommand<V>>::empty()
    }

    open spec fn apply_relation(
        state_before: &Self::State,
        before: World<V>,
        state_after: &Self::State,
        after: World<V>,
    ) -> bool {
        applied_in_order(state_before@, before, after) && state_after@ == Seq::<WorldCommand<V>>::empty()
    }

    open spec fn borrowed<'w, 's>(state: &Self::State, world: World<V>, item: &Self::Item<'w, 's>) -> bool {
        item.wf() && item.alive() == world.entities.alive() && item.pending() == state@
    }

    fn send() -> (send: bool) {
        true
    }

    fn param_kinds(kinds: &mut Vec<SystemParamKind>) {
        kinds.push(SystemParamKind::Entities);
        assert(kinds@ =~= old(kinds)@ + seq![SystemParamKind::Entities]);
    }

    fn init_state(world: &mut World<V>) -> (state: Self::State) {
        CommandQueue::new()
    }

    fn apply(state: &mut Self::State, world: &mut World<V>) {
        state.apply_to(world);
    }

    fn borrow<'w, 's>(state: &'s mut Self::State, world: UnsafeWorldCell<'w, V>) -> (item: Self::Item<
        'w,
        's,
    >) {
        Commands { queue: Deferred(state), entities: world.entities().borrow_entities() }
    }
}

/// A queued command that destroys an entity takes effect when the queue is
/// applied, not before: once a queue that holds only that command has been
/// applied, the entity is in the storage no more, and every other entity
/// is where it was.
pub proof fn lemma_destroy_takes_effect_on_apply<V: Send + Sync + 'static>(
    entity: Entity,
    before: World<V>,
    after: World<V>,
)
    requires
        before.wf(),
        applied_in_order(seq![WorldCommand::<V>::Destroy { entity }], before, after),
    ensures
        !after.entities.alive().contains(entity),
        forall|other: Entity|
            other != entity ==> (after.entities.alive().contains(other) <==> before.entities.alive().contains(
                other,
            )),
{
    let commands = seq![WorldCommand::<V>::Destroy { entity }];
    let worlds = choose|worlds: Seq<World<V>>| is_trace(commands, worlds, before, after);
    assert(is_step(commands, worlds, 0));
    lemma_without(before.entities.alive(), entity);
}

} // verus!
