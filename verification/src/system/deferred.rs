//! Buffers that hold back changes to the world until a synchronization
//! point.

use vstd::prelude::*;
use crate::system::kind::SystemParamKind;
use crate::system::param::{ReadonlySystemParam, SystemParam};
use crate::world::{FromWorld, UnsafeWorldCell, World};

verus! {

/// Types that can be used with [`Deferred<T>`] in systems.
pub trait SystemBuffer<V>: Send + Sync + 'static {
    /// Whether the buffer holds back no change to the world. A buffer that
    /// does not say so claims nothing.
    open spec fn flushed(&self) -> bool {
        true
    }

    /// How the world after the buffer was applied relates to the buffer
    /// and the world before. A buffer that does not say so claims nothing.
    open spec fn applied(&self, before: World<V>, after: World<V>) -> bool {
        true
    }

    /// Applies any deferred mutations to the [`World`].
    fn apply(&mut self, world: &mut World<V>)
        requires
            old(world).wf(),
        ensures
            final(world).wf(),
            final(self).flushed(),
            old(self).applied(*old(world), *final(world)),
    ;
}

/// A system parameter that stores a buffer to defer world mutations.
pub struct Deferred<'a, T>(pub &'a mut T);

impl<'a, T> Deferred<'a, T> {
    /// The buffer as it is now.
    pub open spec fn value(&self) -> T {
        *self.0
    }

    /// Returns a [`Deferred<T>`] with a smaller lifetime.
    pub fn reborrow(&mut self) -> (shorter: Deferred<'_, T>)
        ensures
            shorter.value() == old(self).value(),
            final(self).value() == *final(shorter.0),
    {
        Deferred(&mut *self.0)
    }

    /// The buffer.
    pub fn get(&self) -> (buffer: &T)
        ensures
            *buffer == self.value(),
    {
        &*self.0
    }

    /// The buffer, open to change.
    pub fn get_mut(&mut self) -> (buffer: &mut T)
        ensures
            *buffer == old(self).value(),
            final(self).value() == *final(buffer),
    {
        &mut *self.0
    }
}

impl<V: 'static, T: SystemBuffer<V> + FromWorld<V>> SystemParam<V> for Deferred<'_, T> {
    type State = T;

    type Item<'w, 's> = Deferred<'s, T>;

    open spec fn spec_send() -> bool {
        true
    }

    open spec fn spec_kinds() -> Seq<SystemParamKind> {
        Seq::empty()
    }

    open spec fn spec_flushed(state: &Self::State) -> bool {
        state.flushed()
    }

    open spec fn init_relation(before: World<V>, state: &Self::State, after: World<V>) -> bool {
        T::made(before, state, after)
    }

    open spec fn apply_relation(
        state_before: &Self::State,
        before: World<V>,
        state_after: &Self::State,
        after: World<V>,
    ) -> bool {
        state_before.applied(before, after)
    }

    open spec fn borrowed<'w, 's>(state: &Self::State, world: World<V>, item: &Self::Item<'w, 's>) -> bool {
        item.value() == *state
    }

    fn send() -> (send: bool) {
        true
    }

    fn param_kinds(kinds: &mut Vec<SystemParamKind>) {
        assert(kinds@ =~= old(kinds)@ + Seq::<SystemParamKind>::empty());
    }

    fn init_state(world: &mut World<V>) -> Self::State {
        T::from_world(world)
    }

    fn apply(state: &mut Self::State, world: &mut World<V>) {
        state.apply(world);
    }

    fn borrow<'w, 's>(state: &'s mut Self::State, world: UnsafeWorldCell<'w, V>) -> (item: Self::Item<'w, 's>)
        ensures
            *final(state) == *final(item.0),
    {
        Deferred(state)
    }
}

impl<V: 'static, T: SystemBuffer<V> + FromWorld<V>> ReadonlySystemParam<V> for Deferred<'_, T> {}

} // verus!
