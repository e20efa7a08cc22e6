//! State that a system keeps between runs.

use vstd::prelude::*;
use crate::system::kind::SystemParamKind;
use crate::system::param::{ReadonlySystemParam, SystemParam};
use crate::world::{FromWorld, UnsafeWorldCell, World};

verus! {

/// State local to a system.
pub struct Local<'s, T>(pub &'s mut T);

/// Marker trait for types that can be used as system state.
pub trait LocalData: Send + Sync + 'static {}

impl<T: Send + Sync + 'static> LocalData for T {}

impl<'s, T> Local<'s, T> {
    /// The state as it is now.
    pub open spec fn value(&self) -> T {
        *self.0
    }

    /// The state.
    pub fn get(&self) -> (state: &T)
        ensures
            *state == self.value(),
    {
        &*self.0
    }

    /// The state, open to change.
    pub fn get_mut(&mut self) -> (state: &mut T)
        ensures
            *state == old(self).value(),
            final(self).value() == *final(state),
    {
        &mut *self.0
    }

    /// Replaces the state by `value`.
    pub fn set(&mut self, value: T)
        ensures
            final(self).value() == value,
    {
        *self.0 = value;
    }
}

impl<V: 'static, T: LocalData + FromWorld<V>> SystemParam<V> for Local<'_, T> {
    type State = T;

    type Item<'w, 's> = Local<'s, T>;

    open spec fn spec_send() -> bool {
        true
    }

    open spec fn spec_kinds() -> Seq<SystemParamKind> {
        Seq::empty()
    }

    open spec fn spec_flushed(state: &Self::State) -> bool {
        true
    }

    open spec fn init_relation(before: World<V>, state: &Self::State, after: World<V>) -> bool {
        T::made(before, state, after)
    }

    open spec fn apply_relation(
        state_before: &Self::State,
        before: World<V>,
        state_after: &Self::State,
        after: World<V>,
    ) -> bool {
        after == before && *state_after == *state_before
    }

    open spec fn borrowed<'w, 's>(state: &Self::State, world: World<V>, item: &Self::Item<'w, 's>) -> bool {
        item.value() == *state
    }

    fn send() -> (send: bool) {
        true
    }

    fn param_kinds(kinds: &mut Vec<SystemParamKind>) {
        assert(kinds@ =~= old(kinds)@ + Seq::<SystemParamKind>::empty());
    }

    fn init_state(world: &mut World<V>) -> Self::State {
        T::from_world(world)
    }

    fn apply(state: &mut Self::State, world: &mut World<V>) {
    }

    fn borrow<'w, 's>(state: &'s mut Self::State, world: UnsafeWorldCell<'w, V>) -> (item: Self::Item<'w, 's>)
        ensures
            *final(state) == *final(item.0),
    {
        Local(state)
    }
}

impl<V: 'static, T: LocalData + FromWorld<V>> ReadonlySystemParam<V> for Local<'_, T> {}

} // verus!
