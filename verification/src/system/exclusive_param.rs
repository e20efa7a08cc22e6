//! The parameters that an exclusive system can declare.

use vstd::prelude::*;
use crate::system::local::{Local, LocalData};
use crate::world::{FromWorld, World};

verus! {

/// Trait implemented by types that can be borrowed by exclusive systems
/// during execution. A tuple of parameters is a parameter: its state is
/// made and borrowed member by member, in order.
pub trait ExclusiveSystemParam<V: 'static> {
    /// The state used by this parameter.
    type State: LocalData;

    /// What the system's function receives for this parameter.
    type Item<'s>;

    /// How a newly made state and the world afterwards relate to the world
    /// before.
    spec fn init_relation(before: World<V>, state: &Self::State, after: World<V>) -> bool;

    /// How what is borrowed relates to the state that it is borrowed from.
    spec fn borrowed<'s>(state: &Self::State, item: &Self::Item<'s>) -> bool;

    /// Create the initial state from the [`World`].
    fn init_state(world: &mut World<V>) -> (state: Self::State)
        requires
            old(world).wf(),
        ensures
            final(world).wf(),
            Self::init_relation(*old(world), &state, *final(world)),
    ;

    /// Borrows the parameter from its state.
    #[must_use]
    fn borrow<'s>(state: &'s mut Self::State) -> (item: Self::Item<'s>)
        ensures
            Self::borrowed(old(state), &item),
    ;
}

impl<V: 'static, T: LocalData + FromWorld<V>> ExclusiveSystemParam<V> for Local<'_, T> {
    type State = T;

    type Item<'s> = Local<'s, T>;

    open spec fn init_relation(before: World<V>, state: &Self::State, after: World<V>) -> bool {
        T::made(before, state, after)
    }

    open spec fn borrowed<'s>(state: &Self::State, item: &Self::Item<'s>) -> bool {
        item.value() == *state
    }

    fn init_state(world: &mut World<V>) -> Self::State {
        T::from_world(world)
    }

    fn borrow<'s>(state: &'s mut Self::State) -> (item: Self::Item<'s>)
        ensures
            *final(state) == *final(item.0),
    {
        Local(state)
    }
}

impl<V: 'static> ExclusiveSystemParam<V> for () {
    type State = ();

    type Item<'s> = ();

    open spec fn init_relation(before: World<V>, state: &Self::State, after: World<V>) -> bool {
        after == before
    }

    open spec fn borrowed<'s>(state: &Self::State, item: &Self::Item<'s>) -> bool {
        true
    }

    fn init_state(world: &mut World<V>) -> Self::State {
    }

    fn borrow<'s>(state: &'s mut Self::State) -> Self::Item<'s> {
    }
}

impl<V: 'static, A: ExclusiveSystemParam<V>> ExclusiveSystemParam<V> for (A,) {
    type State = (A::State,);

    type Item<'s> = (A::Item<'s>,);

    open spec fn init_relation(before: World<V>, state: &Self::State, after: World<V>) -> bool {
        A::init_relation(before, &state.0, after)
    }

    open spec fn borrowed<'s>(state: &Self::State, item: &Self::Item<'s>) -> bool {
        A::borrowed(&state.0, &item.0)
    }

    fn init_state(world: &mut World<V>) -> Self::State {
        (A::init_state(world),)
    }

    fn borrow<'s>(state: &'s mut Self::State) -> Self::Item<'s> {
        (A::borrow(&mut state.0),)
    }
}

impl<V: 'static, A: ExclusiveSystemParam<V>, B: ExclusiveSystemParam<V>> ExclusiveSystemParam<V> for (A, B) {
    type State = (A::State, B::State);

    type Item<'s> = (A::Item<'s>, B::Item<'s>);

    open spec fn init_relation(before: World<V>, state: &Self::State, after: World<V>) -> bool {
        exists|middle: World<V>|
            #[trigger] A::init_relation(before, &state.0, middle) && middle.wf() && B::init_relation(
                middle,
                &state.1,
                after,
            )
    }

    open spec fn borrowed<'s>(state: &Self::State, item: &Self::Item<'s>) -> bool {
        A::borrowed(&state.0, &item.0) && B::borrowed(&state.1, &item.1)
    }

    fn init_state(world: &mut World<V>) -> Self::State {
        let a = A::init_state(world);
        let ghost middle = *world;
        let b = B::init_state(world);
        let state = (a, b);
        proof {
            assert(A::init_relation(*old(world), &state.0, middle) && middle.wf() && B::init_relation(
                middle,
                &state.1,
                *world,
            ));
        }
        state
    }

    fn borrow<'s>(state: &'s mut Self::State) -> Self::Item<'s> {
        (A::borrow(&mut state.0), B::borrow(&mut state.1))
    }
}

impl<V: 'static, A: ExclusiveSystemParam<V>, B: ExclusiveSystemParam<V>, C: ExclusiveSystemParam<V>> ExclusiveSystemParam<V> for (A, B, C) {
    type State = (A::State, B::State, C::State);

    type Item<'s> = (A::Item<'s>, B::Item<'s>, C::Item<'s>);

    open spec fn init_relation(before: World<V>, state: &Self::State, after: World<V>) -> bool {
        exists|first: World<V>, second: World<V>|
            #[trigger] A::init_relation(before, &state.0, first) && first.wf() && #[trigger] B::init_relation(
                first,
                &state.1,
                second,
            ) && second.wf() && C::init_relation(second, &state.2, after)
    }

    open spec fn borrowed<'s>(state: &Self::State, item: &Self::Item<'s>) -> bool {
        A::borrowed(&state.0, &item.0) && B::borrowed(&state.1, &item.1) && C::borrowed(&state.2, &item.2)
    }

    fn init_state(world: &mut World<V>) -> Self::State {
        let a = A::init_state(world);
        let ghost first = *world;
        let b = B::init_state(world);
        let ghost second = *world;
        let c = C::init_state(world);
        let state = (a, b, c);
        proof {
            assert(A::init_relation(*old(world), &state.0, first) && first.wf() && B::init_relation(
                first,
                &state.1,
                second,
            ) && second.wf() && C::init_relation(second, &state.2, *world));
        }
        state
    }

    fn borrow<'s>(state: &'s mut Self::State) -> Self::Item<'s> {
        (A::borrow(&mut state.0), B::borrow(&mut state.1), C::borrow(&mut state.2))
    }
}

} // verus!
