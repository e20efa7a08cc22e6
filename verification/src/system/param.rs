//! The parameters that a system can declare, and what each of them borrows.

use vstd::prelude::*;
use crate::entity::component::{Comp, CompMut};
use crate::entity::storage::Entities;
use crate::resource::borrow::{NonSend, NonSendMut, Res, ResMut};
use crate::system::kind::SystemParamKind;
use crate::system::local::LocalData;
use crate::util::TypeData;
use crate::world::{UnsafeWorldCell, World};

verus! {

/// Trait implemented by types that can be borrowed by systems during
/// execution.
///
/// A tuple of parameters is a parameter: it is thread-safe where all its
/// members are, and its kinds are those of its members, in order. Its state
/// is made, applied and borrowed member by member, in order.
pub trait SystemParam<V: 'static> {
    /// The state used by this parameter.
    type State: LocalData;

    /// What the system's function receives for this parameter.
    type Item<'w, 's>;

    /// Whether this parameter may be used on any thread.
    spec fn spec_send() -> bool;

    /// The parameter kinds used by this parameter.
    spec fn spec_kinds() -> Seq<SystemParamKind>;

    /// Whether the state holds back no change to the world.
    spec fn spec_flushed(state: &Self::State) -> bool;

    /// How a newly made state and the world afterwards relate to the world
    /// before.
    spec fn init_relation(before: World<V>, state: &Self::State, after: World<V>) -> bool;

    /// How the state and the world after the deferred mutations were
    /// applied relate to the state and the world before.
    spec fn apply_relation(
        state_before: &Self::State,
        before: World<V>,
        state_after: &Self::State,
        after: World<V>,
    ) -> bool;

    /// How what is borrowed relates to the state and the world that it is
    /// borrowed from.
    spec fn borrowed<'w, 's>(state: &Self::State, world: World<V>, item: &Self::Item<'w, 's>) -> bool;

    /// Returns whether this parameter may be used on any thread.
    fn send() -> (send: bool)
        ensures
            send == Self::spec_send(),
    ;

    /// Adds all parameter kinds used by this parameter to `kinds`.
    fn param_kinds(kinds: &mut Vec<SystemParamKind>)
        ensures
            final(kinds)@ == old(kinds)@ + Self::spec_kinds(),
    ;

    /// Create the initial state from the [`World`].
    fn init_state(world: &mut World<V>) -> (state: Self::State)
        requires
            old(world).wf(),
        ensures
            final(world).wf(),
            Self::init_relation(*old(world), &state, *final(world)),
    ;

    /// Apply any deferred mutations to the [`World`].
    fn apply(state: &mut Self::State, world: &mut World<V>)
        requires
            old(world).wf(),
        ensures
            final(world).wf(),
            Self::spec_flushed(final(state)),
            Self::apply_relation(old(state), *old(world), final(state), *final(world)),
    ;

    /// Borrows data from the [`World`].
    #[must_use]
    fn borrow<'w, 's>(state: &'s mut Self::State, world: UnsafeWorldCell<'w, V>) -> (item: Self::Item<
        'w,
        's,
    >)
        requires
            world.target().wf(),
        ensures
            Self::borrowed(old(state), world.target(), &item),
    ;
}

/// A [`SystemParam`] that only reads the [`World`]. A tuple of parameters
/// is read-only where all its members are.
pub trait ReadonlySystemParam<V: 'static>: SystemParam<V> {}

/// Declares a shared view over the components of the type with the
/// identifier `T`. The system receives the view, or nothing where the type
/// is not registered or the view is refused: the library does not fail
/// loudly in the system's place, the system decides what to do without its
/// parameter.
pub struct ReadComp<const T: u64>;

/// Declares an exclusive view over the components of the type with the
/// identifier `T`. The system receives the view, or nothing where the type
/// is not registered or the view is refused: the library does not fail
/// loudly in the system's place, the system decides what to do without its
/// parameter.
pub struct WriteComp<const T: u64>;

/// Declares a shared borrow of the resource of the type with the identifier
/// `T`. The system receives the borrow, or nothing where the resource is
/// absent or the borrow is refused: the library does not fail loudly in
/// the system's place, the system decides what to do without its parameter.
pub struct ReadRes<const T: u64>;

/// Declares an exclusive borrow of the resource of the type with the
/// identifier `T`. The system receives the borrow, or nothing where the
/// resource is absent or the borrow is refused: the library does not fail
/// loudly in the system's place, the system decides what to do without its
/// parameter.
pub struct WriteRes<const T: u64>;

/// Declares a shared borrow of the thread-bound resource of the type with
/// the identifier `T`. The system receives the borrow, or nothing where the
/// resource is absent or the borrow is refused: the library does not fail
/// loudly in the system's place, the system decides what to do without its
/// parameter.
pub struct ReadNonSend<const T: u64>;

/// Declares an exclusive borrow of the thread-bound resource of the type
/// with the identifier `T`. The system receives the borrow, or nothing
/// where the resource is absent or the borrow is refused: the library does
/// not fail loudly in the system's place, the system decides what to do
/// without its parameter.
pub struct WriteNonSend<const T: u64>;

impl<V: 'static> SystemParam<V> for Entities<'_> {
    type State = ();

    type Item<'w, 's> = Entities<'w>;

    open spec fn spec_send() -> bool {
        true
    }

    open spec fn spec_kinds() -> Seq<SystemParamKind> {
        seq![SystemParamKind::Entities]
    }

    open spec fn spec_flushed(state: &Self::State) -> bool {
        true
    }

    open spec fn init_relation(before: World<V>, state: &Self::State, after: World<V>) -> bool {
        after == before
    }

    open spec fn apply_relation(
        state_before: &Self::State,
        before: World<V>,
        state_after: &Self::State,
        after: World<V>,
    ) -> bool {
        after == before
    }

    open spec fn borrowed<'w, 's>(state: &Self::State, world: World<V>, item: &Self::Item<'w, 's>) -> bool {
        item.wf() && item.alive() == world.entities.alive()
    }

    fn send() -> (send: bool) {
        true
    }

    fn param_kinds(kinds: &mut Vec<SystemParamKind>) {
        kinds.push(SystemParamKind::Entities);
        assert(kinds@ =~= old(kinds)@ + seq![SystemParamKind::Entities]);
    }

    fn init_state(world: &mut World<V>) -> Self::State {
    }

    fn apply(state: &mut Self::State, world: &mut World<V>) {
    }

    fn borrow<'w, 's>(state: &'s mut Self::State, world: UnsafeWorldCell<'w, V>) -> (item: Self::Item<
        'w,
        's,
    >) {
        world.entities().borrow_entities()
    }
}

impl<V: 'static> ReadonlySystemParam<V> for Entities<'_> {}

impl<V: 'static, const T: u64> SystemParam<V> for ReadComp<T> {
    type State = ();

    type Item<'w, 's> = Option<Comp<'w, V>>;

    open spec fn spec_send() -> bool {
        true
    }

    open spec fn spec_kinds() -> Seq<SystemParamKind> {
        seq![SystemParamKind::Comp(TypeData { id: T })]
    }

    open spec fn spec_flushed(state: &Self::State) -> bool {
        true
    }

    open spec fn init_relation(before: World<V>, state: &Self::State, after: World<V>) -> bool {
        after == before
    }

    open spec fn apply_relation(
        state_before: &Self::State,
        before: World<V>,
        state_after: &Self::State,
        after: World<V>,
    ) -> bool {
        after == before
    }

    open spec fn borrowed<'w, 's>(state: &Self::State, world: World<V>, item: &Self::Item<'w, 's>) -> bool {
        *item is Some ==> world.entities.registered().contains(TypeData { id: T }) && item->0.ty() == (TypeData { id: T })
            && item->0.members() == world.entities.members(TypeData { id: T })
    }

    fn send() -> (send: bool) {
        true
    }

    fn param_kinds(kinds: &mut Vec<SystemParamKind>) {
        kinds.push(SystemParamKind::Comp(TypeData::new(T)));
        assert(kinds@ =~= old(kinds)@ + seq![SystemParamKind::Comp(TypeData { id: T })]);
    }

    fn init_state(world: &mut World<V>) -> Self::State {
    }

    fn apply(state: &mut Self::State, world: &mut World<V>) {
    }

    fn borrow<'w, 's>(state: &'s mut Self::State, world: UnsafeWorldCell<'w, V>) -> (item: Self::Item<
        'w,
        's,
    >) {
        world.entities().borrow(TypeData::new(T))
    }
}

impl<V: 'static, const T: u64> ReadonlySystemParam<V> for ReadComp<T> {}

impl<V: 'static, const T: u64> SystemParam<V> for WriteComp<T> {
    type State = ();

    type Item<'w, 's> = Option<CompMut<'w, V>>;

    open spec fn spec_send() -> bool {
        true
    }

    open spec fn spec_kinds() -> Seq<SystemParamKind> {
        seq![SystemParamKind::CompMut(TypeData { id: T })]
    }

    open spec fn spec_flushed(state: &Self::State) -> bool {
        true
    }

    open spec fn init_relation(before: World<V>, state: &Self::State, after: World<V>) -> bool {
        after == before
    }

    open spec fn apply_relation(
        state_before: &Self::State,
        before: World<V>,
        state_after: &Self::State,
        after: World<V>,
    ) -> bool {
        after == before
    }

    open spec fn borrowed<'w, 's>(state: &Self::State, world: World<V>, item: &Self::Item<'w, 's>) -> bool {
        *item is Some ==> world.entities.registered().contains(TypeData { id: T }) && item->0.ty() == (TypeData { id: T })
            && item->0.members() == world.entities.members(TypeData { id: T })
    }

    fn send() -> (send: bool) {
        true
    }

    fn param_kinds(kinds: &mut Vec<SystemParamKind>) {
        kinds.push(SystemParamKind::CompMut(TypeData::new(T)));
        assert(kinds@ =~= old(kinds)@ + seq![SystemParamKind::CompMut(TypeData { id: T })]);
    }

    fn init_state(world: &mut World<V>) -> Self::State {
    }

    fn apply(state: &mut Self::State, world: &mut World<V>) {
    }

    fn borrow<'w, 's>(state: &'s mut Self::State, world: UnsafeWorldCell<'w, V>) -> (item: Self::Item<
        'w,
        's,
    >) {
        world.entities().borrow_mut(TypeData::new(T))
    }
}

impl<V: 'static, const T: u64> SystemParam<V> for ReadRes<T> {
    type State = ();

    type Item<'w, 's> = Option<Res<'w, V>>;

    open spec fn spec_send() -> bool {
        true
    }

    open spec fn spec_kinds() -> Seq<SystemParamKind> {
        seq![SystemParamKind::Res(TypeData { id: T })]
    }

    open spec fn spec_flushed(state: &Self::State) -> bool {
        true
    }

    open spec fn init_relation(before: World<V>, state: &Self::State, after: World<V>) -> bool {
        after == before
    }

    open spec fn apply_relation(
        state_before: &Self::State,
        before: World<V>,
        state_after: &Self::State,
        after: World<V>,
    ) -> bool {
        after == before
    }

    open spec fn borrowed<'w, 's>(state: &Self::State, world: World<V>, item: &Self::Item<'w, 's>) -> bool {
        *item is Some ==> world.resources.types().contains(TypeData { id: T })
    }

    fn send() -> (send: bool) {
        true
    }

    fn param_kinds(kinds: &mut Vec<SystemParamKind>) {
        kinds.push(SystemParamKind::Res(TypeData::new(T)));
        assert(kinds@ =~= old(kinds)@ + seq![SystemParamKind::Res(TypeData { id: T })]);
    }

    fn init_state(world: &mut World<V>) -> Self::State {
    }

    fn apply(state: &mut Self::State, world: &mut World<V>) {
    }

    fn borrow<'w, 's>(state: &'s mut Self::State, world: UnsafeWorldCell<'w, V>) -> (item: Self::Item<
        'w,
        's,
    >) {
        world.resources().try_borrow(TypeData::new(T))
    }
}

impl<V: 'static, const T: u64> ReadonlySystemParam<V> for ReadRes<T> {}

impl<V: 'static, const T: u64> SystemParam<V> for WriteRes<T> {
    type State = ();

    type Item<'w, 's> = Option<ResMut<'w, V>>;

    open spec fn spec_send() -> bool {
        true
    }

    open spec fn spec_kinds() -> Seq<SystemParamKind> {
        seq![SystemParamKind::ResMut(TypeData { id: T })]
    }

    open spec fn spec_flushed(state: &Self::State) -> bool {
        true
    }

    open spec fn init_relation(before: World<V>, state: &Self::State, after: World<V>) -> bool {
        after == before
    }

    open spec fn apply_relation(
        state_before: &Self::State,
        before: World<V>,
        state_after: &Self::State,
        after: World<V>,
    ) -> bool {
        after == before
    }

    open spec fn borrowed<'w, 's>(state: &Self::State, world: World<V>, item: &Self::Item<'w, 's>) -> bool {
        *item is Some ==> world.resources.types().contains(TypeData { id: T })
    }

    fn send() -> (send: bool) {
        true
    }

    fn param_kinds(kinds: &mut Vec<SystemParamKind>) {
        kinds.push(SystemParamKind::ResMut(TypeData::new(T)));
        assert(kinds@ =~= old(kinds)@ + seq![SystemParamKind::ResMut(TypeData { id: T })]);
    }

    fn init_state(world: &mut World<V>) -> Self::State {
    }

    fn apply(state: &mut Self::State, world: &mut World<V>) {
    }

    fn borrow<'w, 's>(state: &'s mut Self::State, world: UnsafeWorldCell<'w, V>) -> (item: Self::Item<
        'w,
        's,
    >) {
        world.resources().try_borrow_mut(TypeData::new(T))
    }
}

impl<V: 'static, const T: u64> SystemParam<V> for ReadNonSend<T> {
    type State = ();

    type Item<'w, 's> = Option<NonSend<'w, V>>;

    open spec fn spec_send() -> bool {
        false
    }

    open spec fn spec_kinds() -> Seq<SystemParamKind> {
        seq![SystemParamKind::NonSend(TypeData { id: T })]
    }

    open spec fn spec_flushed(state: &Self::State) -> bool {
        true
    }

    open spec fn init_relation(before: World<V>, state: &Self::State, after: World<V>) -> bool {
        after == before
    }

    open spec fn apply_relation(
        state_before: &Self::State,
        before: World<V>,
        state_after: &Self::State,
        after: World<V>,
    ) -> bool {
        after == before
    }

    open spec fn borrowed<'w, 's>(state: &Self::State, world: World<V>, item: &Self::Item<'w, 's>) -> bool {
        *item is Some ==> world.non_send_resources.types().contains(TypeData { id: T })
    }

    fn send() -> (send: bool) {
        false
    }

    fn param_kinds(kinds: &mut Vec<SystemParamKind>) {
        kinds.push(SystemParamKind::NonSend(TypeData::new(T)));
        assert(kinds@ =~= old(kinds)@ + seq![SystemParamKind::NonSend(TypeData { id: T })]);
    }

    fn init_state(world: &mut World<V>) -> Self::State {
    }

    fn apply(state: &mut Self::State, world: &mut World<V>) {
    }

    fn borrow<'w, 's>(state: &'s mut Self::State, world: UnsafeWorldCell<'w, V>) -> (item: Self::Item<
        'w,
        's,
    >) {
        world.non_send_resources().try_borrow(TypeData::new(T))
    }
}

impl<V: 'static, const T: u64> ReadonlySystemParam<V> for ReadNonSend<T> {}

impl<V: 'static, const T: u64> SystemParam<V> for WriteNonSend<T> {
    type State = ();

    type Item<'w, 's> = Option<NonSendMut<'w, V>>;

    open spec fn spec_send() -> bool {
        false
    }

    open spec fn spec_kinds() -> Seq<SystemParamKind> {
        seq![SystemParamKind::NonSendMut(TypeData { id: T })]
    }

    open spec fn spec_flushed(state: &Self::State) -> bool {
        true
    }

    open spec fn init_relation(before: World<V>, state: &Self::State, after: World<V>) -> bool {
        after == before
    }

    open spec fn apply_relation(
        state_before: &Self::State,
        before: World<V>,
        state_after: &Self::State,
        after: World<V>,
    ) -> bool {
        after == before
    }

    open spec fn borrowed<'w, 's>(state: &Self::State, world: World<V>, item: &Self::Item<'w, 's>) -> bool {
        *item is Some ==> world.non_send_resources.types().contains(TypeData { id: T })
    }

    fn send() -> (send: bool) {
        false
    }

    fn param_kinds(kinds: &mut Vec<SystemParamKind>) {
        kinds.push(SystemParamKind::NonSendMut(TypeData::new(T)));
        assert(kinds@ =~= old(kinds)@ + seq![SystemParamKind::NonSendMut(TypeData { id: T })]);
    }

    fn init_state(world: &mut World<V>) -> Self::State {
    }

    fn apply(state: &mut Self::State, world: &mut World<V>) {
    }

    fn borrow<'w, 's>(state: &'s mut Self::State, world: UnsafeWorldCell<'w, V>) -> (item: Self::Item<
        'w,
        's,
    >) {
        world.non_send_resources().try_borrow_mut(TypeData::new(T))
    }
}

impl<V: 'static> SystemParam<V> for () {
    type State = ();

    type Item<'w, 's> = ();

    open spec fn spec_send() -> bool {
        true
    }

    open spec fn spec_kinds() -> Seq<SystemParamKind> {
        Seq::empty()
    }

    open spec fn spec_flushed(state: &Self::State) -> bool {
        true
    }

    open spec fn init_relation(before: World<V>, state: &Self::State, after: World<V>) -> bool {
        after == before
    }

    open spec fn apply_relation(
        state_before: &Self::State,
        before: World<V>,
        state_after: &Self::State,
        after: World<V>,
    ) -> bool {
        after == before
    }

    open spec fn borrowed<'w, 's>(state: &Self::State, world: World<V>, item: &Self::Item<'w, 's>) -> bool {
        true
    }

    fn send() -> (send: bool) {
        true
    }

    fn param_kinds(kinds: &mut Vec<SystemParamKind>) {
        assert(kinds@ =~= old(kinds)@ + Seq::<SystemParamKind>::empty());
    }

    fn init_state(world: &mut World<V>) -> Self::State {
    }

    fn apply(state: &mut Self::State, world: &mut World<V>) {
    }

    fn borrow<'w, 's>(state: &'s mut Self::State, world: UnsafeWorldCell<'w, V>) -> Self::Item<'w, 's> {
    }
}

impl<V: 'static> ReadonlySystemParam<V> for () {}

impl<V: 'static, A: SystemParam<V>> SystemParam<V> for (A,) {
    type State = (A::State,);

    type Item<'w, 's> = (A::Item<'w, 's>,);

    open spec fn spec_send() -> bool {
        A::spec_send()
    }

    open spec fn spec_kinds() -> Seq<SystemParamKind> {
        A::spec_kinds()
    }

    open spec fn spec_flushed(state: &Self::State) -> bool {
        A::spec_flushed(&state.0)
    }

    open spec fn init_relation(before: World<V>, state: &Self::State, after: World<V>) -> bool {
        A::init_relation(before, &state.0, after)
    }

    open spec fn apply_relation(
        state_before: &Self::State,
        before: World<V>,
        state_after: &Self::State,
        after: World<V>,
    ) -> bool {
        A::apply_relation(&state_before.0, before, &state_after.0, after)
    }

    open spec fn borrowed<'w, 's>(state: &Self::State, world: World<V>, item: &Self::Item<'w, 's>) -> bool {
        A::borrowed(&state.0, world, &item.0)
    }

    fn send() -> (send: bool) {
        A::send()
    }

    fn param_kinds(kinds: &mut Vec<SystemParamKind>) {
        A::param_kinds(kinds);
    }

    fn init_state(world: &mut World<V>) -> Self::State {
        (A::init_state(world),)
    }

    fn apply(state: &mut Self::State, world: &mut World<V>) {
        A::apply(&mut state.0, world);
    }

    fn borrow<'w, 's>(state: &'s mut Self::State, world: UnsafeWorldCell<'w, V>) -> Self::Item<'w, 's> {
        (A::borrow(&mut state.0, world),)
    }
}

impl<V: 'static, A: ReadonlySystemParam<V>> ReadonlySystemParam<V> for (A,) {}

impl<V: 'static, A: SystemParam<V>, B: SystemParam<V>> SystemParam<V> for (A, B) {
    type State = (A::State, B::State);

    type Item<'w, 's> = (A::Item<'w, 's>, B::Item<'w, 's>);

    open spec fn spec_send() -> bool {
        A::spec_send() && B::spec_send()
    }

    open spec fn spec_kinds() -> Seq<SystemParamKind> {
        A::spec_kinds() + B::spec_kinds()
    }

    open spec fn spec_flushed(state: &Self::State) -> bool {
        A::spec_flushed(&state.0) && B::spec_flushed(&state.1)
    }

    open spec fn init_relation(before: World<V>, state: &Self::State, after: World<V>) -> bool {
        exists|middle: World<V>|
            #[trigger] A::init_relation(before, &state.0, middle) && middle.wf() && B::init_relation(
                middle,
                &state.1,
                after,
            )
    }

    open spec fn apply_relation(
        state_before: &Self::State,
        before: World<V>,
        state_after: &Self::State,
        after: World<V>,
    ) -> bool {
        exists|middle: World<V>|
            #[trigger] A::apply_relation(&state_before.0, before, &state_after.0, middle) && middle.wf()
                && B::apply_relation(&state_before.1, middle, &state_after.1, after)
    }

    open spec fn borrowed<'w, 's>(state: &Self::State, world: World<V>, item: &Self::Item<'w, 's>) -> bool {
        A::borrowed(&state.0, world, &item.0) && B::borrowed(&state.1, world, &item.1)
    }

    fn send() -> (send: bool) {
        A::send() && B::send()
    }

    fn param_kinds(kinds: &mut Vec<SystemParamKind>) {
        A::param_kinds(kinds);
        B::param_kinds(kinds);
        assert(kinds@ =~= old(kinds)@ + (A::spec_kinds() + B::spec_kinds()));
    }

    fn init_state(world: &mut World<V>) -> Self::State {
        let a = A::init_state(world);
        let ghost middle = *world;
        let b = B::init_state(world);
        let state = (a, b);
        proof {
            assert(A::init_relation(*old(world), &state.0, middle) && middle.wf() && B::init_relation(
                middle,
                &state.1,
                *world,
            ));
        }
        state
    }

    fn apply(state: &mut Self::State, world: &mut World<V>) {
        A::apply(&mut state.0, world);
        let ghost middle = *world;
        B::apply(&mut state.1, world);
        proof {
            assert(A::apply_relation(&old(state).0, *old(world), &state.0, middle));
        }
    }

    fn borrow<'w, 's>(state: &'s mut Self::State, world: UnsafeWorldCell<'w, V>) -> Self::Item<'w, 's> {
        let a = A::borrow(&mut state.0, world.duplicate());
        let b = B::borrow(&mut state.1, world);
        (a, b)
    }
}

impl<V: 'static, A: ReadonlySystemParam<V>, B: ReadonlySystemParam<V>> ReadonlySystemParam<V> for (A, B) {}

impl<V: 'static, A: SystemParam<V>, B: SystemParam<V>, C: SystemParam<V>> SystemParam<V> for (A, B, C) {
    type State = (A::State, B::State, C::State);

    type Item<'w, 's> = (A::Item<'w, 's>, B::Item<'w, 's>, C::Item<'w, 's>);

    open spec fn spec_send() -> bool {
        A::spec_send() && B::spec_send() && C::spec_send()
    }

    open spec fn spec_kinds() -> Seq<SystemParamKind> {
        A::spec_kinds() + B::spec_kinds() + C::spec_kinds()
    }

    open spec fn spec_flushed(state: &Self::State) -> bool {
        A::spec_flushed(&state.0) && B::spec_flushed(&state.1) && C::spec_flushed(&state.2)
    }

    open spec fn init_relation(before: World<V>, state: &Self::State, after: World<V>) -> bool {
        exists|first: World<V>, second: World<V>|
            #[trigger] A::init_relation(before, &state.0, first) && first.wf() && #[trigger] B::init_relation(
                first,
                &state.1,
                second,
            ) && second.wf() && C::init_relation(second, &state.2, after)
    }

    open spec fn apply_relation(
        state_before: &Self::State,
        before: World<V>,
        state_after: &Self::State,
        after: World<V>,
    ) -> bool {
        exists|first: World<V>, second: World<V>|
            #[trigger] A::apply_relation(&state_before.0, before, &state_after.0, first) && first.wf()
                && #[trigger] B::apply_relation(&state_before.1, first, &state_after.1, second) && second.wf()
                && C::apply_relation(&state_before.2, second, &state_after.2, after)
    }

    open spec fn borrowed<'w, 's>(state: &Self::State, world: World<V>, item: &Self::Item<'w, 's>) -> bool {
        A::borrowed(&state.0, world, &item.0) && B::borrowed(&state.1, world, &item.1) && C::borrowed(
            &state.2,
            world,
            &item.2,
        )
    }

    fn send() -> (send: bool) {
        A::send() && B::send() && C::send()
    }

    fn param_kinds(kinds: &mut Vec<SystemParamKind>) {
        A::param_kinds(kinds);
        B::param_kinds(kinds);
        C::param_kinds(kinds);
        assert(kinds@ =~= old(kinds)@ + (A::spec_kinds() + B::spec_kinds() + C::spec_kinds()));
    }

    fn init_state(world: &mut World<V>) -> Self::State {
        let a = A::init_state(world);
        let ghost first = *world;
        let b = B::init_state(world);
        let ghost second = *world;
        let c = C::init_state(world);
        let state = (a, b, c);
        proof {
            assert(A::init_relation(*old(world), &state.0, first) && first.wf() && B::init_relation(
                first,
                &state.1,
                second,
            ) && second.wf() && C::init_relation(second, &state.2, *world));
        }
        state
    }

    fn apply(state: &mut Self::State, world: &mut World<V>) {
        A::apply(&mut state.0, world);
        let ghost first = *world;
        B::apply(&mut state.1, world);
        let ghost second = *world;
        C::apply(&mut state.2, world);
        proof {
            assert(A::apply_relation(&old(state).0, *old(world), &state.0, first) && B::apply_relation(
                &old(state).1,
                first,
                &state.1,
                second,
            ));
        }
    }

    fn borrow<'w, 's>(state: &'s mut Self::State, world: UnsafeWorldCell<'w, V>) -> Self::Item<'w, 's> {
        let a = A::borrow(&mut state.0, world.duplicate());
        let b = B::borrow(&mut state.1, world.duplicate());
        let c = C::borrow(&mut state.2, world);
        (a, b, c)
    }
}

impl<V: 'static, A: ReadonlySystemParam<V>, B: ReadonlySystemParam<V>, C: ReadonlySystemParam<V>> ReadonlySystemParam<V> for (A, B, C) {}

} // verus!
