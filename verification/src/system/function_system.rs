//! Systems made of a function and the parameters that it declares.

use vstd::prelude::*;
use vstd::pervasive::unreached;
use crate::system::kind::SystemParamKind;
use crate::system::param::{ReadonlySystemParam, SystemParam};
use crate::system::{IntoSystem, ReadonlySystem, System};
use crate::world::{UnsafeWorldCell, World};

verus! {

/// Holds the state of a set of parameters outside a system, to fetch data
/// from the [`World`] as a system would.
pub struct SystemState<V: 'static, Param: SystemParam<V>> {
    param_state: Param::State,
}

impl<V: 'static, Param: SystemParam<V>> SystemState<V, Param> {
    /// The state of the parameters.
    pub closed spec fn state(&self) -> Param::State {
        self.param_state
    }

    /// Whether all that the parameters have deferred has been applied.
    pub open spec fn flushed(&self) -> bool {
        Param::spec_flushed(&self.state())
    }

    /// Creates a new [`SystemState`]: the state of the parameters is made
    /// from the world as the parameters make it.
    pub fn new(world: &mut World<V>) -> (state: SystemState<V, Param>)
        requires
            old(world).wf(),
        ensures
            final(world).wf(),
            Param::init_relation(*old(world), &state.state(), *final(world)),
    {
        SystemState { param_state: Param::init_state(world) }
    }

    /// Applies deferred mutations to the [`World`].
    pub fn apply(&mut self, world: &mut World<V>)
        requires
            old(world).wf(),
        ensures
            final(world).wf(),
            final(self).flushed(),
            Param::apply_relation(&old(self).state(), *old(world), &final(self).state(), *final(world)),
    {
        Param::apply(&mut self.param_state, world);
    }

    /// Retrieve the parameter values. This can only be called when all
    /// parameters are read-only.
    pub fn get<'w, 's>(&'s mut self, world: &'w World<V>) -> (item: Param::Item<'w, 's>) where
        Param: ReadonlySystemParam<V>,

        requires
            world.wf(),
        ensures
            Param::borrowed(&old(self).state(), *world, &item),
    {
        self.get_unchecked(world.as_unsafe_world_cell())
    }

    /// Retrieve the parameter values, with the world held exclusively for
    /// as long as they are in use.
    pub fn get_mut<'w, 's>(&'s mut self, world: &'w mut World<V>) -> (item: Param::Item<'w, 's>)
        requires
            old(world).wf(),
        ensures
            Param::borrowed(&old(self).state(), *old(world), &item),
    {
        let shared: &'w World<V> = world;
        self.get_unchecked(shared.as_unsafe_world_cell())
    }

    /// Retrieve the parameter values.
    pub fn get_unchecked<'w, 's>(&'s mut self, world: UnsafeWorldCell<'w, V>) -> (item: Param::Item<'w, 's>)
        requires
            world.target().wf(),
        ensures
            Param::borrowed(&old(self).state(), world.target(), &item),
    {
        Param::borrow(&mut self.param_state, world)
    }
}

/// A trait implemented by the functions that can be used as [`System`]s.
pub trait SystemParamFunction<V: 'static>: Send + Sync + 'static {
    /// The input type to this system.
    type In;

    /// The return type of this system.
    type Out;

    /// The parameters used by this system.
    type Param: SystemParam<V>;

    /// Whether `out` and the function `after` are what one run of the
    /// function, as it is now, with the given input can give. A function
    /// that does not say so claims nothing.
    open spec fn ran(&self, input: Self::In, after: &Self, out: Self::Out) -> bool {
        true
    }

    /// Executes this system once.
    fn run(&mut self, input: Self::In, param: <Self::Param as SystemParam<V>>::Item<'_, '_>) -> (out:
        Self::Out)
        ensures
            old(self).ran(input, final(self), out),
    ;
}

/// The [`System`] counter part of an ordinary function.
pub struct FunctionSystem<V: 'static, F: SystemParamFunction<V>> {
    func: F,
    name: &'static str,
    param_state: Option<<F::Param as SystemParam<V>>::State>,
    param_kinds: Vec<SystemParamKind>,
    runs: Ghost<nat>,
}

/// Marks the conversion of a function into a [`FunctionSystem`].
pub struct IsFunctionSystem;

impl<V: 'static, F: SystemParamFunction<V>> FunctionSystem<V, F> {
    /// The function of the system.
    pub closed spec fn func(&self) -> F {
        self.func
    }

    /// The state of the parameters, once the system is initialized.
    pub closed spec fn state(&self) -> Option<<F::Param as SystemParam<V>>::State> {
        self.param_state
    }

    /// Creates the system of the function `func`. It is not initialized,
    /// has not run, is named "system", and declares the kinds of the
    /// function's parameters.
    pub fn new(func: F) -> (system: FunctionSystem<V, F>)
        ensures
            system.func() == func,
            system.state() is None,
            system.runs() == 0,
            system.spec_name() == "system",
            !system.initialized(),
            system.kinds() == F::Param::spec_kinds(),
            !system.exclusive(),
            system.thread_local() == !F::Param::spec_send(),
    {
        let mut param_kinds = Vec::new();
        F::Param::param_kinds(&mut param_kinds);
        assert(param_kinds@ =~= F::Param::spec_kinds());
        FunctionSystem { func, name: "system", param_state: None, param_kinds, runs: Ghost(0) }
    }

    /// Borrows the parameters from a shared view of the world and runs the
    /// function on them.
    fn run_shared(&mut self, input: F::In, world: UnsafeWorldCell<'_, V>) -> (out: F::Out)
        requires
            old(self).initialized(),
            world.target().wf(),
        ensures
            old(self).func().ran(input, &final(self).func(), out),
            old(self).ran_shared(input, world.target(), out),
            final(self).runs() == old(self).runs() + 1,
            final(self).spec_name() == old(self).spec_name(),
            final(self).initialized(),
            final(self).kinds() == old(self).kinds(),
    {
        let out = match &mut self.param_state {
            Some(state) => {
                let params = F::Param::borrow(state, world);
                self.func.run(input, params)
            },
            None => unreached(),
        };
        self.runs = Ghost(self.runs@ + 1);
        out
    }

    /// Gives the system the name `name`.
    pub fn named(self, name: &'static str) -> (system: FunctionSystem<V, F>)
        ensures
            system.spec_name() == name,
            system.func() == self.func(),
            system.state() == self.state(),
            system.runs() == self.runs(),
            system.initialized() == self.initialized(),
            system.kinds() == self.kinds(),
    {
        let mut system = self;
        system.name = name;
        system
    }
}

impl<V: 'static, F: SystemParamFunction<V>> IntoSystem<V, F::In, F::Out, IsFunctionSystem> for F {
    type System = FunctionSystem<V, F>;

    open spec fn system_kinds(&self) -> Seq<SystemParamKind> {
        F::Param::spec_kinds()
    }

    open spec fn system_exclusive(&self) -> bool {
        false
    }

    open spec fn system_thread_local(&self) -> bool {
        !F::Param::spec_send()
    }

    open spec fn becomes(&self, system: &FunctionSystem<V, F>) -> bool {
        &&& system.func() == *self
        &&& system.state() is None
        &&& system.runs() == 0
        &&& system.spec_name() == "system"
        &&& !system.initialized()
    }

    fn into_system(self) -> (system: Self::System) {
        FunctionSystem::new(self)
    }
}

impl<V: 'static, F: SystemParamFunction<V>> System<V, F::In, F::Out> for FunctionSystem<V, F> {
    closed spec fn kinds(&self) -> Seq<SystemParamKind> {
        self.param_kinds@
    }

    open spec fn exclusive(&self) -> bool {
        false
    }

    open spec fn thread_local(&self) -> bool {
        !F::Param::spec_send()
    }

    closed spec fn initialized(&self) -> bool {
        self.param_state is Some
    }

    closed spec fn flushed(&self) -> bool {
        match self.param_state {
            Some(state) => F::Param::spec_flushed(&state),
            None => true,
        }
    }

    closed spec fn spec_name(&self) -> &'static str {
        self.name
    }

    closed spec fn runs(&self) -> nat {
        self.runs@
    }

    open spec fn ran_shared(&self, input: F::In, world: World<V>, out: F::Out) -> bool {
        exists|after: F| #[trigger] self.func().ran(input, &after, out)
    }

    open spec fn ran_exclusive(&self, input: F::In, before: World<V>, out: F::Out, after: World<V>) -> bool {
        self.ran_shared(input, before, out) && after == before
    }

    open spec fn applied(&self, before: World<V>, after: World<V>) -> bool {
        match self.state() {
            Some(state) => exists|done: <F::Param as SystemParam<V>>::State|
                #[trigger] F::Param::apply_relation(&state, before, &done, after),
            None => after == before,
        }
    }

    open spec fn initialized_by(&self, before: World<V>, after: World<V>) -> bool {
        exists|state: <F::Param as SystemParam<V>>::State| #[trigger] F::Param::init_relation(before, &state, after)
    }

    fn name(&self) -> (name: &'static str) {
        self.name
    }

    fn param_kinds(&self) -> (kinds: &[SystemParamKind]) {
        self.param_kinds.as_slice()
    }

    fn run_unsafe(&mut self, input: F::In, world: UnsafeWorldCell<'_, V>) -> (out: Option<F::Out>) {
        Some(self.run_shared(input, world))
    }

    fn run(&mut self, input: F::In, world: &mut World<V>) -> (out: F::Out) {
        self.run_shared(input, world.as_unsafe_world_cell())
    }

    fn apply_deferred(&mut self, world: &mut World<V>) {
        match &mut self.param_state {
            Some(state) => {
                let ghost before = *state;
                F::Param::apply(state, world);
                proof {
                    assert(F::Param::apply_relation(&before, *old(world), &*state, *world));
                }
            },
            None => {},
        }
    }

    fn initialize(&mut self, world: &mut World<V>) {
        let state = F::Param::init_state(world);
        proof {
            assert(F::Param::init_relation(*old(world), &state, *world));
        }
        self.param_state = Some(state);
    }

    fn is_exclusive(&self) -> (exclusive: bool) {
        false
    }

    fn is_thread_local(&self) -> (thread_local: bool) {
        !F::Param::send()
    }
}

impl<V: 'static, F: SystemParamFunction<V>> ReadonlySystem<V, F::In, F::Out> for FunctionSystem<V, F> where
    F::Param: ReadonlySystemParam<V>,
 {
    fn run_readonly(&mut self, input: F::In, world: &World<V>) -> (out: F::Out) {
        self.run_shared(input, world.as_unsafe_world_cell())
    }
}

} // verus!
