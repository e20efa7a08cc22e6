//! Systems that take the whole world for themselves.

use vstd::prelude::*;
use vstd::pervasive::unreached;
use crate::system::exclusive_param::ExclusiveSystemParam;
use crate::system::kind::SystemParamKind;
use crate::system::{IntoSystem, System};
use crate::world::{UnsafeWorldCell, World};

verus! {

/// A trait implemented by the functions that can be used as exclusive
/// systems.
pub trait ExclusiveSystemParamFunction<V: 'static>: Send + Sync + 'static {
    /// The input type to this system.
    type In;

    /// The return type of this system.
    type Out;

    /// The parameters used by this system.
    type Params: ExclusiveSystemParam<V>;

    /// Whether `out`, the function `after` and the world `world_after` are
    /// what one run of the function, as it is now, on the world `before`
    /// with the given input can give. A function that does not say so
    /// claims nothing.
    open spec fn ran(
        &self,
        before: World<V>,
        input: Self::In,
        after: &Self,
        out: Self::Out,
        world_after: World<V>,
    ) -> bool {
        true
    }

    /// Executes this system once.
    fn run(
        &mut self,
        world: &mut World<V>,
        input: Self::In,
        param: <Self::Params as ExclusiveSystemParam<V>>::Item<'_>,
    ) -> (out: Self::Out)
        requires
            old(world).wf(),
        ensures
            final(world).wf(),
            old(self).ran(*old(world), input, final(self), out, *final(world)),
    ;
}

/// The [`System`] counter part of a function that takes the whole world.
/// It declares no parameter kinds, runs with nothing beside it, and may
/// change the structure of the world directly.
pub struct ExclusiveSystem<V: 'static, F: ExclusiveSystemParamFunction<V>> {
    func: F,
    name: &'static str,
    param_state: Option<<F::Params as ExclusiveSystemParam<V>>::State>,
    param_kinds: Vec<SystemParamKind>,
    runs: Ghost<nat>,
}

/// Marks the conversion of a function into an [`ExclusiveSystem`].
pub struct IsExclusiveSystem;

impl<V: 'static, F: ExclusiveSystemParamFunction<V>> ExclusiveSystem<V, F> {
    /// The function of the system.
    pub closed spec fn func(&self) -> F {
        self.func
    }

    /// Creates the exclusive system of the function `func`. It is not
    /// initialized, has not run, and is named "exclusive system".
    pub fn new(func: F) -> (system: ExclusiveSystem<V, F>)
        ensures
            system.func() == func,
            system.runs() == 0,
            system.spec_name() == "exclusive system",
            !system.initialized(),
            system.kinds() == Seq::<SystemParamKind>::empty(),
            system.exclusive(),
            !system.thread_local(),
    {
        ExclusiveSystem {
            func,
            name: "exclusive system",
            param_state: None,
            param_kinds: Vec::new(),
            runs: Ghost(0),
        }
    }
}

impl<V: 'static, F: ExclusiveSystemParamFunction<V>> ExclusiveSystem<V, F> {
    /// Gives the system the name `name`.
    pub fn named(self, name: &'static str) -> (system: ExclusiveSystem<V, F>)
        ensures
            system.spec_name() == name,
            system.func() == self.func(),
            system.runs() == self.runs(),
            system.initialized() == self.initialized(),
            system.kinds() == self.kinds(),
    {
        let mut system = self;
        system.name = name;
        system
    }
}

impl<V: 'static, F: ExclusiveSystemParamFunction<V>> IntoSystem<V, F::In, F::Out, IsExclusiveSystem> for F {
    type System = ExclusiveSystem<V, F>;

    open spec fn system_kinds(&self) -> Seq<SystemParamKind> {
        Seq::empty()
    }

    open spec fn system_exclusive(&self) -> bool {
        true
    }

    open spec fn system_thread_local(&self) -> bool {
        false
    }

    open spec fn becomes(&self, system: &ExclusiveSystem<V, F>) -> bool {
        &&& system.func() == *self
        &&& system.runs() == 0
        &&& system.spec_name() == "exclusive system"
        &&& !system.initialized()
    }

    fn into_system(self) -> (system: Self::System) {
        ExclusiveSystem::new(self)
    }
}

impl<V: 'static, F: ExclusiveSystemParamFunction<V>> System<V, F::In, F::Out> for ExclusiveSystem<V, F> {
    closed spec fn kinds(&self) -> Seq<SystemParamKind> {
        self.param_kinds@
    }

    open spec fn exclusive(&self) -> bool {
        true
    }

    open spec fn thread_local(&self) -> bool {
        false
    }

    closed spec fn initialized(&self) -> bool {
        self.param_state is Some
    }

    open spec fn flushed(&self) -> bool {
        true
    }

    closed spec fn spec_name(&self) -> &'static str {
        self.name
    }

    closed spec fn runs(&self) -> nat {
        self.runs@
    }

    open spec fn ran_shared(&self, input: F::In, world: World<V>, out: F::Out) -> bool {
        false
    }

    open spec fn ran_exclusive(&self, input: F::In, before: World<V>, out: F::Out, after: World<V>) -> bool {
        exists|done: F| #[trigger] self.func().ran(before, input, &done, out, after)
    }

    open spec fn applied(&self, before: World<V>, after: World<V>) -> bool {
        after == before
    }

    open spec fn initialized_by(&self, before: World<V>, after: World<V>) -> bool {
        exists|state: <F::Params as ExclusiveSystemParam<V>>::State|
            #[trigger] F::Params::init_relation(before, &state, after)
    }

    fn name(&self) -> (name: &'static str) {
        self.name
    }

    fn param_kinds(&self) -> (kinds: &[SystemParamKind]) {
        self.param_kinds.as_slice()
    }

    fn run_unsafe(&mut self, input: F::In, world: UnsafeWorldCell<'_, V>) -> (out: Option<F::Out>) {
        None
    }

    fn run(&mut self, input: F::In, world: &mut World<V>) -> (out: F::Out)
        ensures
            old(self).func().ran(*old(world), input, &final(self).func(), out, *final(world)),
    {
        let out = match &mut self.param_state {
            Some(state) => {
                let params = F::Params::borrow(state);
                self.func.run(world, input, params)
            },
            None => unreached(),
        };
        self.runs = Ghost(self.runs@ + 1);
        proof {
            assert(old(self).func().ran(*old(world), input, &self.func(), out, *world));
        }
        out
    }

    fn apply_deferred(&mut self, world: &mut World<V>) {
    }

    fn initialize(&mut self, world: &mut World<V>) {
        let state = F::Params::init_state(world);
        proof {
            assert(F::Params::init_relation(*old(world), &state, *world));
        }
        self.param_state = Some(state);
    }

    fn is_exclusive(&self) -> (exclusive: bool) {
        true
    }

    fn is_thread_local(&self) -> (thread_local: bool) {
        false
    }
}

} // verus!
