//! Handles functions that borrow data from a registry during execution.

pub mod commands;
pub mod deferred;
pub mod exclusive_param;
pub mod exclusive_system;
pub mod function_system;
pub mod kind;
pub mod local;
pub mod param;
pub mod run;

pub use self::commands::{Command, CommandQueue, Commands, WorldCommand};
pub use self::deferred::{Deferred, SystemBuffer};
pub use self::exclusive_param::ExclusiveSystemParam;
pub use self::exclusive_system::{ExclusiveSystem, ExclusiveSystemParamFunction, IsExclusiveSystem};
pub use self::function_system::{FunctionSystem, IsFunctionSystem, SystemParamFunction, SystemState};
pub use self::kind::{any_conflict, kinds_conflict, DataFamily, SystemParamKind};
pub use self::local::{Local, LocalData};
pub use self::param::{
    ReadComp, ReadNonSend, ReadRes, ReadonlySystemParam, SystemParam, WriteComp, WriteNonSend, WriteRes,
};
pub use self::run::{run_system, Run};

use vstd::prelude::*;
use crate::world::{UnsafeWorldCell, World};

verus! {

/// Encapsulates a function that borrows data from a registry during
/// execution.
///
/// A system is created uninitialized, is initialized once against a world,
/// and is then run any number of times. What it declares of itself (its
/// parameter kinds and its two flags) never changes.
pub trait System<V: 'static, In, Out>: Send + Sync + 'static {
    /// The parameter kinds that the system declares.
    spec fn kinds(&self) -> Seq<SystemParamKind>;

    /// Whether the system needs the whole world for itself.
    spec fn exclusive(&self) -> bool;

    /// Whether the system must run on the thread that owns the world.
    spec fn thread_local(&self) -> bool;

    /// Whether the state of the system's parameters has been created.
    spec fn initialized(&self) -> bool;

    /// Whether the system holds back no change to the world: all that its
    /// parameters have deferred has been applied.
    spec fn flushed(&self) -> bool;

    /// The name of the system.
    spec fn spec_name(&self) -> &'static str;

    /// How often the system has run.
    spec fn runs(&self) -> nat;

    /// Whether `out` is what one run of the system, as it is now, with the
    /// given input and a shared view of `world` can return.
    spec fn ran_shared(&self, input: In, world: World<V>, out: Out) -> bool;

    /// Whether `out` and the world `after` are what one run of the system,
    /// as it is now, with the given input and exclusive access to the world
    /// `before` can give.
    spec fn ran_exclusive(&self, input: In, before: World<V>, out: Out, after: World<V>) -> bool;

    /// Whether `after` is a world that comes of `before` when what the
    /// system, as it is now, has deferred is applied.
    spec fn applied(&self, before: World<V>, after: World<V>) -> bool;

    /// Whether `after` is a world that comes of `before` when the system is
    /// initialized.
    spec fn initialized_by(&self, before: World<V>, after: World<V>) -> bool;

    /// Returns the system's name.
    fn name(&self) -> (name: &'static str)
        ensures
            name == self.spec_name(),
    ;

    /// The system parameters.
    fn param_kinds(&self) -> (kinds: &[SystemParamKind])
        ensures
            kinds@ == self.kinds(),
    ;

    /// Runs the system with the given input and a shared view of the
    /// world. The caller sees to it that no system with a conflicting
    /// parameter runs at the same time; a borrow that conflicts all the same
    /// is refused at run time. An exclusive system cannot run with a shared
    /// view: it does nothing and returns nothing, so that the caller, not
    /// the library, decides whether that is a failure.
    fn run_unsafe(&mut self, input: In, world: UnsafeWorldCell<'_, V>) -> (out: Option<Out>)
        requires
            old(self).initialized(),
            world.target().wf(),
        ensures
            out is Some == !old(self).exclusive(),
            out is Some ==> old(self).ran_shared(input, world.target(), out->0) && final(self).runs() == old(self).runs() + 1,
            out is None ==> final(self).runs() == old(self).runs() && final(self).flushed() == old(self).flushed(),
            final(self).initialized(),
            final(self).kinds() == old(self).kinds(),
            final(self).exclusive() == old(self).exclusive(),
            final(self).thread_local() == old(self).thread_local(),
    ;

    /// Runs the system with the given input and exclusive access to the
    /// world.
    fn run(&mut self, input: In, world: &mut World<V>) -> (out: Out)
        requires
            old(self).initialized(),
            old(world).wf(),
        ensures
            old(self).ran_exclusive(input, *old(world), out, *final(world)),
            final(self).runs() == old(self).runs() + 1,
            final(self).initialized(),
            final(self).kinds() == old(self).kinds(),
            final(self).exclusive() == old(self).exclusive(),
            final(self).thread_local() == old(self).thread_local(),
            final(world).wf(),
    ;

    /// Applies the mutations that the system's parameters have deferred.
    fn apply_deferred(&mut self, world: &mut World<V>)
        requires
            old(self).initialized(),
            old(world).wf(),
        ensures
            old(self).applied(*old(world), *final(world)),
            final(self).runs() == old(self).runs(),
            final(self).initialized(),
            final(self).flushed(),
            final(self).kinds() == old(self).kinds(),
            final(self).exclusive() == old(self).exclusive(),
            final(self).thread_local() == old(self).thread_local(),
            final(world).wf(),
    ;

    /// Initialize the system state.
    fn initialize(&mut self, world: &mut World<V>)
        requires
            old(world).wf(),
        ensures
            old(self).initialized_by(*old(world), *final(world)),
            final(self).initialized(),
            final(self).kinds() == old(self).kinds(),
            final(self).exclusive() == old(self).exclusive(),
            final(self).thread_local() == old(self).thread_local(),
            final(world).wf(),
    ;

    /// Returns whether this system has exclusive access to the world.
    fn is_exclusive(&self) -> (exclusive: bool)
        ensures
            exclusive == self.exclusive(),
    ;

    /// Returns whether this system must run on the main thread.
    fn is_thread_local(&self) -> (thread_local: bool)
        ensures
            thread_local == self.thread_local(),
    ;
}

/// [`System`] types that do not modify the registry when run.
pub trait ReadonlySystem<V: 'static, In, Out>: System<V, In, Out> {
    /// Runs this system with the given input and shared access to the
    /// world.
    fn run_readonly(&mut self, input: In, world: &World<V>) -> (out: Out)
        requires
            old(self).initialized(),
            world.wf(),
        ensures
            old(self).ran_shared(input, *world, out),
            final(self).runs() == old(self).runs() + 1,
            final(self).initialized(),
            final(self).kinds() == old(self).kinds(),
            final(self).exclusive() == old(self).exclusive(),
            final(self).thread_local() == old(self).thread_local(),
    ;
}

/// A boxed [`System`] trait object, for schedules whose systems differ in
/// type.
pub type BoxedSystem<V, In = (), Out = ()> = Box<dyn System<V, In, Out>>;

impl<V: 'static, In: 'static, Out: 'static> System<V, In, Out> for Box<dyn System<V, In, Out>> {
    open spec fn kinds(&self) -> Seq<SystemParamKind> {
        (**self).kinds()
    }

    open spec fn exclusive(&self) -> bool {
        (**self).exclusive()
    }

    open spec fn thread_local(&self) -> bool {
        (**self).thread_local()
    }

    open spec fn initialized(&self) -> bool {
        (**self).initialized()
    }

    open spec fn flushed(&self) -> bool {
        (**self).flushed()
    }

    open spec fn spec_name(&self) -> &'static str {
        (**self).spec_name()
    }

    open spec fn runs(&self) -> nat {
        (**self).runs()
    }

    open spec fn ran_shared(&self, input: In, world: World<V>, out: Out) -> bool {
        (**self).ran_shared(input, world, out)
    }

    open spec fn ran_exclusive(&self, input: In, before: World<V>, out: Out, after: World<V>) -> bool {
        (**self).ran_exclusive(input, before, out, after)
    }

    open spec fn applied(&self, before: World<V>, after: World<V>) -> bool {
        (**self).applied(before, after)
    }

    open spec fn initialized_by(&self, before: World<V>, after: World<V>) -> bool {
        (**self).initialized_by(before, after)
    }

    fn name(&self) -> (name: &'static str) {
        (**self).name()
    }

    fn param_kinds(&self) -> (kinds: &[SystemParamKind]) {
        (**self).param_kinds()
    }

    fn run_unsafe(&mut self, input: In, world: UnsafeWorldCell<'_, V>) -> (out: Option<Out>) {
        (**self).run_unsafe(input, world)
    }

    fn run(&mut self, input: In, world: &mut World<V>) -> (out: Out) {
        (**self).run(input, world)
    }

    fn apply_deferred(&mut self, world: &mut World<V>) {
        (**self).apply_deferred(world)
    }

    fn initialize(&mut self, world: &mut World<V>) {
        (**self).initialize(world)
    }

    fn is_exclusive(&self) -> (exclusive: bool) {
        (**self).is_exclusive()
    }

    fn is_thread_local(&self) -> (thread_local: bool) {
        (**self).is_thread_local()
    }
}

/// A boxed read-only system, as the conditions of a schedule are held.
pub type BoxedCondition<V, In = ()> = Box<dyn ReadonlySystem<V, In, bool>>;

impl<V: 'static, In: 'static, Out: 'static> System<V, In, Out> for Box<dyn ReadonlySystem<V, In, Out>> {
    open spec fn kinds(&self) -> Seq<SystemParamKind> {
        (**self).kinds()
    }

    open spec fn exclusive(&self) -> bool {
        (**self).exclusive()
    }

    open spec fn thread_local(&self) -> bool {
        (**self).thread_local()
    }

    open spec fn initialized(&self) -> bool {
        (**self).initialized()
    }

    open spec fn flushed(&self) -> bool {
        (**self).flushed()
    }

    open spec fn spec_name(&self) -> &'static str {
        (**self).spec_name()
    }

    open spec fn runs(&self) -> nat {
        (**self).runs()
    }

    open spec fn ran_shared(&self, input: In, world: World<V>, out: Out) -> bool {
        (**self).ran_shared(input, world, out)
    }

    open spec fn ran_exclusive(&self, input: In, before: World<V>, out: Out, after: World<V>) -> bool {
        (**self).ran_exclusive(input, before, out, after)
    }

    open spec fn applied(&self, before: World<V>, after: World<V>) -> bool {
        (**self).applied(before, after)
    }

    open spec fn initialized_by(&self, before: World<V>, after: World<V>) -> bool {
        (**self).initialized_by(before, after)
    }

    fn name(&self) -> (name: &'static str) {
        (**self).name()
    }

    fn param_kinds(&self) -> (kinds: &[SystemParamKind]) {
        (**self).param_kinds()
    }

    fn run_unsafe(&mut self, input: In, world: UnsafeWorldCell<'_, V>) -> (out: Option<Out>) {
        (**self).run_unsafe(input, world)
    }

    fn run(&mut self, input: In, world: &mut World<V>) -> (out: Out) {
        (**self).run(input, world)
    }

    fn apply_deferred(&mut self, world: &mut World<V>) {
        (**self).apply_deferred(world)
    }

    fn initialize(&mut self, world: &mut World<V>) {
        (**self).initialize(world)
    }

    fn is_exclusive(&self) -> (exclusive: bool) {
        (**self).is_exclusive()
    }

    fn is_thread_local(&self) -> (thread_local: bool) {
        (**self).is_thread_local()
    }
}

impl<V: 'static, In: 'static, Out: 'static> ReadonlySystem<V, In, Out> for Box<dyn ReadonlySystem<V, In, Out>> {
    fn run_readonly(&mut self, input: In, world: &World<V>) -> (out: Out) {
        (**self).run_readonly(input, world)
    }
}

impl<V: 'static, In, Out, T: System<V, In, Out>> IntoSystem<V, In, Out, ()> for T {
    type System = T;

    open spec fn system_kinds(&self) -> Seq<SystemParamKind> {
        self.kinds()
    }

    open spec fn system_exclusive(&self) -> bool {
        self.exclusive()
    }

    open spec fn system_thread_local(&self) -> bool {
        self.thread_local()
    }

    open spec fn becomes(&self, system: &T) -> bool {
        *system == *self
    }

    fn into_system(self) -> (system: T) {
        self
    }
}

/// Conversion trait to turn something into a [`System`].
pub trait IntoSystem<V: 'static, In, Out, Marker>: Sized {
    /// The type of [`System`] that this instance converts into.
    type System: System<V, In, Out>;

    /// The parameter kinds that the system will declare.
    spec fn system_kinds(&self) -> Seq<SystemParamKind>;

    /// Whether the system will need the whole world for itself.
    spec fn system_exclusive(&self) -> bool;

    /// Whether the system will have to run on the thread that owns the
    /// world.
    spec fn system_thread_local(&self) -> bool;

    /// Whether `system` is what this value turns into.
    spec fn becomes(&self, system: &Self::System) -> bool;

    /// Turn this value into its corresponding [`System`].
    fn into_system(self) -> (system: Self::System)
        ensures
            self.becomes(&system),
            system.kinds() == self.system_kinds(),
            system.exclusive() == self.system_exclusive(),
            system.thread_local() == self.system_thread_local(),
    ;
}

/// Wrapper type to mark a system parameter as an input.
pub struct In<I>(pub I);

} // verus!
