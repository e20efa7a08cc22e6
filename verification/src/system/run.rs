//! Runs a system on a registry at once, outside a schedule.

use vstd::prelude::*;
use crate::system::{IntoSystem, System};
use crate::world::World;

verus! {

/// Whether `out` and the world `after` come of the world `before` when
/// `system` is initialized, runs once with `input` and exclusive access,
/// and has what it deferred applied.
pub open spec fn ran_once<V: 'static, In, Out, S: System<V, In, Out>>(
    system: S,
    before: World<V>,
    input: In,
    out: Out,
    after: World<V>,
) -> bool {
    exists|ready: S, done: S, initialized: World<V>, ran: World<V>|
        {
            &&& system.initialized_by(before, initialized)
            &&& initialized.wf()
            &&& ready.kinds() == system.kinds()
            &&& #[trigger] ready.ran_exclusive(input, initialized, out, ran)
            &&& ran.wf()
            &&& done.runs() == ready.runs() + 1
            &&& #[trigger] done.applied(ran, after)
        }
}

/// Whether `out` and the world `after` come of the world `before` when
/// `system` is converted into a system that declares what `system` says it
/// will, and that system is initialized, runs once with `input`, and has
/// what it deferred applied.
pub open spec fn converted_ran_once<V: 'static, In, Out, Marker, T: IntoSystem<V, In, Out, Marker>>(
    system: T,
    before: World<V>,
    input: In,
    out: Out,
    after: World<V>,
) -> bool {
    exists|converted: T::System|
        {
            &&& converted.kinds() == system.system_kinds()
            &&& converted.exclusive() == system.system_exclusive()
            &&& converted.thread_local() == system.system_thread_local()
            &&& #[trigger] ran_once(converted, before, input, out, after)
        }
}

/// Trait used to run a system immediately on a registry.
pub trait Run<V: 'static>: Sized {
    /// Whether the registry is in a state in which systems can run on it.
    spec fn runnable(&self) -> bool;

    /// The world that systems see when they run on this registry.
    spec fn as_world(&self) -> World<V>;

    /// Runs a system with given input and applies its deferred parameters.
    fn run_with<T: IntoSystem<V, In, Out, Marker>, In, Out, Marker>(&mut self, input: In, system: T) -> (out:
        Out)
        requires
            old(self).runnable(),
        ensures
            final(self).runnable(),
            converted_ran_once(system, old(self).as_world(), input, out, final(self).as_world()),
    ;

    /// Runs a system and applies its deferred parameters.
    fn run<T: IntoSystem<V, (), Out, Marker>, Out, Marker>(&mut self, system: T) -> (out: Out)
        requires
            old(self).runnable(),
        ensures
            final(self).runnable(),
            converted_ran_once(system, old(self).as_world(), (), out, final(self).as_world()),
    {
        self.run_with((), system)
    }
}

impl<V: 'static> Run<V> for World<V> {
    open spec fn runnable(&self) -> bool {
        self.wf()
    }

    open spec fn as_world(&self) -> World<V> {
        *self
    }

    fn run_with<T: IntoSystem<V, In, Out, Marker>, In, Out, Marker>(&mut self, input: In, system: T) -> (out:
        Out) {
        let converted = system.into_system();
        let out = run_system(self, input, converted);
        proof {
            assert(ran_once(converted, *old(self), input, out, *self));
        }
        out
    }
}

/// Initializes `system` against `world`, runs it once with `input` and
/// exclusive access, and applies what its parameters have deferred.
pub fn run_system<V: 'static, In, Out, S: System<V, In, Out>>(world: &mut World<V>, input: In, system: S) -> (out:
    Out)
    requires
        old(world).wf(),
    ensures
        final(world).wf(),
        ran_once(system, *old(world), input, out, *final(world)),
{
    let mut system = system;
    let ghost given = system;
    system.initialize(world);
    let ghost ready = system;
    let ghost initialized = *world;
    let out = system.run(input, world);
    let ghost done = system;
    let ghost ran = *world;
    system.apply_deferred(world);
    proof {
        assert(ready.ran_exclusive(input, initialized, out, ran) && done.applied(ran, *world));
    }
    out
}

} // verus!
