//! A system as a schedule holds it: with the conditions under which it
//! runs.

use vstd::prelude::*;
use core::marker::PhantomData;
use crate::system::kind::SystemParamKind;
use crate::system::{IntoSystem, ReadonlySystem, System};
use crate::world::{UnsafeWorldCell, World};

verus! {

/// Stores configuration for a single system.
#[verifier::reject_recursive_types(V)]
pub struct SystemConfig<V: 'static, S, C> {
    system: S,
    conditions: Vec<C>,
    is_initialized: bool,
    initialized_conditions: usize,
    marker: PhantomData<V>,
}

/// Marks the conversion of a [`SystemConfig`] into itself.
pub struct IsSystemConfig;

/// Whether initializing condition `first + i` leads from world `i` of
/// `worlds`, which is well formed, to the next one.
pub open spec fn is_condition_step<V: 'static, C: ReadonlySystem<V, (), bool>>(
    conditions: Seq<C>,
    worlds: Seq<World<V>>,
    first: int,
    i: int,
) -> bool {
    worlds[i].wf() && conditions[first + i].initialized_by(worlds[i], worlds[i + 1])
}

/// Whether `worlds` are the worlds that are passed when the conditions from
/// place `first` on are initialized, in order.
pub open spec fn is_condition_trace<V: 'static, C: ReadonlySystem<V, (), bool>>(
    conditions: Seq<C>,
    worlds: Seq<World<V>>,
    first: int,
    before: World<V>,
    after: World<V>,
) -> bool {
    &&& 0 <= first <= conditions.len()
    &&& worlds.len() == conditions.len() - first + 1
    &&& worlds[0] == before
    &&& worlds[conditions.len() - first] == after
    &&& forall|i: int| 0 <= i < conditions.len() - first ==> #[trigger] is_condition_step(conditions, worlds, first, i)
}

/// Whether `after` is the world that comes of `before` when the conditions
/// from place `first` on are initialized, in order.
pub open spec fn conditions_initialized_from<V: 'static, C: ReadonlySystem<V, (), bool>>(
    conditions: Seq<C>,
    first: int,
    before: World<V>,
    after: World<V>,
) -> bool {
    exists|worlds: Seq<World<V>>| is_condition_trace(conditions, worlds, first, before, after)
}

/// Whether the condition `before` was asked once about `world` and is
/// `after` since: it answered `true` where it is not the last of the
/// `count` conditions asked, and `last` where it is.
pub open spec fn asked_one<V: 'static, C: ReadonlySystem<V, (), bool>>(
    before: C,
    after: C,
    world: World<V>,
    index: int,
    count: int,
    last: bool,
) -> bool {
    &&& after.runs() == before.runs() + 1
    &&& if index < count - 1 {
        before.ran_shared((), world, true)
    } else {
        before.ran_shared((), world, last)
    }
}

/// Whether the first `count` of the conditions were asked, each once,
/// about `world`, with the others left as they were: all but the last of
/// those asked answered `true`, and the last one answered `last`.
pub open spec fn asked<V: 'static, C: ReadonlySystem<V, (), bool>>(
    before: Seq<C>,
    after: Seq<C>,
    world: World<V>,
    count: int,
    last: bool,
) -> bool {
    &&& 0 <= count <= before.len()
    &&& after.len() == before.len()
    &&& forall|i: int| 0 <= i < count ==> #[trigger] asked_one(before[i], after[i], world, i, count, last)
    &&& forall|i: int| count <= i < before.len() ==> #[trigger] after[i] == before[i]
}

/// Whether the conditions were asked in order until one answered `false`
/// or none was left, and `go` tells that none answered `false`.
pub open spec fn questioned<V: 'static, C: ReadonlySystem<V, (), bool>>(
    before: Seq<C>,
    after: Seq<C>,
    world: World<V>,
    go: bool,
) -> bool {
    exists|count: int|
        #[trigger] asked(before, after, world, count, go) && (go ==> count == before.len()) && (!go ==> count
            >= 1)
}

impl<V: 'static, S: System<V, (), ()>, C: ReadonlySystem<V, (), bool>> SystemConfig<V, S, C> {
    /// The system.
    pub closed spec fn system(&self) -> S {
        self.system
    }

    /// The conditions, in the order in which they were attached.
    pub closed spec fn conditions(&self) -> Seq<C> {
        self.conditions@
    }

    /// Whether the system has been initialized through this configuration.
    pub closed spec fn system_initialized(&self) -> bool {
        self.is_initialized
    }

    /// How many of the conditions have been initialized.
    pub closed spec fn conditions_initialized(&self) -> nat {
        self.initialized_conditions as nat
    }

    /// The parameter kinds that the system declares.
    pub open spec fn kinds(&self) -> Seq<SystemParamKind> {
        self.system().kinds()
    }

    /// Whether the system needs the whole world for itself.
    pub open spec fn exclusive(&self) -> bool {
        self.system().exclusive()
    }

    /// Whether the system must run on the thread that owns the world.
    pub open spec fn thread_local(&self) -> bool {
        self.system().thread_local()
    }

    /// Whether the system holds back no change to the world.
    pub open spec fn flushed(&self) -> bool {
        self.system().flushed()
    }

    /// How often the system has run.
    pub open spec fn runs(&self) -> nat {
        self.system().runs()
    }

    /// The invariant of a configuration: what it counts as initialized is
    /// initialized.
    pub open spec fn wf(&self) -> bool {
        &&& self.system_initialized() ==> self.system().initialized()
        &&& self.conditions_initialized() <= self.conditions().len()
        &&& forall|i: int|
            0 <= i < self.conditions_initialized() ==> (#[trigger] self.conditions()[i]).initialized()
    }

    /// Whether the system and all its conditions are initialized, so that
    /// the system can run.
    pub open spec fn ready(&self) -> bool {
        &&& self.wf()
        &&& self.system_initialized()
        &&& self.conditions_initialized() == self.conditions().len()
    }

    /// Whether the configuration `after` and the world `world_after` come
    /// of this configuration and the world `world_before` by initializing
    /// what is not initialized: the system first, unless it is, then the
    /// conditions that are not, in order. What is initialized is left as it
    /// is.
    pub open spec fn initialized_from(&self, after: &Self, world_before: World<V>, world_after: World<V>) -> bool {
        exists|system_world: World<V>|
            {
                &&& if self.system_initialized() {
                    system_world == world_before && after.system() == self.system()
                } else {
                    self.system().initialized_by(world_before, system_world)
                }
                &&& system_world.wf()
                &&& #[trigger] conditions_initialized_from(
                    self.conditions(),
                    self.conditions_initialized() as int,
                    system_world,
                    world_after,
                )
                &&& forall|j: int|
                    0 <= j < self.conditions_initialized() ==> #[trigger] after.conditions()[j]
                        == self.conditions()[j]
            }
    }

    /// A configuration that is ready is initialized from itself, with the
    /// world left as it is.
    pub proof fn lemma_ready_is_initialized(&self, world: World<V>)
        requires
            self.ready(),
            world.wf(),
        ensures
            self.initialized_from(self, world, world),
    {
        let worlds = seq![world];
        assert(is_condition_trace(self.conditions(), worlds, self.conditions().len() as int, world, world));
        assert(conditions_initialized_from(self.conditions(), self.conditions_initialized() as int, world, world));
    }

    /// Whether two configurations declare the same of their systems.
    pub open spec fn same_shape(&self, other: &Self) -> bool {
        &&& self.kinds() == other.kinds()
        &&& self.exclusive() == other.exclusive()
        &&& self.thread_local() == other.thread_local()
    }

    /// Wraps `system` in a configuration without conditions.
    pub fn new(system: S) -> (config: SystemConfig<V, S, C>)
        ensures
            config.wf(),
            config.system() == system,
            config.conditions() == Seq::<C>::empty(),
            !config.system_initialized(),
            config.conditions_initialized() == 0,
    {
        SystemConfig {
            system,
            conditions: Vec::new(),
            is_initialized: false,
            initialized_conditions: 0,
            marker: PhantomData,
        }
    }

    /// Run the system only if the condition is `true`, and every condition
    /// attached before.
    pub fn run_if(self, condition: C) -> (config: SystemConfig<V, S, C>)
        requires
            self.wf(),
        ensures
            config.wf(),
            config.system() == self.system(),
            config.conditions() == self.conditions().push(condition),
            config.system_initialized() == self.system_initialized(),
            config.conditions_initialized() == self.conditions_initialized(),
    {
        let mut config = self;
        config.conditions.push(condition);
        config
    }

    /// Returns whether the system and all its conditions are initialized.
    pub fn is_ready(&self) -> (ready: bool)
        requires
            self.wf(),
        ensures
            ready == self.ready(),
    {
        self.is_initialized && self.initialized_conditions == self.conditions.len()
    }

    /// Initialize the system state, and that of the conditions. What is
    /// initialized already is left as it is.
    pub fn initialize(&mut self, world: &mut World<V>)
        requires
            old(self).wf(),
            old(world).wf(),
        ensures
            final(self).ready(),
            final(self).same_shape(old(self)),
            final(self).conditions().len() == old(self).conditions().len(),
            old(self).initialized_from(final(self), *old(world), *final(world)),
            final(world).wf(),
            old(self).ready() ==> *final(self) == *old(self) && *final(world) == *old(world),
    {
        if !self.is_initialized {
            self.system.initialize(world);
            self.is_initialized = true;
        }
        let ghost system_world = *world;
        let ghost first = self.conditions_initialized() as int;
        let ghost mut trace: Seq<World<V>> = seq![*world];
        while self.initialized_conditions < self.conditions.len()
            invariant
                self.wf(),
                self.system_initialized(),
                self.same_shape(old(self)),
                self.conditions().len() == old(self).conditions().len(),
                world.wf(),
                old(self).ready() ==> *self == *old(self) && *world == *old(world),
                first == old(self).conditions_initialized(),
                first <= self.conditions_initialized(),
                old(self).system_initialized() ==> self.system() == old(self).system(),
                forall|j: int| 0 <= j < first ==> #[trigger] self.conditions()[j] == old(self).conditions()[j],
                forall|j: int|
                    self.conditions_initialized() <= j < self.conditions().len() ==> #[trigger] self.conditions()[j]
                        == old(self).conditions()[j],
                trace.len() == self.conditions_initialized() - first + 1,
                trace[0] == system_world,
                trace[self.conditions_initialized() - first] == *world,
                forall|i: int|
                    0 <= i < self.conditions_initialized() - first ==> #[trigger] is_condition_step(
                        old(self).conditions(),
                        trace,
                        first,
                        i,
                    ),
            decreases self.conditions().len() - self.conditions_initialized(),
        {
            let at = self.initialized_conditions;
            let ghost passed = trace;
            self.conditions[at].initialize(world);
            self.initialized_conditions = at + 1;
            proof {
                trace = passed.push(*world);
                assert forall|i: int| 0 <= i < at + 1 - first implies #[trigger] is_condition_step(
                    old(self).conditions(),
                    trace,
                    first,
                    i,
                ) by {
                    if i < at - first {
                        assert(is_condition_step(old(self).conditions(), passed, first, i));
                    }
                }
            }
        }
        proof {
            assert(is_condition_trace(old(self).conditions(), trace, first, system_world, *world));
            assert(conditions_initialized_from(old(self).conditions(), first, system_world, *world));
        }
    }

    /// Returns `true` if all conditions are `true`. The conditions are
    /// asked in order, up to the first that is `false`.
    pub fn should_run(&mut self, world: &World<V>) -> (go: bool)
        requires
            old(self).ready(),
            world.wf(),
        ensures
            final(self).ready(),
            final(self).system() == old(self).system(),
            questioned(old(self).conditions(), final(self).conditions(), *world, go),
            old(self).conditions().len() == 0 ==> go,
    {
        let mut i: usize = 0;
        while i < self.conditions.len()
            invariant
                self.ready(),
                self.system() == old(self).system(),
                asked(old(self).conditions(), self.conditions(), *world, i as int, true),
                world.wf(),
                0 <= i <= self.conditions().len(),
            decreases self.conditions().len() - i,
        {
            let ghost before = self.conditions@;
            assert(before[i as int] == old(self).conditions()[i as int]);
            let answer = self.conditions[i].run_readonly((), world);
            proof {
                assert forall|k: int| 0 <= k < self.conditions_initialized() implies (
                #[trigger] self.conditions()[k]).initialized() by {
                    if k != i {
                        assert(self.conditions()[k] == before[k]);
                    }
                }
                assert forall|k: int| 0 <= k < i + 1 implies #[trigger] asked_one(
                    old(self).conditions()[k],
                    self.conditions()[k],
                    *world,
                    k,
                    i + 1,
                    answer,
                ) by {
                    if k != i {
                        assert(self.conditions()[k] == before[k]);
                        assert(asked_one(old(self).conditions()[k], before[k], *world, k, i as int, true));
                    }
                }
                assert forall|k: int| i + 1 <= k < before.len() implies #[trigger] self.conditions()[k] == old(self).conditions()[k] by {
                    assert(self.conditions()[k] == before[k]);
                }
                assert(self.conditions().len() == old(self).conditions().len());
                assert(0 <= i + 1 <= old(self).conditions().len());
                assert(asked(old(self).conditions(), self.conditions(), *world, i + 1, answer));
            }
            if !answer {
                return false;
            }
            i = i + 1;
        }
        true
    }

    /// Runs the system with a shared view of the world if `go` holds, and
    /// does nothing if it does not. An exclusive system does not run with a
    /// shared view.
    ///
    /// Returns whether the system ran.
    pub fn run_unsafe_when(&mut self, go: bool, world: UnsafeWorldCell<'_, V>) -> (ran: bool)
        requires
            old(self).ready(),
            world.target().wf(),
        ensures
            ran == (go && !old(self).exclusive()),
            ran ==> old(self).system().ran_shared((), world.target(), ()),
            final(self).runs() == old(self).runs() + if ran {
                1nat
            } else {
                0nat
            },
            final(self).ready(),
            final(self).same_shape(old(self)),
            final(self).conditions() == old(self).conditions(),
            !go ==> *final(self) == *old(self),
            !ran ==> final(self).flushed() == old(self).flushed(),
    {
        if go {
            self.system.run_unsafe((), world).is_some()
        } else {
            false
        }
    }

    /// Runs the system with exclusive access to the world if `go` holds,
    /// and does nothing if it does not: then neither the system nor the
    /// world changes.
    ///
    /// Returns whether the system ran.
    pub fn run_when(&mut self, go: bool, world: &mut World<V>) -> (ran: bool)
        requires
            old(self).ready(),
            old(world).wf(),
        ensures
            ran == go,
            go ==> old(self).system().ran_exclusive((), *old(world), (), *final(world)),
            final(self).runs() == old(self).runs() + if go {
                1nat
            } else {
                0nat
            },
            final(self).ready(),
            final(self).same_shape(old(self)),
            final(self).conditions() == old(self).conditions(),
            final(world).wf(),
            !go ==> *final(self) == *old(self) && *final(world) == *old(world),
    {
        if go {
            self.system.run((), world);
            true
        } else {
            false
        }
    }

    /// Runs the system with a shared view of the world, if all its
    /// conditions are `true`.
    ///
    /// Returns whether the system ran.
    pub fn run_unsafe(&mut self, world: UnsafeWorldCell<'_, V>) -> (ran: bool)
        requires
            old(self).ready(),
            world.target().wf(),
        ensures
            !old(self).exclusive() ==> questioned(
                old(self).conditions(),
                final(self).conditions(),
                world.target(),
                ran,
            ),
            ran ==> old(self).system().ran_shared((), world.target(), ()),
            final(self).runs() == old(self).runs() + if ran {
                1nat
            } else {
                0nat
            },
            final(self).ready(),
            final(self).same_shape(old(self)),
            final(self).conditions().len() == old(self).conditions().len(),
            !ran ==> final(self).flushed() == old(self).flushed(),
            old(self).conditions().len() == 0 ==> ran == !old(self).exclusive(),
    {
        let go = self.should_run(world.world());
        self.run_unsafe_when(go, world)
    }

    /// Runs the system with exclusive access to the world, if all its
    /// conditions are `true`.
    ///
    /// Returns whether the system ran.
    pub fn run(&mut self, world: &mut World<V>) -> (ran: bool)
        requires
            old(self).ready(),
            old(world).wf(),
        ensures
            questioned(old(self).conditions(), final(self).conditions(), *old(world), ran),
            ran ==> old(self).system().ran_exclusive((), *old(world), (), *final(world)),
            final(self).runs() == old(self).runs() + if ran {
                1nat
            } else {
                0nat
            },
            final(self).ready(),
            final(self).same_shape(old(self)),
            final(self).conditions().len() == old(self).conditions().len(),
            final(world).wf(),
            !ran ==> final(self).system() == old(self).system() && *final(world) == *old(world),
            old(self).conditions().len() == 0 ==> ran,
    {
        let go = self.should_run(world);
        self.run_when(go, world)
    }

    /// Applies the mutations that the system's parameters have deferred.
    pub fn apply_deferred(&mut self, world: &mut World<V>)
        requires
            old(self).ready(),
            old(world).wf(),
        ensures
            old(self).system().applied(*old(world), *final(world)),
            final(self).runs() == old(self).runs(),
            final(self).ready(),
            final(self).flushed(),
            final(self).same_shape(old(self)),
            final(self).conditions() == old(self).conditions(),
            final(world).wf(),
    {
        self.system.apply_deferred(world);
    }

    /// The system parameters.
    pub fn param_kinds(&self) -> (kinds: &[SystemParamKind])
        ensures
            kinds@ == self.kinds(),
    {
        self.system.param_kinds()
    }

    /// Returns whether the system has exclusive access to the world.
    pub fn is_exclusive(&self) -> (exclusive: bool)
        ensures
            exclusive == self.exclusive(),
    {
        self.system.is_exclusive()
    }

    /// Returns whether the system must run on the main thread.
    pub fn is_thread_local(&self) -> (thread_local: bool)
        ensures
            thread_local == self.thread_local(),
    {
        self.system.is_thread_local()
    }

    /// Returns the system's name.
    pub fn name(&self) -> (name: &'static str)
        ensures
            name == self.system().spec_name(),
    {
        self.system.name()
    }
}

/// Types that can convert into a [`SystemConfig`].
pub trait IntoConfig<V: 'static, S: System<V, (), ()>, C: ReadonlySystem<V, (), bool>, Marker>: Sized {
    /// Whether the value can be converted: a configuration that meets its
    /// invariant, or anything else.
    spec fn convertible(&self) -> bool;

    /// The parameter kinds that the configured system declares.
    spec fn config_kinds(&self) -> Seq<SystemParamKind>;

    /// Whether the configured system needs the whole world for itself.
    spec fn config_exclusive(&self) -> bool;

    /// Whether the configured system must run on the thread that owns the
    /// world.
    spec fn config_thread_local(&self) -> bool;

    /// Whether `config` is what this value converts into.
    spec fn configured_as(&self, config: &SystemConfig<V, S, C>) -> bool;

    /// Convert into a [`SystemConfig`].
    fn into_config(self) -> (config: SystemConfig<V, S, C>)
        requires
            self.convertible(),
        ensures
            config.wf(),
            config.kinds() == self.config_kinds(),
            config.exclusive() == self.config_exclusive(),
            config.thread_local() == self.config_thread_local(),
            self.configured_as(&config),
    ;

    /// Run the system only if the [`Condition`](super::Condition) is
    /// `true`: converts this value and attaches the condition behind the
    /// conditions that it has.
    fn run_if(self, condition: C) -> (gated: SystemConfig<V, S, C>)
        requires
            self.convertible(),
        ensures
            gated.wf(),
            exists|plain: SystemConfig<V, S, C>|
                #[trigger] self.configured_as(&plain) && gated.system() == plain.system() && gated.conditions()
                    == plain.conditions().push(condition) && gated.system_initialized()
                    == plain.system_initialized() && gated.conditions_initialized()
                    == plain.conditions_initialized(),
    ;
}

impl<V: 'static, S: System<V, (), ()>, C: ReadonlySystem<V, (), bool>> IntoConfig<
    V,
    S,
    C,
    IsSystemConfig,
> for SystemConfig<V, S, C> {
    open spec fn convertible(&self) -> bool {
        self.wf()
    }

    open spec fn config_kinds(&self) -> Seq<SystemParamKind> {
        self.kinds()
    }

    open spec fn config_exclusive(&self) -> bool {
        self.exclusive()
    }

    open spec fn config_thread_local(&self) -> bool {
        self.thread_local()
    }

    open spec fn configured_as(&self, config: &SystemConfig<V, S, C>) -> bool {
        *config == *self
    }

    fn run_if(self, condition: C) -> (gated: SystemConfig<V, S, C>) {
        proof {
            assert(self.configured_as(&self));
        }
        SystemConfig::run_if(self, condition)
    }

    fn into_config(self) -> (config: SystemConfig<V, S, C>)
        ensures
            config == self,
    {
        self
    }
}

impl<V: 'static, C: ReadonlySystem<V, (), bool>, Marker, T: IntoSystem<V, (), (), Marker>> IntoConfig<
    V,
    T::System,
    C,
    (Marker,),
> for T {
    open spec fn convertible(&self) -> bool {
        true
    }

    open spec fn config_kinds(&self) -> Seq<SystemParamKind> {
        self.system_kinds()
    }

    open spec fn config_exclusive(&self) -> bool {
        self.system_exclusive()
    }

    open spec fn config_thread_local(&self) -> bool {
        self.system_thread_local()
    }

    open spec fn configured_as(&self, config: &SystemConfig<V, T::System, C>) -> bool {
        &&& self.becomes(&config.system())
        &&& config.conditions() == Seq::<C>::empty()
        &&& !config.system_initialized()
        &&& config.conditions_initialized() == 0
    }

    fn run_if(self, condition: C) -> (gated: SystemConfig<V, T::System, C>) {
        let plain = SystemConfig::new(self.into_system());
        proof {
            assert(self.configured_as(&plain));
        }
        SystemConfig::run_if(plain, condition)
    }

    fn into_config(self) -> (config: SystemConfig<V, T::System, C>) {
        SystemConfig::new(self.into_system())
    }
}

} // verus!
