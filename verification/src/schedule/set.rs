//! The steps of a schedule: how systems are put into them, and how they
//! run.

use vstd::prelude::*;
use crate::schedule::config::{questioned, SystemConfig};
use crate::schedule::parallel::{
    applied_each, can_run_together, initialized_each, is_apply_step, is_apply_trace, is_init_step,
    is_init_trace, is_served_step, is_served_trace, kept,
    member_kinds, ran_together, run_batch_parallel, same_systems, same_systems_flushed, served, served_each,
    took_turn,
};
use crate::schedule::plan::{
    accepts, all_conflict_free, close_parallel, conflict_free, join_start, lemma_join_start,
    lemma_join_start_unique, lemma_joins_behind_closed_step,
    lemma_plan_parallel_safe, plan_barrier, plan_entry, plan_parallel, plan_serial, Entry, StepKind, StepShape,
};
use crate::system::kind::{any_conflict, kinds_conflict, SystemParamKind};
use crate::system::commands::maintained;
use crate::system::{ReadonlySystem, System};
use crate::world::World;

verus! {

/// Steps that can be run by a schedule.
#[verifier::reject_recursive_types(V)]
pub enum ScheduleStep<V: 'static, S, C> {
    /// Runs the systems in parallel.
    Systems(Vec<SystemConfig<V, S, C>>),
    /// Runs the systems sequentially on the main thread.
    LocalSystems(Vec<SystemConfig<V, S, C>>),
    /// Runs the systems sequentially.
    ExclusiveSystems(Vec<SystemConfig<V, S, C>>),
    /// Prevents future systems from running in parallel with previous ones.
    Barrier,
}

/// A set of [`ScheduleStep`]s.
#[verifier::reject_recursive_types(V)]
pub struct ScheduleSet<V: 'static, S, C> {
    steps: Vec<ScheduleStep<V, S, C>>,
}

/// The shapes of the given steps, in order.
pub open spec fn shapes_of<V: 'static, S: System<V, (), ()>, C: ReadonlySystem<V, (), bool>>(
    steps: Seq<ScheduleStep<V, S, C>>,
) -> Seq<StepShape> {
    steps.map_values(|step: ScheduleStep<V, S, C>| step.shape())
}

/// Whether `after` is `before` with `config` put into the step at `at`, a
/// step of the given `kind`: at the end of that step where `at` is one of
/// the steps, and alone in a new last step where `at` is their number.
pub open spec fn joined<V: 'static, S: System<V, (), ()>, C: ReadonlySystem<V, (), bool>>(
    before: Seq<ScheduleStep<V, S, C>>,
    after: Seq<ScheduleStep<V, S, C>>,
    at: int,
    kind: StepKind,
    config: SystemConfig<V, S, C>,
) -> bool {
    &&& 0 <= at <= before.len()
    &&& after.len() == if at < before.len() {
        before.len()
    } else {
        before.len() + 1
    }
    &&& after[at].kind() == kind
    &&& after[at].members() == if at < before.len() {
        before[at].members().push(config)
    } else {
        seq![config]
    }
    &&& forall|i: int| 0 <= i < before.len() && i != at ==> #[trigger] after[i] == before[i]
}

/// The steps with a barrier added behind a parallel step that ends them.
pub open spec fn closed_steps<V: 'static, S: System<V, (), ()>, C: ReadonlySystem<V, (), bool>>(
    steps: Seq<ScheduleStep<V, S, C>>,
) -> Seq<ScheduleStep<V, S, C>> {
    if steps.len() > 0 && steps.last().kind() == StepKind::Systems {
        steps.push(ScheduleStep::Barrier)
    } else {
        steps
    }
}

/// Where a system that runs alone goes among steps that end in no parallel
/// step: into the last step where that is of the given `kind`, and behind
/// it where it is not.
pub open spec fn serial_place<V: 'static, S: System<V, (), ()>, C: ReadonlySystem<V, (), bool>>(
    closed: Seq<ScheduleStep<V, S, C>>,
    kind: StepKind,
) -> int {
    if closed.len() > 0 && closed.last().kind() == kind {
        closed.len() - 1
    } else {
        closed.len() as int
    }
}

/// Whether `after` is `before` with `system` put into its place: an
/// exclusive system into an exclusive step, a thread-local one into a local
/// step, each behind a barrier where a parallel step ended the steps, and
/// any other system into the parallel step at `join_start`.
pub open spec fn placed<V: 'static, S: System<V, (), ()>, C: ReadonlySystem<V, (), bool>>(
    before: Seq<ScheduleStep<V, S, C>>,
    after: Seq<ScheduleStep<V, S, C>>,
    system: SystemConfig<V, S, C>,
    max_threads: int,
) -> bool {
    if system.exclusive() {
        joined(
            closed_steps(before),
            after,
            serial_place(closed_steps(before), StepKind::ExclusiveSystems),
            StepKind::ExclusiveSystems,
            system,
        )
    } else if system.thread_local() {
        joined(
            closed_steps(before),
            after,
            serial_place(closed_steps(before), StepKind::LocalSystems),
            StepKind::LocalSystems,
            system,
        )
    } else {
        joined(
            before,
            after,
            join_start(shapes_of(before), system.kinds(), max_threads),
            StepKind::Systems,
            system,
        )
    }
}

/// Whether initializing step `i` leads from world `i` of `worlds`, which is
/// well formed, to the next one.
pub open spec fn is_step_init<V: 'static, S: System<V, (), ()>, C: ReadonlySystem<V, (), bool>>(
    before: Seq<ScheduleStep<V, S, C>>,
    after: Seq<ScheduleStep<V, S, C>>,
    worlds: Seq<World<V>>,
    i: int,
) -> bool {
    worlds[i].wf() && initialized_each(before[i].members(), after[i].members(), worlds[i], worlds[i + 1])
}

/// Whether `worlds` are the worlds that are passed when the steps are
/// initialized, the first step first.
pub open spec fn is_set_init_trace<V: 'static, S: System<V, (), ()>, C: ReadonlySystem<V, (), bool>>(
    before: Seq<ScheduleStep<V, S, C>>,
    after: Seq<ScheduleStep<V, S, C>>,
    worlds: Seq<World<V>>,
    world_before: World<V>,
    world_after: World<V>,
) -> bool {
    &&& after.len() == before.len()
    &&& worlds.len() == before.len() + 1
    &&& worlds[0] == world_before
    &&& worlds[before.len() as int] == world_after
    &&& forall|i: int| 0 <= i < before.len() ==> #[trigger] is_step_init(before, after, worlds, i)
}

/// Whether the steps `after` and the world `world_after` come of the steps
/// `before` and the world `world_before` when the systems of each step are
/// initialized as far as they are not, step by step and in each step system
/// by system, and nothing else is done to the world.
pub open spec fn set_initialized<V: 'static, S: System<V, (), ()>, C: ReadonlySystem<V, (), bool>>(
    before: Seq<ScheduleStep<V, S, C>>,
    after: Seq<ScheduleStep<V, S, C>>,
    world_before: World<V>,
    world_after: World<V>,
) -> bool {
    exists|worlds: Seq<World<V>>| is_set_init_trace(before, after, worlds, world_before, world_after)
}

/// Whether the step `after` and the world `world_after` come of the step
/// `before` and the world `world_before` by one run of the step. In a
/// parallel step every system takes its turn with a shared view of the
/// world as it was, and when all have returned, what each has deferred is
/// applied, in order. In a local or exclusive step each system has its turn
/// with exclusive access, in order. A barrier maintains the world.
pub open spec fn step_ran<V: 'static, S: System<V, (), ()>, C: ReadonlySystem<V, (), bool>>(
    before: ScheduleStep<V, S, C>,
    after: ScheduleStep<V, S, C>,
    world_before: World<V>,
    world_after: World<V>,
) -> bool {
    match before.kind() {
        StepKind::Systems => exists|turned: Seq<SystemConfig<V, S, C>>|
            #[trigger] ran_together(before.members(), turned, world_before) && kept(turned, after.members())
                && applied_each(turned, world_before, world_after),
        StepKind::LocalSystems => served_each(before.members(), after.members(), world_before, world_after),
        StepKind::ExclusiveSystems => served_each(before.members(), after.members(), world_before, world_after),
        StepKind::Barrier => maintained(world_before, world_after),
    }
}

/// Whether the run of step `i` leads from world `i` of `worlds`, which is
/// well formed, to the next one.
pub open spec fn is_run_step<V: 'static, S: System<V, (), ()>, C: ReadonlySystem<V, (), bool>>(
    before: Seq<ScheduleStep<V, S, C>>,
    after: Seq<ScheduleStep<V, S, C>>,
    worlds: Seq<World<V>>,
    i: int,
) -> bool {
    worlds[i].wf() && step_ran(before[i], after[i], worlds[i], worlds[i + 1])
}

/// Whether `worlds` are the worlds that are passed when the steps run, the
/// first step first, from `world_before` on.
pub open spec fn is_run_trace<V: 'static, S: System<V, (), ()>, C: ReadonlySystem<V, (), bool>>(
    before: Seq<ScheduleStep<V, S, C>>,
    after: Seq<ScheduleStep<V, S, C>>,
    worlds: Seq<World<V>>,
    world_before: World<V>,
) -> bool {
    &&& after.len() == before.len()
    &&& worlds.len() == before.len() + 1
    &&& worlds[0] == world_before
    &&& worlds[before.len() as int].wf()
    &&& forall|i: int| 0 <= i < before.len() ==> #[trigger] is_run_step(before, after, worlds, i)
}

/// Whether the steps `after` and the world `world_after` come of the steps
/// `before` and the world `world_before` by one run of the set: each step
/// runs once, in order, each before the next begins, and the world is
/// maintained after the last.
pub open spec fn set_ran<V: 'static, S: System<V, (), ()>, C: ReadonlySystem<V, (), bool>>(
    before: Seq<ScheduleStep<V, S, C>>,
    after: Seq<ScheduleStep<V, S, C>>,
    world_before: World<V>,
    world_after: World<V>,
) -> bool {
    exists|worlds: Seq<World<V>>|
        #[trigger] is_run_trace(before, after, worlds, world_before) && maintained(
            worlds[before.len() as int],
            world_after,
        )
}

impl<V: 'static, S: System<V, (), ()>, C: ReadonlySystem<V, (), bool>> ScheduleStep<V, S, C> {
    /// What the step does with its systems.
    pub open spec fn kind(&self) -> StepKind {
        match self {
            ScheduleStep::Systems(_) => StepKind::Systems,
            ScheduleStep::LocalSystems(_) => StepKind::LocalSystems,
            ScheduleStep::ExclusiveSystems(_) => StepKind::ExclusiveSystems,
            ScheduleStep::Barrier => StepKind::Barrier,
        }
    }

    /// The systems of the step, in order.
    pub open spec fn members(&self) -> Seq<SystemConfig<V, S, C>> {
        match self {
            ScheduleStep::Systems(systems) => systems@,
            ScheduleStep::LocalSystems(systems) => systems@,
            ScheduleStep::ExclusiveSystems(systems) => systems@,
            ScheduleStep::Barrier => Seq::empty(),
        }
    }

    /// The step, reduced to its kind and the parameter kinds of its
    /// systems.
    pub open spec fn shape(&self) -> StepShape {
        StepShape { kind: self.kind(), members: member_kinds(self.members()) }
    }

    /// The invariant of a step: its systems meet their invariant, and where
    /// they run in parallel, none of them is exclusive or bound to the main
    /// thread, and no two of them conflict.
    pub open spec fn wf(&self) -> bool {
        &&& forall|m: int| 0 <= m < self.members().len() ==> (#[trigger] self.members()[m]).wf()
        &&& self.kind() == StepKind::Systems ==> forall|m: int|
            0 <= m < self.members().len() ==> !(#[trigger] self.members()[m]).exclusive()
                && !self.members()[m].thread_local()
        &&& conflict_free(self.shape())
    }

    /// Whether every system of the step is ready to run.
    pub open spec fn ready(&self) -> bool {
        forall|m: int| 0 <= m < self.members().len() ==> (#[trigger] self.members()[m]).ready()
    }

    /// Whether no system of the step holds back a change to the world.
    pub open spec fn flushed(&self) -> bool {
        forall|m: int| 0 <= m < self.members().len() ==> (#[trigger] self.members()[m]).flushed()
    }

    /// Returns whether a system with the given parameter `kinds` may join
    /// the step.
    pub fn accepts(&self, kinds: &[SystemParamKind], max_threads: usize) -> (accepted: bool)
        ensures
            accepted == accepts(self.shape(), kinds@, max_threads as int),
    {
        match self {
            ScheduleStep::Systems(systems) => {
                if systems.len() >= max_threads {
                    return false;
                }
                let mut m: usize = 0;
                while m < systems.len()
                    invariant
                        0 <= m <= systems@.len(),
                        self.shape().members == member_kinds(systems@),
                        forall|k: int| 0 <= k < m ==> !kinds_conflict(#[trigger] self.shape().members[k], kinds@),
                    decreases systems@.len() - m,
                {
                    if any_conflict(systems[m].param_kinds(), kinds) {
                        assert(self.shape().members[m as int] == systems@[m as int].kinds());
                        return false;
                    }
                    assert(self.shape().members[m as int] == systems@[m as int].kinds());
                    m = m + 1;
                }
                true
            },
            _ => false,
        }
    }

    /// Initializes all systems in the step that are not ready. A step
    /// whose systems are all ready is left as it is, and the world with it.
    pub fn initialize(&mut self, world: &mut World<V>)
        requires
            old(self).wf(),
            old(world).wf(),
        ensures
            final(self).wf(),
            final(self).ready(),
            final(self).shape() == old(self).shape(),
            final(self).kind() == old(self).kind(),
            initialized_each(old(self).members(), final(self).members(), *old(world), *final(world)),
            forall|m: int|
                0 <= m < old(self).members().len() && (#[trigger] old(self).members()[m]).ready()
                    ==> final(self).members()[m] == old(self).members()[m],
            old(self).ready() ==> *final(self) == *old(self) && *final(world) == *old(world),
            final(world).wf(),
    {
        match self {
            ScheduleStep::Systems(systems) => {
                initialize_all(systems, world);
                proof {
                    lemma_same_kinds(old(self).members(), systems@);
                }
            },
            ScheduleStep::LocalSystems(systems) => {
                initialize_all(systems, world);
                proof {
                    lemma_same_kinds(old(self).members(), systems@);
                }
            },
            ScheduleStep::ExclusiveSystems(systems) => {
                initialize_all(systems, world);
                proof {
                    lemma_same_kinds(old(self).members(), systems@);
                }
            },
            ScheduleStep::Barrier => {
                proof {
                    assert(is_init_trace(old(self).members(), self.members(), seq![*world], *world, *world));
                }
            },
        }
    }

    /// Runs the step. A parallel step runs its systems side by side on the
    /// worker threads where `parallel` holds and it has more than one, and
    /// one after the other where not; once all have returned, it applies
    /// what each has deferred, in order. A local or exclusive step runs its
    /// systems one after the other, each on a maintained world, and applies
    /// what each has deferred before the next runs. A barrier maintains the
    /// world. When the step ends, none of its systems holds back a change
    /// to the world.
    pub fn run(&mut self, world: &mut World<V>, parallel: bool) where V: Send + Sync
        requires
            old(self).wf(),
            old(self).ready(),
            old(world).wf(),
        ensures
            final(self).wf(),
            final(self).ready(),
            final(self).flushed(),
            final(self).shape() == old(self).shape(),
            final(world).wf(),
            step_ran(*old(self), *final(self), *old(world), *final(world)),
    {
        match self {
            ScheduleStep::Systems(systems) => {
                proof {
                    assert(old(self).shape().members == member_kinds(systems@));
                }
                if parallel && systems.len() > 1 {
                    run_batch_parallel(systems, &*world);
                } else {
                    run_batch(systems, &*world);
                }
                let ghost after_run = systems@;
                apply_all(systems, world);
                proof {
                    lemma_same_systems_transitive(old(self).members(), after_run, systems@);
                    lemma_same_kinds(old(self).members(), systems@);
                    assert(ran_together(old(self).members(), after_run, *old(world)) && kept(after_run, systems@)
                        && applied_each(after_run, *old(world), *world));
                }
            },
            ScheduleStep::LocalSystems(systems) => {
                run_each(systems, world);
                proof {
                    lemma_same_kinds(old(self).members(), systems@);
                }
            },
            ScheduleStep::ExclusiveSystems(systems) => {
                run_each(systems, world);
                proof {
                    lemma_same_kinds(old(self).members(), systems@);
                }
            },
            ScheduleStep::Barrier => {
                world.maintain();
            },
        }
    }
}

/// Systems that kept their declarations have the same parameter kinds.
pub proof fn lemma_same_kinds<V: 'static, S: System<V, (), ()>, C: ReadonlySystem<V, (), bool>>(
    before: Seq<SystemConfig<V, S, C>>,
    after: Seq<SystemConfig<V, S, C>>,
)
    requires
        same_systems(before, after),
    ensures
        member_kinds(after) == member_kinds(before),
        forall|m: int|
            0 <= m < after.len() ==> (#[trigger] after[m]).exclusive() == before[m].exclusive()
                && after[m].thread_local() == before[m].thread_local(),
{
    assert(member_kinds(after) =~= member_kinds(before));
}

/// Keeping the declarations is transitive.
pub proof fn lemma_same_systems_transitive<V: 'static, S: System<V, (), ()>, C: ReadonlySystem<V, (), bool>>(
    first: Seq<SystemConfig<V, S, C>>,
    second: Seq<SystemConfig<V, S, C>>,
    third: Seq<SystemConfig<V, S, C>>,
)
    requires
        same_systems(first, second),
        same_systems(second, third),
    ensures
        same_systems(first, third),
{
    assert forall|i: int| 0 <= i < third.len() implies (#[trigger] third[i]).ready() && third[i].same_shape(
        &first[i],
    ) by {
        assert(second[i].same_shape(&first[i]));
        assert(third[i].same_shape(&second[i]));
    }
}

/// Whether every one of the systems is ready to run.
pub open spec fn all_ready<V: 'static, S: System<V, (), ()>, C: ReadonlySystem<V, (), bool>>(
    systems: Seq<SystemConfig<V, S, C>>,
) -> bool {
    forall|i: int| 0 <= i < systems.len() ==> (#[trigger] systems[i]).ready()
}

/// Initializes each of the systems that is not ready, in order. A system
/// that is ready is not touched.
pub fn initialize_all<V: 'static, S: System<V, (), ()>, C: ReadonlySystem<V, (), bool>>(
    systems: &mut Vec<SystemConfig<V, S, C>>,
    world: &mut World<V>,
)
    requires
        forall|i: int| 0 <= i < old(systems)@.len() ==> (#[trigger] old(systems)@[i]).wf(),
        old(world).wf(),
    ensures
        same_systems(old(systems)@, final(systems)@),
        initialized_each(old(systems)@, final(systems)@, *old(world), *final(world)),
        forall|i: int|
            0 <= i < old(systems)@.len() && (#[trigger] old(systems)@[i]).ready() ==> final(systems)@[i] == old(systems)@[i],
        all_ready(old(systems)@) ==> *final(systems) == *old(systems) && *final(world) == *old(world),
        final(world).wf(),
{
    let mut i: usize = 0;
    let ghost mut trace: Seq<World<V>> = seq![*world];
    while i < systems.len()
        invariant
            0 <= i <= systems@.len(),
            systems@.len() == old(systems)@.len(),
            forall|k: int| 0 <= k < i ==> (#[trigger] systems@[k]).ready() && systems@[k].same_shape(&old(systems)@[k]),
            forall|k: int| 0 <= k < i && (#[trigger] old(systems)@[k]).ready() ==> systems@[k] == old(systems)@[k],
            forall|k: int| i <= k < systems@.len() ==> #[trigger] systems@[k] == old(systems)@[k],
            forall|k: int| 0 <= k < old(systems)@.len() ==> (#[trigger] old(systems)@[k]).wf(),
            all_ready(old(systems)@) ==> *systems == *old(systems) && *world == *old(world),
            world.wf(),
            trace.len() == i + 1,
            trace[0] == *old(world),
            trace[i as int] == *world,
            forall|k: int| 0 <= k < i ==> #[trigger] is_init_step(old(systems)@, systems@, trace, k),
        decreases systems@.len() - i,
    {
        let ghost before = systems@;
        let ghost passed = trace;
        assert(systems@[i as int] == old(systems)@[i as int]);
        if !systems[i].is_ready() {
            systems[i].initialize(world);
        } else {
            proof {
                systems@[i as int].lemma_ready_is_initialized(*world);
            }
        }
        proof {
            trace = passed.push(*world);
            assert forall|k: int| 0 <= k < i + 1 implies #[trigger] is_init_step(old(systems)@, systems@, trace, k) by {
                if k < i {
                    assert(systems@[k] == before[k]);
                    assert(is_init_step(old(systems)@, before, passed, k));
                }
            }
        }
        i = i + 1;
    }
    proof {
        assert(is_init_trace(old(systems)@, systems@, trace, *old(world), *world));
    }
}

/// Runs each of the systems with a shared view of the world, one after
/// the other on the calling thread: each has its conditions asked, and runs
/// once if they all hold.
pub fn run_batch<V: 'static, S: System<V, (), ()>, C: ReadonlySystem<V, (), bool>>(
    systems: &mut Vec<SystemConfig<V, S, C>>,
    world: &World<V>,
)
    requires
        can_run_together(old(systems)@),
        world.wf(),
    ensures
        same_systems(old(systems)@, final(systems)@),
        ran_together(old(systems)@, final(systems)@, *world),
{
    let mut i: usize = 0;
    while i < systems.len()
        invariant
            0 <= i <= systems@.len(),
            systems@.len() == old(systems)@.len(),
            forall|k: int| 0 <= k < i ==> (#[trigger] systems@[k]).ready() && systems@[k].same_shape(&old(systems)@[k]),
            forall|k: int| 0 <= k < i ==> #[trigger] took_turn(old(systems)@[k], systems@[k], *world),
            forall|k: int| i <= k < systems@.len() ==> #[trigger] systems@[k] == old(systems)@[k],
            can_run_together(old(systems)@),
            world.wf(),
        decreases systems@.len() - i,
    {
        let ghost before = systems@;
        assert(before[i as int] == old(systems)@[i as int]);
        assert(old(systems)@[i as int].ready() && !old(systems)@[i as int].exclusive());
        let ran = systems[i].run_unsafe(world.as_unsafe_world_cell());
        proof {
            assert(questioned(old(systems)@[i as int].conditions(), systems@[i as int].conditions(), *world, ran));
            assert(took_turn(old(systems)@[i as int], systems@[i as int], *world));
            assert forall|k: int| 0 <= k < i + 1 implies #[trigger] took_turn(old(systems)@[k], systems@[k], *world) by {
                if k < i {
                    assert(systems@[k] == before[k]);
                    assert(took_turn(old(systems)@[k], before[k], *world));
                }
            }
        }
        i = i + 1;
    }
}

/// Applies what each of the systems has deferred, in order. Afterwards no
/// system holds anything back, and the world is the one that comes of
/// applying one system's deferred changes after the other's.
pub fn apply_all<V: 'static, S: System<V, (), ()>, C: ReadonlySystem<V, (), bool>>(
    systems: &mut Vec<SystemConfig<V, S, C>>,
    world: &mut World<V>,
)
    requires
        forall|i: int| 0 <= i < old(systems)@.len() ==> (#[trigger] old(systems)@[i]).ready(),
        old(world).wf(),
    ensures
        same_systems_flushed(old(systems)@, final(systems)@),
        kept(old(systems)@, final(systems)@),
        applied_each(old(systems)@, *old(world), *final(world)),
        final(world).wf(),
{
    let mut i: usize = 0;
    let ghost mut trace: Seq<World<V>> = seq![*world];
    while i < systems.len()
        invariant
            0 <= i <= systems@.len(),
            systems@.len() == old(systems)@.len(),
            forall|k: int|
                0 <= k < i ==> (#[trigger] systems@[k]).ready() && systems@[k].flushed() && systems@[k].same_shape(
                    &old(systems)@[k],
                ) && systems@[k].runs() == old(systems)@[k].runs() && systems@[k].conditions() == old(systems)@[k].conditions(),
            forall|k: int| i <= k < systems@.len() ==> #[trigger] systems@[k] == old(systems)@[k],
            forall|k: int| 0 <= k < old(systems)@.len() ==> (#[trigger] old(systems)@[k]).ready(),
            world.wf(),
            trace.len() == i + 1,
            trace[0] == *old(world),
            trace[i as int] == *world,
            forall|k: int| 0 <= k < i ==> #[trigger] is_apply_step(old(systems)@, trace, k),
        decreases systems@.len() - i,
    {
        let ghost before = systems@;
        let ghost passed = trace;
        assert(before[i as int] == old(systems)@[i as int]);
        systems[i].apply_deferred(world);
        proof {
            trace = passed.push(*world);
            assert forall|k: int| 0 <= k < i + 1 implies #[trigger] is_apply_step(old(systems)@, trace, k) by {
                if k < i {
                    assert(is_apply_step(old(systems)@, passed, k));
                }
            }
        }
        i = i + 1;
    }
    proof {
        assert(is_apply_trace(old(systems)@, trace, *old(world), *world));
    }
}

/// Runs each of the systems with exclusive access to the world, one after
/// the other: the world is maintained, the system runs if its conditions
/// hold, and what it has deferred is applied, before the next system has
/// its turn. Afterwards no system holds anything back.
pub fn run_each<V: 'static, S: System<V, (), ()>, C: ReadonlySystem<V, (), bool>>(
    systems: &mut Vec<SystemConfig<V, S, C>>,
    world: &mut World<V>,
)
    requires
        forall|i: int| 0 <= i < old(systems)@.len() ==> (#[trigger] old(systems)@[i]).ready(),
        old(world).wf(),
    ensures
        same_systems_flushed(old(systems)@, final(systems)@),
        served_each(old(systems)@, final(systems)@, *old(world), *final(world)),
        final(world).wf(),
{
    let mut i: usize = 0;
    let ghost mut trace: Seq<World<V>> = seq![*world];
    while i < systems.len()
        invariant
            0 <= i <= systems@.len(),
            systems@.len() == old(systems)@.len(),
            forall|k: int|
                0 <= k < i ==> (#[trigger] systems@[k]).ready() && systems@[k].flushed() && systems@[k].same_shape(
                    &old(systems)@[k],
                ),
            forall|k: int| i <= k < systems@.len() ==> #[trigger] systems@[k] == old(systems)@[k],
            forall|k: int| 0 <= k < old(systems)@.len() ==> (#[trigger] old(systems)@[k]).ready(),
            world.wf(),
            trace.len() == i + 1,
            trace[0] == *old(world),
            trace[i as int] == *world,
            forall|k: int| 0 <= k < i ==> #[trigger] is_served_step(old(systems)@, systems@, trace, k),
        decreases systems@.len() - i,
    {
        let ghost before = systems@;
        let ghost passed = trace;
        let ghost start = *world;
        assert(before[i as int] == old(systems)@[i as int]);
        world.maintain();
        let ghost maintained_world = *world;
        let ran = systems[i].run(world);
        let ghost turned = systems@;
        let ghost ran_world = *world;
        systems[i].apply_deferred(world);
        proof {
            trace = passed.push(*world);
            assert(questioned(
                old(systems)@[i as int].conditions(),
                turned[i as int].conditions(),
                maintained_world,
                ran,
            ));
            assert(turned[i as int].system().applied(ran_world, *world));
            assert(served(old(systems)@[i as int], systems@[i as int], start, *world));
            assert forall|k: int| 0 <= k < i + 1 implies #[trigger] is_served_step(
                old(systems)@,
                systems@,
                trace,
                k,
            ) by {
                if k < i {
                    assert(systems@[k] == turned[k]);
                    assert(turned[k] == before[k]);
                    assert(is_served_step(old(systems)@, before, passed, k));
                }
            }
        }
        i = i + 1;
    }
    proof {
        assert(is_served_trace(old(systems)@, systems@, trace, *old(world), *world));
    }
}

/// A system that can run in parallel and is added behind a step that does
/// not run in parallel leaves that step and all steps before it as they
/// are: it joins a later parallel step or opens a new last one. Behind a
/// barrier that ends the steps it opens a new last step, in which it stands
/// alone, whatever it could have shared a step with before the barrier.
pub proof fn lemma_placed_behind_closed_step<V: 'static, S: System<V, (), ()>, C: ReadonlySystem<V, (), bool>>(
    before: Seq<ScheduleStep<V, S, C>>,
    after: Seq<ScheduleStep<V, S, C>>,
    system: SystemConfig<V, S, C>,
    max_threads: int,
    closed: int,
)
    requires
        !system.exclusive(),
        !system.thread_local(),
        placed(before, after, system, max_threads),
        0 <= closed < before.len(),
        before[closed].kind() != StepKind::Systems,
    ensures
        forall|i: int| 0 <= i <= closed ==> #[trigger] after[i] == before[i],
        closed == before.len() - 1 ==> after.len() == before.len() + 1 && after[before.len() as int].kind()
            == StepKind::Systems && after[before.len() as int].members() == seq![system],
{
    let shapes = shapes_of(before);
    assert(shapes[closed] == before[closed].shape());
    lemma_join_start(shapes, system.kinds(), max_threads);
    lemma_joins_behind_closed_step(shapes, system.kinds(), max_threads, closed);
}

/// The shapes of steps into which a system was put at `at` are the shapes
/// from before with the system's kinds put into the shape at `at`.
pub proof fn lemma_joined_shapes<V: 'static, S: System<V, (), ()>, C: ReadonlySystem<V, (), bool>>(
    before: Seq<ScheduleStep<V, S, C>>,
    after: Seq<ScheduleStep<V, S, C>>,
    at: int,
    kind: StepKind,
    config: SystemConfig<V, S, C>,
)
    requires
        joined(before, after, at, kind, config),
        at < before.len() ==> before[at].kind() == kind,
    ensures
        shapes_of(after) == if at < before.len() {
            shapes_of(before).update(
                at,
                StepShape { kind, members: shapes_of(before)[at].members.push(config.kinds()) },
            )
        } else {
            shapes_of(before).push(StepShape { kind, members: seq![config.kinds()] })
        },
{
    if at < before.len() {
        let expected = shapes_of(before).update(
            at,
            StepShape { kind, members: shapes_of(before)[at].members.push(config.kinds()) },
        );
        assert(member_kinds(after[at].members()) =~= member_kinds(before[at].members()).push(config.kinds()));
        assert forall|i: int| 0 <= i < after.len() implies shapes_of(after)[i] == expected[i] by {
            if i != at {
                assert(after[i] == before[i]);
            }
        }
        assert(shapes_of(after) =~= expected);
    } else {
        let expected = shapes_of(before).push(StepShape { kind, members: seq![config.kinds()] });
        assert(member_kinds(after[at].members()) =~= seq![config.kinds()]);
        assert forall|i: int| 0 <= i < after.len() implies shapes_of(after)[i] == expected[i] by {
            if i != at {
                assert(after[i] == before[i]);
            }
        }
        assert(shapes_of(after) =~= expected);
    }
}

impl<V: 'static, S: System<V, (), ()>, C: ReadonlySystem<V, (), bool>> Default for ScheduleSet<V, S, C> {
    fn default() -> (set: ScheduleSet<V, S, C>)
        ensures
            set.steps() == Seq::<ScheduleStep<V, S, C>>::empty(),
            set.wf(),
            set.ready(),
    {
        ScheduleSet::new()
    }
}

impl<V: 'static, S: System<V, (), ()>, C: ReadonlySystem<V, (), bool>> ScheduleSet<V, S, C> {
    /// The steps of the set, in the order in which they run.
    pub closed spec fn steps(&self) -> Seq<ScheduleStep<V, S, C>> {
        self.steps@
    }

    /// The steps, each reduced to its kind and the parameter kinds of its
    /// systems.
    pub open spec fn shapes(&self) -> Seq<StepShape> {
        shapes_of(self.steps())
    }

    /// The invariant of the set: that of each of its steps. In particular,
    /// no two systems of a parallel step conflict.
    pub open spec fn wf(&self) -> bool {
        forall|i: int| 0 <= i < self.steps().len() ==> (#[trigger] self.steps()[i]).wf()
    }

    /// Whether every system of the set is ready to run.
    pub open spec fn ready(&self) -> bool {
        forall|i: int| 0 <= i < self.steps().len() ==> (#[trigger] self.steps()[i]).ready()
    }

    /// Whether no system of the set holds back a change to the world.
    pub open spec fn flushed(&self) -> bool {
        forall|i: int| 0 <= i < self.steps().len() ==> (#[trigger] self.steps()[i]).flushed()
    }

    /// In every parallel step of a set that meets its invariant, no system
    /// has a parameter that conflicts with a parameter of another system
    /// of the step.
    pub proof fn lemma_parallel_steps_are_safe(&self, step: int, first: int, second: int)
        requires
            self.wf(),
            0 <= step < self.steps().len(),
            self.steps()[step].kind() == StepKind::Systems,
            0 <= first < self.steps()[step].members().len(),
            0 <= second < self.steps()[step].members().len(),
            first != second,
        ensures
            !kinds_conflict(
                self.steps()[step].members()[first].kinds(),
                self.steps()[step].members()[second].kinds(),
            ),
            all_conflict_free(self.shapes()),
    {
        let shape = self.steps()[step].shape();
        assert(self.steps()[step].wf());
        assert(shape.members[first] == self.steps()[step].members()[first].kinds());
        assert(shape.members[second] == self.steps()[step].members()[second].kinds());
        assert forall|i: int| 0 <= i < self.shapes().len() implies conflict_free(#[trigger] self.shapes()[i]) by {
            assert(self.steps()[i].wf());
        }
    }

    /// Creates a set without steps.
    pub fn new() -> (set: ScheduleSet<V, S, C>)
        ensures
            set.steps() == Seq::<ScheduleStep<V, S, C>>::empty(),
            set.wf(),
            set.ready(),
    {
        ScheduleSet { steps: Vec::new() }
    }

    /// Returns the steps of the set.
    pub fn as_steps(&self) -> (steps: &Vec<ScheduleStep<V, S, C>>)
        ensures
            steps@ == self.steps(),
    {
        &self.steps
    }

    /// Initializes all systems in the set that are not ready, step by step.
    /// A system that is ready is not touched; a set whose systems are all
    /// ready is left as it is, and the world with it.
    pub fn initialize(&mut self, world: &mut World<V>)
        requires
            old(self).wf(),
            old(world).wf(),
        ensures
            final(self).wf(),
            final(self).ready(),
            final(self).shapes() == old(self).shapes(),
            final(self).steps().len() == old(self).steps().len(),
            set_initialized(old(self).steps(), final(self).steps(), *old(world), *final(world)),
            forall|i: int, m: int|
                0 <= i < old(self).steps().len() && 0 <= m < old(self).steps()[i].members().len() && (
                #[trigger] old(self).steps()[i].members()[m]).ready() ==> final(self).steps()[i].members()[m]
                    == old(self).steps()[i].members()[m],
            old(self).ready() ==> final(self).steps() == old(self).steps() && *final(world) == *old(world),
            final(world).wf(),
    {
        let mut i: usize = 0;
        let ghost mut trace: Seq<World<V>> = seq![*world];
        while i < self.steps.len()
            invariant
                0 <= i <= self.steps().len(),
                self.steps().len() == old(self).steps().len(),
                forall|k: int|
                    0 <= k < i ==> (#[trigger] self.steps()[k]).wf() && self.steps()[k].ready()
                        && self.steps()[k].shape() == old(self).steps()[k].shape(),
                forall|k: int, m: int|
                    0 <= k < i && 0 <= m < old(self).steps()[k].members().len() && (#[trigger] old(self).steps()[k].members()[m]).ready() ==> self.steps()[k].members()[m] == old(self).steps()[k].members()[m],
                forall|k: int| i <= k < self.steps().len() ==> #[trigger] self.steps()[k] == old(self).steps()[k],
                old(self).ready() ==> self.steps() == old(self).steps() && *world == *old(world),
                old(self).wf(),
                world.wf(),
                trace.len() == i + 1,
                trace[0] == *old(world),
                trace[i as int] == *world,
                forall|k: int| 0 <= k < i ==> #[trigger] is_step_init(old(self).steps(), self.steps(), trace, k),
            decreases self.steps().len() - i,
        {
            let ghost before = self.steps@;
            let ghost passed = trace;
            assert(before[i as int] == old(self).steps()[i as int]);
            assert(old(self).steps()[i as int].wf());
            assert(old(self).ready() ==> old(self).steps()[i as int].ready());
            self.steps[i].initialize(world);
            proof {
                trace = passed.push(*world);
                if old(self).ready() {
                    assert(self.steps() =~= old(self).steps());
                }
                assert forall|k: int| 0 <= k < i + 1 implies #[trigger] is_step_init(
                    old(self).steps(),
                    self.steps(),
                    trace,
                    k,
                ) by {
                    if k < i {
                        assert(self.steps()[k] == before[k]);
                        assert(is_step_init(old(self).steps(), before, passed, k));
                    }
                }
            }
            i = i + 1;
        }
        proof {
            assert(self.shapes() =~= old(self).shapes());
            assert(is_set_init_trace(old(self).steps(), self.steps(), trace, *old(world), *world));
        }
    }

    /// Runs the steps in order, each once and each before the next begins,
    /// then maintains the world. The steps stay as they are: running
    /// changes no system's place. Each step has applied what its systems
    /// deferred before the next step begins, so that in the end no system
    /// holds back a change to the world.
    pub fn run_generic(&mut self, world: &mut World<V>, parallel: bool) where V: Send + Sync
        requires
            old(self).wf(),
            old(self).ready(),
            old(world).wf(),
        ensures
            final(self).wf(),
            final(self).ready(),
            final(self).flushed(),
            final(self).shapes() == old(self).shapes(),
            set_ran(old(self).steps(), final(self).steps(), *old(world), *final(world)),
            final(world).wf(),
    {
        let mut i: usize = 0;
        let ghost mut trace: Seq<World<V>> = seq![*world];
        while i < self.steps.len()
            invariant
                0 <= i <= self.steps().len(),
                self.steps().len() == old(self).steps().len(),
                forall|k: int|
                    0 <= k < i ==> (#[trigger] self.steps()[k]).wf() && self.steps()[k].ready()
                        && self.steps()[k].flushed() && self.steps()[k].shape() == old(self).steps()[k].shape(),
                forall|k: int| i <= k < self.steps().len() ==> #[trigger] self.steps()[k] == old(self).steps()[k],
                old(self).wf(),
                old(self).ready(),
                world.wf(),
                trace.len() == i + 1,
                trace[0] == *old(world),
                trace[i as int] == *world,
                forall|k: int| 0 <= k < i ==> #[trigger] is_run_step(old(self).steps(), self.steps(), trace, k),
            decreases self.steps().len() - i,
        {
            let ghost before = self.steps@;
            let ghost passed = trace;
            assert(before[i as int] == old(self).steps()[i as int]);
            assert(old(self).steps()[i as int].wf() && old(self).steps()[i as int].ready());
            self.steps[i].run(world, parallel);
            proof {
                trace = passed.push(*world);
                assert forall|k: int| 0 <= k < i + 1 implies #[trigger] is_run_step(
                    old(self).steps(),
                    self.steps(),
                    trace,
                    k,
                ) by {
                    if k < i {
                        assert(self.steps()[k] == before[k]);
                        assert(is_run_step(old(self).steps(), before, passed, k));
                    }
                }
            }
            i = i + 1;
        }
        world.maintain();
        proof {
            assert(self.shapes() =~= old(self).shapes());
            assert(is_run_trace(old(self).steps(), self.steps(), trace, *old(world)));
        }
    }

    /// Adds a system to the set: to an exclusive step where it is exclusive,
    /// to a local step where it must run on the main thread, and to a
    /// parallel step otherwise. Whatever the system, the invariant of the
    /// set is kept: no two systems of a parallel step conflict.
    pub fn add_config(&mut self, system: SystemConfig<V, S, C>, max_threads: usize)
        requires
            old(self).wf(),
            system.wf(),
        ensures
            final(self).wf(),
            placed(old(self).steps(), final(self).steps(), system, max_threads as int),
            final(self).shapes() == plan_entry(
                old(self).shapes(),
                Entry::System {
                    kinds: system.kinds(),
                    exclusive: system.exclusive(),
                    thread_local: system.thread_local(),
                },
                max_threads as int,
            ),
            final(self).ready() == (old(self).ready() && system.ready()),
    {
        if system.is_exclusive() {
            self.add_exclusive_system(system);
        } else if system.is_thread_local() {
            self.add_local_system(system);
        } else {
            self.add_system(system, max_threads);
        }
    }

    /// Adds a system that can run in parallel: one that is neither
    /// exclusive nor bound to the main thread. It joins the earliest step
    /// that it can reach by walking backward from the last step over
    /// parallel steps that have room and hold no system with which it
    /// conflicts; where the last step is no such step, it opens a new
    /// parallel step.
    pub fn add_system(&mut self, system: SystemConfig<V, S, C>, max_threads: usize)
        requires
            old(self).wf(),
            system.wf(),
            !system.exclusive(),
            !system.thread_local(),
        ensures
            final(self).wf(),
            joined(
                old(self).steps(),
                final(self).steps(),
                join_start(old(self).shapes(), system.kinds(), max_threads as int),
                StepKind::Systems,
                system,
            ),
            final(self).shapes() == plan_parallel(old(self).shapes(), system.kinds(), max_threads as int),
            final(self).ready() == (old(self).ready() && system.ready()),
    {
        let ghost shapes = self.shapes();
        let ghost kinds = system.kinds();
        let count = self.steps.len();
        let mut at: usize = count;
        while at > 0 && self.steps[at - 1].accepts(system.param_kinds(), max_threads)
            invariant
                *self == *old(self),
                shapes == self.shapes(),
                kinds == system.kinds(),
                count == self.steps().len(),
                0 <= at <= count,
                forall|i: int| at <= i < count ==> accepts(#[trigger] shapes[i], kinds, max_threads as int),
            decreases at,
        {
            assert(shapes[at - 1] == self.steps()[at - 1].shape());
            at = at - 1;
        }
        proof {
            if at > 0 {
                assert(shapes[at - 1] == self.steps()[at - 1].shape());
            }
            lemma_join_start_unique(shapes, kinds, max_threads as int, at as int);
            assert forall|i: int| 0 <= i < shapes.len() implies conflict_free(#[trigger] shapes[i]) by {
                assert(self.steps()[i].wf());
            }
            lemma_plan_parallel_safe(shapes, kinds, max_threads as int);
        }
        if at < count {
            proof {
                assert(accepts(shapes[at as int], kinds, max_threads as int));
                assert(shapes[at as int] == self.steps()[at as int].shape());
            }
            match &mut self.steps[at] {
                ScheduleStep::Systems(systems) => {
                    systems.push(system);
                },
                _ => {},
            }
        } else {
            let mut systems = Vec::new();
            systems.push(system);
            self.steps.push(ScheduleStep::Systems(systems));
        }
        proof {
            lemma_joined_shapes(old(self).steps(), self.steps(), at as int, StepKind::Systems, system);
            assert(conflict_free(self.shapes()[at as int]));
            assert(self.steps()[at as int].shape() == self.shapes()[at as int]);
            self.lemma_added(old(self), at as int, StepKind::Systems, system);
        }
    }

    /// What follows for a set into which a system was put: it keeps the
    /// parts of its invariant that do not depend on conflicts, and is
    /// ready where it was ready and the system is.
    proof fn lemma_added(&self, before: &Self, at: int, kind: StepKind, system: SystemConfig<V, S, C>)
        requires
            joined(before.steps(), self.steps(), at, kind, system),
            at < before.steps().len() ==> before.steps()[at].kind() == kind,
            before.wf(),
            system.wf(),
            kind == StepKind::Systems ==> !system.exclusive() && !system.thread_local() && conflict_free(
                self.steps()[at].shape(),
            ),
        ensures
            self.wf(),
            self.ready() == (before.ready() && system.ready()),
    {
        let old_steps = before.steps();
        let new_steps = self.steps();
        assert forall|i: int| 0 <= i < new_steps.len() implies (#[trigger] new_steps[i]).wf() by {
            if i != at {
                assert(new_steps[i] == old_steps[i]);
                assert(old_steps[i].wf());
            } else {
                let members = new_steps[at].members();
                assert forall|m: int| 0 <= m < members.len() implies (#[trigger] members[m]).wf() by {
                    if at < old_steps.len() && m < old_steps[at].members().len() {
                        assert(old_steps[at].wf());
                        assert(members[m] == old_steps[at].members()[m]);
                    }
                }
                if kind == StepKind::Systems {
                    assert forall|m: int| 0 <= m < members.len() implies !(#[trigger] members[m]).exclusive()
                        && !members[m].thread_local() by {
                        if at < old_steps.len() && m < old_steps[at].members().len() {
                            assert(old_steps[at].wf());
                            assert(members[m] == old_steps[at].members()[m]);
                        }
                    }
                }
            }
        }
        if before.ready() && system.ready() {
            assert forall|i: int| 0 <= i < new_steps.len() implies (#[trigger] new_steps[i]).ready() by {
                if i != at {
                    assert(new_steps[i] == old_steps[i]);
                    assert(old_steps[i].ready());
                } else {
                    let members = new_steps[at].members();
                    assert forall|m: int| 0 <= m < members.len() implies (#[trigger] members[m]).ready() by {
                        if at < old_steps.len() && m < old_steps[at].members().len() {
                            assert(old_steps[at].ready());
                            assert(members[m] == old_steps[at].members()[m]);
                        }
                    }
                }
            }
        }
        if self.ready() {
            let members = new_steps[at].members();
            assert(new_steps[at].ready());
            assert(members[members.len() - 1] == system);
            assert forall|i: int| 0 <= i < old_steps.len() implies (#[trigger] old_steps[i]).ready() by {
                if i != at {
                    assert(new_steps[i] == old_steps[i]);
                    assert(new_steps[i].ready());
                } else {
                    assert forall|m: int| 0 <= m < old_steps[at].members().len() implies (
                    #[trigger] old_steps[at].members()[m]).ready() by {
                        assert(members[m] == old_steps[at].members()[m]);
                    }
                }
            }
        }
    }

    fn close(&mut self)
        requires
            old(self).wf(),
        ensures
            final(self).wf(),
            final(self).steps() == closed_steps(old(self).steps()),
            final(self).shapes() == close_parallel(old(self).shapes()),
            final(self).ready() == old(self).ready(),
    {
        let count = self.steps.len();
        let ghost before = self.steps();
        let mut open = false;
        if count > 0 {
            assert(self.shapes()[count - 1] == self.steps()[count - 1].shape());
            match &self.steps[count - 1] {
                ScheduleStep::Systems(_) => {
                    open = true;
                },
                _ => {},
            }
        }
        if open {
            self.steps.push(ScheduleStep::Barrier);
            proof {
                assert(member_kinds(ScheduleStep::<V, S, C>::Barrier.members()) =~= Seq::empty());
                assert(self.shapes() =~= close_parallel(shapes_of(before)));
                assert forall|i: int| 0 <= i < self.steps().len() implies (#[trigger] self.steps()[i]).wf() by {
                    if i < before.len() {
                        assert(before[i].wf());
                    }
                }
                if old(self).ready() {
                    assert forall|i: int| 0 <= i < self.steps().len() implies (#[trigger] self.steps()[i]).ready() by {
                        if i < before.len() {
                            assert(before[i].ready());
                        }
                    }
                }
                if self.ready() {
                    assert forall|i: int| 0 <= i < before.len() implies (#[trigger] before[i]).ready() by {
                        assert(self.steps()[i].ready());
                    }
                }
            }
        }
    }

    /// Adds a system that must run on the main thread. A parallel step at
    /// the end is closed by a barrier first; then the system joins the last
    /// step where that is a local step, and opens a new local step where it
    /// is not.
    pub fn add_local_system(&mut self, system: SystemConfig<V, S, C>)
        requires
            old(self).wf(),
            system.wf(),
        ensures
            final(self).wf(),
            joined(
                closed_steps(old(self).steps()),
                final(self).steps(),
                serial_place(closed_steps(old(self).steps()), StepKind::LocalSystems),
                StepKind::LocalSystems,
                system,
            ),
            final(self).shapes() == plan_serial(old(self).shapes(), StepKind::LocalSystems, system.kinds()),
            final(self).ready() == (old(self).ready() && system.ready()),
    {
        self.close();
        let ghost closed = *self;
        let count = self.steps.len();
        let mut joins = false;
        if count > 0 {
            assert(self.shapes()[count - 1] == self.steps()[count - 1].shape());
            match &self.steps[count - 1] {
                ScheduleStep::LocalSystems(_) => {
                    joins = true;
                },
                _ => {},
            }
        }
        if joins {
            match &mut self.steps[count - 1] {
                ScheduleStep::LocalSystems(systems) => {
                    systems.push(system);
                },
                _ => {},
            }
        } else {
            let mut systems = Vec::new();
            systems.push(system);
            self.steps.push(ScheduleStep::LocalSystems(systems));
        }
        proof {
            let at = serial_place(closed.steps(), StepKind::LocalSystems);
            self.lemma_added(&closed, at, StepKind::LocalSystems, system);
            lemma_joined_shapes(closed.steps(), self.steps(), at, StepKind::LocalSystems, system);
        }
    }

    /// Adds a system that needs the whole world. A parallel step at the end
    /// is closed by a barrier first; then the system joins the last step
    /// where that is an exclusive step, and opens a new exclusive step where
    /// it is not.
    pub fn add_exclusive_system(&mut self, system: SystemConfig<V, S, C>)
        requires
            old(self).wf(),
            system.wf(),
        ensures
            final(self).wf(),
            joined(
                closed_steps(old(self).steps()),
                final(self).steps(),
                serial_place(closed_steps(old(self).steps()), StepKind::ExclusiveSystems),
                StepKind::ExclusiveSystems,
                system,
            ),
            final(self).shapes() == plan_serial(old(self).shapes(), StepKind::ExclusiveSystems, system.kinds()),
            final(self).ready() == (old(self).ready() && system.ready()),
    {
        self.close();
        let ghost closed = *self;
        let count = self.steps.len();
        let mut joins = false;
        if count > 0 {
            assert(self.shapes()[count - 1] == self.steps()[count - 1].shape());
            match &self.steps[count - 1] {
                ScheduleStep::ExclusiveSystems(_) => {
                    joins = true;
                },
                _ => {},
            }
        }
        if joins {
            match &mut self.steps[count - 1] {
                ScheduleStep::ExclusiveSystems(systems) => {
                    systems.push(system);
                },
                _ => {},
            }
        } else {
            let mut systems = Vec::new();
            systems.push(system);
            self.steps.push(ScheduleStep::ExclusiveSystems(systems));
        }
        proof {
            let at = serial_place(closed.steps(), StepKind::ExclusiveSystems);
            self.lemma_added(&closed, at, StepKind::ExclusiveSystems, system);
            lemma_joined_shapes(closed.steps(), self.steps(), at, StepKind::ExclusiveSystems, system);
        }
    }

    /// Adds a barrier, preventing future systems from running parallel
    /// with the previously added systems.
    pub fn add_barrier(&mut self)
        requires
            old(self).wf(),
        ensures
            final(self).wf(),
            final(self).steps() == old(self).steps().push(ScheduleStep::Barrier),
            final(self).shapes() == plan_barrier(old(self).shapes()),
            final(self).ready() == old(self).ready(),
    {
        let ghost before = self.steps();
        self.steps.push(ScheduleStep::Barrier);
        proof {
            assert(member_kinds(ScheduleStep::<V, S, C>::Barrier.members()) =~= Seq::empty());
            assert(self.shapes() =~= plan_barrier(shapes_of(before)));
            assert forall|i: int| 0 <= i < self.steps().len() implies (#[trigger] self.steps()[i]).wf() by {
                if i < before.len() {
                    assert(before[i].wf());
                }
            }
            if old(self).ready() {
                assert forall|i: int| 0 <= i < self.steps().len() implies (#[trigger] self.steps()[i]).ready() by {
                    if i < before.len() {
                        assert(before[i].ready());
                    }
                }
            }
            if self.ready() {
                assert forall|i: int| 0 <= i < before.len() implies (#[trigger] before[i]).ready() by {
                    assert(self.steps()[i].ready());
                }
            }
        }
    }
}

} // verus!
