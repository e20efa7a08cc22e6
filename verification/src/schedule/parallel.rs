//! Runs the systems of one parallel step on the worker threads.

use vstd::prelude::*;
use rayon::iter::{IntoParallelRefMutIterator, ParallelIterator};
use crate::schedule::config::{questioned, SystemConfig};
use crate::schedule::plan::{conflict_free, StepKind, StepShape};
use crate::system::commands::maintained;
use crate::system::kind::SystemParamKind;
use crate::system::{ReadonlySystem, System};
use crate::world::World;

verus! {

/// The parameter kinds of the given systems, in order.
pub open spec fn member_kinds<V: 'static, S: System<V, (), ()>, C: ReadonlySystem<V, (), bool>>(
    systems: Seq<SystemConfig<V, S, C>>,
) -> Seq<Seq<SystemParamKind>> {
    systems.map_values(|config: SystemConfig<V, S, C>| config.kinds())
}

/// Whether the systems may run side by side: each is ready, not exclusive
/// and not bound to the main thread, and no two of them conflict.
pub open spec fn can_run_together<V: 'static, S: System<V, (), ()>, C: ReadonlySystem<V, (), bool>>(
    systems: Seq<SystemConfig<V, S, C>>,
) -> bool {
    &&& forall|i: int|
        0 <= i < systems.len() ==> (#[trigger] systems[i]).ready() && !systems[i].exclusive()
            && !systems[i].thread_local()
    &&& conflict_free(StepShape { kind: StepKind::Systems, members: member_kinds(systems) })
}

/// Whether `after` holds the systems of `before`, each ready and with the
/// same declarations as before.
pub open spec fn same_systems<V: 'static, S: System<V, (), ()>, C: ReadonlySystem<V, (), bool>>(
    before: Seq<SystemConfig<V, S, C>>,
    after: Seq<SystemConfig<V, S, C>>,
) -> bool {
    &&& after.len() == before.len()
    &&& forall|i: int|
        0 <= i < after.len() ==> (#[trigger] after[i]).ready() && after[i].same_shape(&before[i])
}

/// Whether `after` is the system `before` after its turn in a parallel
/// step with a shared view of `world`: its conditions were asked, and it ran
/// once if they all held, and not at all if one did not.
pub open spec fn took_turn<V: 'static, S: System<V, (), ()>, C: ReadonlySystem<V, (), bool>>(
    before: SystemConfig<V, S, C>,
    after: SystemConfig<V, S, C>,
    world: World<V>,
) -> bool {
    exists|ran: bool|
        #[trigger] questioned(before.conditions(), after.conditions(), world, ran) && (ran
            ==> before.system().ran_shared((), world, ())) && after.runs() == before.runs() + if ran {
            1nat
        } else {
            0nat
        }
}

/// Whether each of the systems took its turn with a shared view of
/// `world`.
pub open spec fn ran_together<V: 'static, S: System<V, (), ()>, C: ReadonlySystem<V, (), bool>>(
    before: Seq<SystemConfig<V, S, C>>,
    after: Seq<SystemConfig<V, S, C>>,
    world: World<V>,
) -> bool {
    &&& after.len() == before.len()
    &&& forall|i: int| 0 <= i < before.len() ==> #[trigger] took_turn(before[i], after[i], world)
}

/// Whether `after` holds the systems of `before`, each ready, with the same
/// declarations as before, and with nothing held back.
pub open spec fn same_systems_flushed<V: 'static, S: System<V, (), ()>, C: ReadonlySystem<V, (), bool>>(
    before: Seq<SystemConfig<V, S, C>>,
    after: Seq<SystemConfig<V, S, C>>,
) -> bool {
    &&& same_systems(before, after)
    &&& forall|i: int| 0 <= i < after.len() ==> (#[trigger] after[i]).flushed()
}

/// Whether initializing system `i` leads from world `i` of `worlds`, which
/// is well formed, to the next one.
pub open spec fn is_init_step<V: 'static, S: System<V, (), ()>, C: ReadonlySystem<V, (), bool>>(
    before: Seq<SystemConfig<V, S, C>>,
    after: Seq<SystemConfig<V, S, C>>,
    worlds: Seq<World<V>>,
    i: int,
) -> bool {
    worlds[i].wf() && before[i].initialized_from(&after[i], worlds[i], worlds[i + 1])
}

/// Whether `worlds` are the worlds that are passed when the systems are
/// initialized, the first system first.
pub open spec fn is_init_trace<V: 'static, S: System<V, (), ()>, C: ReadonlySystem<V, (), bool>>(
    before: Seq<SystemConfig<V, S, C>>,
    after: Seq<SystemConfig<V, S, C>>,
    worlds: Seq<World<V>>,
    world_before: World<V>,
    world_after: World<V>,
) -> bool {
    &&& after.len() == before.len()
    &&& worlds.len() == before.len() + 1
    &&& worlds[0] == world_before
    &&& worlds[before.len() as int] == world_after
    &&& forall|i: int| 0 <= i < before.len() ==> #[trigger] is_init_step(before, after, worlds, i)
}

/// Whether `after` and the world `world_after` come of the systems
/// `before` and the world `world_before` when each system is initialized as
/// far as it is not, in order.
pub open spec fn initialized_each<V: 'static, S: System<V, (), ()>, C: ReadonlySystem<V, (), bool>>(
    before: Seq<SystemConfig<V, S, C>>,
    after: Seq<SystemConfig<V, S, C>>,
    world_before: World<V>,
    world_after: World<V>,
) -> bool {
    exists|worlds: Seq<World<V>>| is_init_trace(before, after, worlds, world_before, world_after)
}

/// Whether `after` holds the systems of `before` with as many runs and the
/// same conditions as before.
pub open spec fn kept<V: 'static, S: System<V, (), ()>, C: ReadonlySystem<V, (), bool>>(
    before: Seq<SystemConfig<V, S, C>>,
    after: Seq<SystemConfig<V, S, C>>,
) -> bool {
    &&& after.len() == before.len()
    &&& forall|i: int|
        0 <= i < before.len() ==> (#[trigger] after[i]).runs() == before[i].runs() && after[i].conditions()
            == before[i].conditions()
}

/// Whether applying what system `i` has deferred leads from world `i` of
/// `worlds`, which is well formed, to the next one.
pub open spec fn is_apply_step<V: 'static, S: System<V, (), ()>, C: ReadonlySystem<V, (), bool>>(
    systems: Seq<SystemConfig<V, S, C>>,
    worlds: Seq<World<V>>,
    i: int,
) -> bool {
    worlds[i].wf() && systems[i].system().applied(worlds[i], worlds[i + 1])
}

/// Whether `worlds` are the worlds that are passed when what each of the
/// systems has deferred is applied, the first system first.
pub open spec fn is_apply_trace<V: 'static, S: System<V, (), ()>, C: ReadonlySystem<V, (), bool>>(
    systems: Seq<SystemConfig<V, S, C>>,
    worlds: Seq<World<V>>,
    before: World<V>,
    after: World<V>,
) -> bool {
    &&& worlds.len() == systems.len() + 1
    &&& worlds[0] == before
    &&& worlds[systems.len() as int] == after
    &&& forall|i: int| 0 <= i < systems.len() ==> #[trigger] is_apply_step(systems, worlds, i)
}

/// Whether `after` is the world that comes of `before` when what each of
/// the systems has deferred is applied, in order.
pub open spec fn applied_each<V: 'static, S: System<V, (), ()>, C: ReadonlySystem<V, (), bool>>(
    systems: Seq<SystemConfig<V, S, C>>,
    before: World<V>,
    after: World<V>,
) -> bool {
    exists|worlds: Seq<World<V>>| is_apply_trace(systems, worlds, before, after)
}

/// Whether `after` and the world `world_after` come of the system `before`
/// and the world `world_before` by one turn with exclusive access: the
/// world is maintained, the conditions are asked, the system runs once if
/// they all hold and not at all if one does not, and then what the system
/// has deferred is applied.
pub open spec fn served<V: 'static, S: System<V, (), ()>, C: ReadonlySystem<V, (), bool>>(
    before: SystemConfig<V, S, C>,
    after: SystemConfig<V, S, C>,
    world_before: World<V>,
    world_after: World<V>,
) -> bool {
    exists|ran: bool, turned: SystemConfig<V, S, C>, maintained_world: World<V>, ran_world: World<V>|
        {
            &&& maintained(world_before, maintained_world)
            &&& maintained_world.wf()
            &&& #[trigger] questioned(before.conditions(), turned.conditions(), maintained_world, ran)
            &&& ran ==> before.system().ran_exclusive((), maintained_world, (), ran_world)
            &&& !ran ==> ran_world == maintained_world && turned.system() == before.system()
            &&& turned.runs() == before.runs() + if ran {
                1nat
            } else {
                0nat
            }
            &&& ran_world.wf()
            &&& #[trigger] turned.system().applied(ran_world, world_after)
            &&& after.runs() == turned.runs()
            &&& after.conditions() == turned.conditions()
        }
}

/// Whether the turn of system `i` leads from world `i` of `worlds`, which
/// is well formed, to the next one.
pub open spec fn is_served_step<V: 'static, S: System<V, (), ()>, C: ReadonlySystem<V, (), bool>>(
    before: Seq<SystemConfig<V, S, C>>,
    after: Seq<SystemConfig<V, S, C>>,
    worlds: Seq<World<V>>,
    i: int,
) -> bool {
    worlds[i].wf() && served(before[i], after[i], worlds[i], worlds[i + 1])
}

/// Whether `worlds` are the worlds that are passed when each of the systems
/// has its turn with exclusive access, the first system first.
pub open spec fn is_served_trace<V: 'static, S: System<V, (), ()>, C: ReadonlySystem<V, (), bool>>(
    before: Seq<SystemConfig<V, S, C>>,
    after: Seq<SystemConfig<V, S, C>>,
    worlds: Seq<World<V>>,
    world_before: World<V>,
    world_after: World<V>,
) -> bool {
    &&& after.len() == before.len()
    &&& worlds.len() == before.len() + 1
    &&& worlds[0] == world_before
    &&& worlds[before.len() as int] == world_after
    &&& forall|i: int| 0 <= i < before.len() ==> #[trigger] is_served_step(before, after, worlds, i)
}

/// Whether `after` and the world `world_after` come of the systems
/// `before` and the world `world_before` when each system has its turn
/// with exclusive access, in order, each before the next begins.
pub open spec fn served_each<V: 'static, S: System<V, (), ()>, C: ReadonlySystem<V, (), bool>>(
    before: Seq<SystemConfig<V, S, C>>,
    after: Seq<SystemConfig<V, S, C>>,
    world_before: World<V>,
    world_after: World<V>,
) -> bool {
    exists|worlds: Seq<World<V>>| is_served_trace(before, after, worlds, world_before, world_after)
}

/// `ParallelIterator::for_each` over `par_iter_mut` of rayon: calls
/// `SystemConfig::run_unsafe` once on each system of the step, on the
/// threads of the pool, and returns when all calls have returned. Each
/// system is then as one call of `run_unsafe` leaves it: ready, with the
/// declarations that it had, and having taken its turn.
#[verifier::external_body]
pub(crate) fn run_batch_parallel<
    V: Send + Sync + 'static,
    S: System<V, (), ()>,
    C: ReadonlySystem<V, (), bool>,
>(systems: &mut Vec<SystemConfig<V, S, C>>, world: &World<V>)
    requires
        can_run_together(old(systems)@),
        world.wf(),
    ensures
        same_systems(old(systems)@, final(systems)@),
        ran_together(old(systems)@, final(systems)@, *world),
{
    systems.par_iter_mut().for_each(|system| {
        system.run_unsafe(world.as_unsafe_world_cell());
    });
}

} // verus!
