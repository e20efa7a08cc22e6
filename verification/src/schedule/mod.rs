//! Schedules the execution of systems.

pub mod condition;
pub mod config;
pub mod label;
pub mod map;
pub mod order;
pub mod parallel;
pub mod plan;
pub mod set;

pub use self::condition::Condition;
pub use self::config::{IntoConfig, IsSystemConfig, SystemConfig};
pub use self::label::{First, Label, Last, PostUpdate, PreUpdate, ScheduleLabel, Update};
pub use self::set::{placed, set_initialized, set_ran, step_ran, ScheduleSet, ScheduleStep};

use vstd::prelude::*;
use rustc_hash::FxHashMap;
use crate::schedule::label::{label_ids, FIRST_ID, LAST_ID, POST_UPDATE_ID, PRE_UPDATE_ID, UPDATE_ID};
use crate::schedule::map::{fx_contains_key, fx_get_mut, fx_insert, fx_new};
use crate::schedule::order::{
    lemma_moved_after, lemma_moved_before, lemma_with_id, moved_after, moved_before, with_id,
};
use crate::schedule::plan::{plan_barrier, plan_entry, Entry, StepShape};
use crate::system::{ReadonlySystem, System};
use crate::util::{first_index_of, lemma_first_index_of, lemma_first_index_unique};
use crate::world::World;

verus! {

/// Schedules systems to run sequentially or in parallel without data
/// conflicts.
#[verifier::reject_recursive_types(V)]
pub struct Schedule<V: 'static, S, C> {
    sets: FxHashMap<u64, ScheduleSet<V, S, C>>,
    order: Vec<Label>,
    max_threads: usize,
}

/// The identifiers of the five labels that every schedule starts with, in
/// their order.
pub open spec fn default_order() -> Seq<u64> {
    seq![FIRST_ID, PRE_UPDATE_ID, UPDATE_ID, POST_UPDATE_ID, LAST_ID]
}

/// Moving a label moves its identifier.
proof fn lemma_move_ids(labels: Seq<Label>, from: int, to: int)
    requires
        0 <= from < labels.len(),
        0 <= to < labels.len(),
    ensures
        label_ids(labels.remove(from).insert(to, labels[from])) == label_ids(labels).remove(from).insert(
            to,
            labels[from].id,
        ),
{
    assert(label_ids(labels.remove(from).insert(to, labels[from])) =~= label_ids(labels).remove(from).insert(
        to,
        labels[from].id,
    ));
}

/// Whether initializing the set of the label at place `k` of `order` leads
/// from world `k` of `worlds`, which is well formed, to the next one; where
/// the label has no set, the world stays as it is.
pub open spec fn is_set_init_turn<V: 'static, S: System<V, (), ()>, C: ReadonlySystem<V, (), bool>>(
    order: Seq<u64>,
    before: Map<u64, ScheduleSet<V, S, C>>,
    after: Map<u64, ScheduleSet<V, S, C>>,
    worlds: Seq<World<V>>,
    k: int,
) -> bool {
    &&& worlds[k].wf()
    &&& if before.contains_key(order[k]) {
        after.contains_key(order[k]) && set_initialized(
            before[order[k]].steps(),
            after[order[k]].steps(),
            worlds[k],
            worlds[k + 1],
        )
    } else {
        worlds[k + 1] == worlds[k]
    }
}

/// Whether `worlds` are the worlds that are passed when the sets are
/// initialized in the order of their labels.
pub open spec fn is_schedule_init_trace<V: 'static, S: System<V, (), ()>, C: ReadonlySystem<V, (), bool>>(
    order: Seq<u64>,
    before: Map<u64, ScheduleSet<V, S, C>>,
    after: Map<u64, ScheduleSet<V, S, C>>,
    worlds: Seq<World<V>>,
    world_before: World<V>,
    world_after: World<V>,
) -> bool {
    &&& worlds.len() == order.len() + 1
    &&& worlds[0] == world_before
    &&& worlds[order.len() as int] == world_after
    &&& forall|k: int| 0 <= k < order.len() ==> #[trigger] is_set_init_turn(order, before, after, worlds, k)
}

/// Whether the sets `after` and the world `world_after` come of the sets
/// `before` and the world `world_before` when the sets are initialized in
/// the order of their labels, and nothing else is done to the world.
pub open spec fn schedule_initialized<V: 'static, S: System<V, (), ()>, C: ReadonlySystem<V, (), bool>>(
    order: Seq<u64>,
    before: Map<u64, ScheduleSet<V, S, C>>,
    after: Map<u64, ScheduleSet<V, S, C>>,
    world_before: World<V>,
    world_after: World<V>,
) -> bool {
    exists|worlds: Seq<World<V>>| is_schedule_init_trace(order, before, after, worlds, world_before, world_after)
}

/// Whether the turn of the label at place `k` of `order` leads from world
/// `k` of `worlds`, which is well formed, to the next one: the set of the
/// label runs once, and where the label has no set, the world stays as it
/// is.
pub open spec fn is_set_turn<V: 'static, S: System<V, (), ()>, C: ReadonlySystem<V, (), bool>>(
    order: Seq<u64>,
    before: Map<u64, ScheduleSet<V, S, C>>,
    after: Map<u64, ScheduleSet<V, S, C>>,
    worlds: Seq<World<V>>,
    k: int,
) -> bool {
    &&& worlds[k].wf()
    &&& if before.contains_key(order[k]) {
        after.contains_key(order[k]) && set_ran(
            before[order[k]].steps(),
            after[order[k]].steps(),
            worlds[k],
            worlds[k + 1],
        )
    } else {
        worlds[k + 1] == worlds[k]
    }
}

/// Whether `worlds` are the worlds that are passed when the sets run in the
/// order of their labels.
pub open spec fn is_schedule_trace<V: 'static, S: System<V, (), ()>, C: ReadonlySystem<V, (), bool>>(
    order: Seq<u64>,
    before: Map<u64, ScheduleSet<V, S, C>>,
    after: Map<u64, ScheduleSet<V, S, C>>,
    worlds: Seq<World<V>>,
    world_before: World<V>,
    world_after: World<V>,
) -> bool {
    &&& worlds.len() == order.len() + 1
    &&& worlds[0] == world_before
    &&& worlds[order.len() as int] == world_after
    &&& forall|k: int| 0 <= k < order.len() ==> #[trigger] is_set_turn(order, before, after, worlds, k)
}

/// Whether the sets `after` and the world `world_after` come of the sets
/// `before` and the world `world_before` by one run of the schedule: the
/// sets run in the order of their labels, each once and each before the
/// next begins.
pub open spec fn schedule_ran<V: 'static, S: System<V, (), ()>, C: ReadonlySystem<V, (), bool>>(
    order: Seq<u64>,
    before: Map<u64, ScheduleSet<V, S, C>>,
    after: Map<u64, ScheduleSet<V, S, C>>,
    world_before: World<V>,
    world_after: World<V>,
) -> bool {
    exists|worlds: Seq<World<V>>| is_schedule_trace(order, before, after, worlds, world_before, world_after)
}

/// What decides the place of a system in a set.
pub open spec fn entry_of<V: 'static, S: System<V, (), ()>, C: ReadonlySystem<V, (), bool>>(
    system: SystemConfig<V, S, C>,
) -> Entry {
    Entry::System { kinds: system.kinds(), exclusive: system.exclusive(), thread_local: system.thread_local() }
}

impl<V: 'static, S: System<V, (), ()>, C: ReadonlySystem<V, (), bool>> Default for Schedule<V, S, C> {
    fn default() -> (schedule: Schedule<V, S, C>)
        ensures
            schedule.wf(),
            schedule.ready(),
            schedule.order_ids() == default_order(),
            schedule.sets().dom() == Set::<u64>::empty(),
            schedule.max_threads() == usize::MAX,
    {
        let mut schedule = Schedule { sets: fx_new(), order: Vec::new(), max_threads: usize::MAX };
        schedule.order.push(Label { id: FIRST_ID, name: "First" });
        schedule.order.push(Label { id: PRE_UPDATE_ID, name: "PreUpdate" });
        schedule.order.push(Label { id: UPDATE_ID, name: "Update" });
        schedule.order.push(Label { id: POST_UPDATE_ID, name: "PostUpdate" });
        schedule.order.push(Label { id: LAST_ID, name: "Last" });
        assert(schedule.order_ids() =~= default_order());
        schedule
    }
}

impl<V: 'static, S: System<V, (), ()>, C: ReadonlySystem<V, (), bool>> Schedule<V, S, C> {
    /// The sets of the schedule, each under the identifier of its label.
    pub closed spec fn sets(&self) -> Map<u64, ScheduleSet<V, S, C>> {
        self.sets@
    }

    /// The identifiers of the labels, in the order in which their sets
    /// run.
    pub closed spec fn order_ids(&self) -> Seq<u64> {
        label_ids(self.order@)
    }

    /// The greatest number of systems that a parallel step may hold. With
    /// zero, the systems of parallel steps run one after the other.
    pub closed spec fn max_threads(&self) -> usize {
        self.max_threads
    }

    /// The steps of the set of the label with the identifier `id`. There
    /// are none where the label has no set.
    pub open spec fn set_steps(&self, id: u64) -> Seq<ScheduleStep<V, S, C>> {
        if self.sets().contains_key(id) {
            self.sets()[id].steps()
        } else {
            Seq::empty()
        }
    }

    /// The shapes of the steps of the set of the label with the identifier
    /// `id`. There are none where the label has no set.
    pub open spec fn set_shapes(&self, id: u64) -> Seq<StepShape> {
        if self.sets().contains_key(id) {
            self.sets()[id].shapes()
        } else {
            Seq::empty()
        }
    }

    /// The invariant of the schedule: no label occurs twice in the order,
    /// every set belongs to a label of the order, and every set meets its
    /// invariant.
    pub open spec fn wf(&self) -> bool {
        &&& self.order_ids().no_duplicates()
        &&& forall|id: u64| #[trigger] self.sets().contains_key(id) ==> self.order_ids().contains(id)
        &&& forall|id: u64| self.sets().contains_key(id) ==> (#[trigger] self.sets()[id]).wf()
    }

    /// Whether every system of the schedule is ready to run.
    pub open spec fn ready(&self) -> bool {
        forall|id: u64| self.sets().contains_key(id) ==> (#[trigger] self.sets()[id]).ready()
    }

    /// Whether no system of the schedule holds back a change to the world.
    pub open spec fn flushed(&self) -> bool {
        forall|id: u64| self.sets().contains_key(id) ==> (#[trigger] self.sets()[id]).flushed()
    }

    /// Set the `max_threads` of this schedule.
    pub fn with_max_threads(self, max_threads: usize) -> (schedule: Schedule<V, S, C>)
        ensures
            schedule.sets() == self.sets(),
            schedule.order_ids() == self.order_ids(),
            schedule.max_threads() == max_threads,
    {
        let mut schedule = self;
        schedule.max_threads = max_threads;
        schedule
    }

    /// Consumes the schedule and returns the sets comprising it.
    pub fn into_sets(self) -> (sets: FxHashMap<u64, ScheduleSet<V, S, C>>)
        ensures
            sets@ == self.sets(),
    {
        self.sets
    }

    /// Returns the schedule order.
    pub fn order(&self) -> (order: &[Label])
        ensures
            label_ids(order@) == self.order_ids(),
    {
        self.order.as_slice()
    }

    /// Returns the set of the label with the identifier `id`, if the label
    /// has one.
    pub fn set_mut(&mut self, id: u64) -> (set: Option<&mut ScheduleSet<V, S, C>>)
        ensures
            match set {
                Some(set) => old(self).sets().contains_key(id) && *set == old(self).sets()[id] && final(self).sets() == old(self).sets().insert(id, *final(set)),
                None => !old(self).sets().contains_key(id) && final(self).sets() == old(self).sets(),
            },
            final(self).order_ids() == old(self).order_ids(),
            final(self).max_threads() == old(self).max_threads(),
    {
        fx_get_mut(&mut self.sets, id)
    }

    fn label_idx(&self, id: u64) -> (found: Option<usize>)
        requires
            self.order_ids().no_duplicates(),
        ensures
            match found {
                Some(i) => first_index_of(self.order_ids(), id) == Some(i as int),
                None => !self.order_ids().contains(id),
            },
    {
        let mut i: usize = 0;
        while i < self.order.len()
            invariant
                0 <= i <= self.order@.len(),
                self.order_ids().no_duplicates(),
                forall|k: int| 0 <= k < i ==> self.order_ids()[k] != id,
            decreases self.order@.len() - i,
        {
            if self.order[i].id == id {
                proof {
                    assert(self.order_ids()[i as int] == id);
                    lemma_first_index_unique(self.order_ids(), i as int);
                }
                return Some(i);
            }
            i = i + 1;
        }
        None
    }

    fn label_entry(&mut self, label: Label) -> (at: usize)
        requires
            old(self).order_ids().no_duplicates(),
        ensures
            final(self).order_ids() == with_id(old(self).order_ids(), label.id),
            final(self).order_ids().no_duplicates(),
            first_index_of(final(self).order_ids(), label.id) == Some(at as int),
            at < final(self).order_ids().len(),
            final(self).sets() == old(self).sets(),
            final(self).max_threads() == old(self).max_threads(),
    {
        proof {
            lemma_with_id(self.order_ids(), label.id);
        }
        match self.label_idx(label.id) {
            Some(at) => {
                proof {
                    lemma_first_index_of(self.order_ids(), label.id);
                }
                at
            },
            None => {
                let ghost before = self.order@;
                self.order.push(label);
                proof {
                    assert(self.order_ids() =~= label_ids(before).push(label.id));
                    lemma_first_index_unique(self.order_ids(), before.len() as int);
                }
                self.order.len() - 1
            },
        }
    }

    /// Add a new label to identify a set of systems. A label that the
    /// schedule has already is not added again. The schedule is handed back
    /// for the next call.
    pub fn add_label<L: ScheduleLabel>(&mut self, label: L) -> (this: &mut Self)
        requires
            old(self).wf(),
        ensures
            this.wf(),
            this.order_ids() == with_id(old(self).order_ids(), label.label_id()),
            this.sets() == old(self).sets(),
            this.max_threads() == old(self).max_threads(),
            *final(self) == *final(this),
    {
        let label = Label { id: label.id(), name: label.name() };
        proof {
            lemma_with_id(self.order_ids(), label.id);
        }
        let _ = self.label_entry(label);
        self
    }

    /// Add a new label before `before` to identify a set of systems. The
    /// label is added at the end where the schedule does not have it, and
    /// then moved right before `before`; it stays where it is where the
    /// schedule does not have `before`.
    pub fn add_label_before<L: ScheduleLabel, B: ScheduleLabel>(&mut self, label: L, before: B) -> (this: &mut Self)
        requires
            old(self).wf(),
        ensures
            this.wf(),
            this.order_ids() == moved_before(
                with_id(old(self).order_ids(), label.label_id()),
                label.label_id(),
                before.label_id(),
            ),
            this.sets() == old(self).sets(),
            this.max_threads() == old(self).max_threads(),
            *final(self) == *final(this),
    {
        let label = Label { id: label.id(), name: label.name() };
        let reference = before.id();
        proof {
            lemma_with_id(self.order_ids(), label.id);
            lemma_moved_before(with_id(self.order_ids(), label.id), label.id, reference);
        }
        let from = self.label_entry(label);
        let ghost added = self.order_ids();
        match self.label_idx(reference) {
            Some(to) => {
                proof {
                    lemma_first_index_of(added, reference);
                }
                let target = if to > from {
                    to - 1
                } else {
                    to
                };
                let ghost labels = self.order@;
                let moved = self.order.remove(from);
                self.order.insert(target, moved);
                proof {
                    assert(label_ids(labels)[from as int] == labels[from as int].id);
                    lemma_move_ids(labels, from as int, target as int);
                }
            },
            None => {},
        }
        self
    }

    /// Add a new label after `after` to identify a set of systems. The
    /// label is added at the end where the schedule does not have it, and
    /// then moved right after `after`; it stays where it is where the
    /// schedule does not have `after`.
    pub fn add_label_after<L: ScheduleLabel, A: ScheduleLabel>(&mut self, label: L, after: A) -> (this: &mut Self)
        requires
            old(self).wf(),
        ensures
            this.wf(),
            this.order_ids() == moved_after(
                with_id(old(self).order_ids(), label.label_id()),
                label.label_id(),
                after.label_id(),
            ),
            this.sets() == old(self).sets(),
            this.max_threads() == old(self).max_threads(),
            *final(self) == *final(this),
    {
        let label = Label { id: label.id(), name: label.name() };
        let reference = after.id();
        proof {
            lemma_with_id(self.order_ids(), label.id);
            lemma_moved_after(with_id(self.order_ids(), label.id), label.id, reference);
        }
        let from = self.label_entry(label);
        let ghost added = self.order_ids();
        match self.label_idx(reference) {
            Some(to) => {
                proof {
                    lemma_first_index_of(added, reference);
                }
                let target = if to < from {
                    to + 1
                } else {
                    to
                };
                let ghost labels = self.order@;
                let moved = self.order.remove(from);
                self.order.insert(target, moved);
                proof {
                    assert(label_ids(labels)[from as int] == labels[from as int].id);
                    lemma_move_ids(labels, from as int, target as int);
                }
            },
            None => {},
        }
        self
    }

    fn entry(&mut self, label: Label)
        requires
            old(self).wf(),
        ensures
            final(self).wf(),
            final(self).order_ids() == with_id(old(self).order_ids(), label.id),
            final(self).sets().contains_key(label.id),
            final(self).sets() == if old(self).sets().contains_key(label.id) {
                old(self).sets()
            } else {
                old(self).sets().insert(label.id, final(self).sets()[label.id])
            },
            final(self).set_shapes(label.id) == old(self).set_shapes(label.id),
            final(self).set_steps(label.id) == old(self).set_steps(label.id),
            final(self).ready() == old(self).ready(),
            final(self).max_threads() == old(self).max_threads(),
    {
        proof {
            lemma_with_id(self.order_ids(), label.id);
        }
        let _ = self.label_entry(label);
        if !fx_contains_key(&self.sets, label.id) {
            let _ = fx_insert(&mut self.sets, label.id, ScheduleSet::new());
            proof {
                assert(self.sets() =~= old(self).sets().insert(label.id, self.sets()[label.id]));
                assert(self.sets()[label.id].shapes() =~= Seq::<StepShape>::empty());
                if self.ready() {
                    assert forall|id: u64| old(self).sets().contains_key(id) implies (#[trigger] old(self).sets()[id]).ready() by {
                        assert(self.sets().contains_key(id));
                        assert(self.sets()[id].ready());
                    }
                }
            }
        }
    }

    /// Adds a system to the set of the label with the identifier of
    /// `label`: to an exclusive step where it is exclusive, to a local step
    /// where it must run on the main thread, and to a parallel step
    /// otherwise. The label gets a place at the end of the order, and a
    /// set, where it has none.
    pub fn add_config(&mut self, label: Label, system: SystemConfig<V, S, C>)
        requires
            old(self).wf(),
            system.wf(),
        ensures
            final(self).wf(),
            final(self).order_ids() == with_id(old(self).order_ids(), label.id),
            final(self).sets().dom() == old(self).sets().dom().insert(label.id),
            forall|id: u64|
                id != label.id && old(self).sets().contains_key(id) ==> #[trigger] final(self).sets()[id] == old(self).sets()[id],
            placed(
                old(self).set_steps(label.id),
                final(self).set_steps(label.id),
                system,
                old(self).max_threads() as int,
            ),
            final(self).set_shapes(label.id) == plan_entry(
                old(self).set_shapes(label.id),
                entry_of(system),
                old(self).max_threads() as int,
            ),
            final(self).ready() == (old(self).ready() && system.ready()),
            final(self).max_threads() == old(self).max_threads(),
    {
        let max_threads = self.max_threads;
        self.entry(label);
        let ghost prepared = *self;
        match fx_get_mut(&mut self.sets, label.id) {
            Some(set) => {
                set.add_config(system, max_threads);
            },
            None => {},
        }
        proof {
            assert(self.sets().dom() =~= old(self).sets().dom().insert(label.id));
            self.lemma_ready_after_adding(&prepared, label.id, system.ready());
        }
    }

    /// Adds a system to the schedule, under the given label.
    pub fn add_system<L: ScheduleLabel, M, I: IntoConfig<V, S, C, M>>(&mut self, label: L, system: I) -> (this: &mut Self)
        requires
            old(self).wf(),
            system.convertible(),
        ensures
            this.wf(),
            this.order_ids() == with_id(old(self).order_ids(), label.label_id()),
            this.sets().dom() == old(self).sets().dom().insert(label.label_id()),
            forall|id: u64|
                id != label.label_id() && old(self).sets().contains_key(id) ==> #[trigger] this.sets()[id]
                    == old(self).sets()[id],
            exists|config: SystemConfig<V, S, C>|
                #[trigger] system.configured_as(&config) && placed(
                    old(self).set_steps(label.label_id()),
                    this.set_steps(label.label_id()),
                    config,
                    old(self).max_threads() as int,
                ),
            this.set_shapes(label.label_id()) == plan_entry(
                old(self).set_shapes(label.label_id()),
                Entry::System {
                    kinds: system.config_kinds(),
                    exclusive: system.config_exclusive(),
                    thread_local: system.config_thread_local(),
                },
                old(self).max_threads() as int,
            ),
            this.max_threads() == old(self).max_threads(),
            *final(self) == *final(this),
    {
        let label = Label { id: label.id(), name: label.name() };
        let config = system.into_config();
        self.add_config(label, config);
        proof {
            assert(system.configured_as(&config));
        }
        self
    }

    /// Adds a barrier, preventing future systems from running parallel
    /// with the previously added systems.
    pub fn add_barrier<L: ScheduleLabel>(&mut self, label: L) -> (this: &mut Self)
        requires
            old(self).wf(),
        ensures
            this.wf(),
            this.order_ids() == with_id(old(self).order_ids(), label.label_id()),
            this.sets().dom() == old(self).sets().dom().insert(label.label_id()),
            forall|id: u64|
                id != label.label_id() && old(self).sets().contains_key(id) ==> #[trigger] this.sets()[id]
                    == old(self).sets()[id],
            this.set_steps(label.label_id()) == old(self).set_steps(label.label_id()).push(
                ScheduleStep::Barrier,
            ),
            this.set_shapes(label.label_id()) == plan_barrier(old(self).set_shapes(label.label_id())),
            this.ready() == old(self).ready(),
            this.max_threads() == old(self).max_threads(),
            *final(self) == *final(this),
    {
        let label = Label { id: label.id(), name: label.name() };
        self.entry(label);
        let ghost prepared = *self;
        match fx_get_mut(&mut self.sets, label.id) {
            Some(set) => {
                set.add_barrier();
            },
            None => {},
        }
        proof {
            assert(self.sets().dom() =~= old(self).sets().dom().insert(label.id));
            self.lemma_ready_after_adding(&prepared, label.id, true);
        }
        self
    }

    /// A schedule to one of whose sets something was added is ready where
    /// it was ready before and what was added is.
    proof fn lemma_ready_after_adding(&self, before: &Self, id: u64, added: bool)
        requires
            before.sets().contains_key(id),
            self.sets() == before.sets().insert(id, self.sets()[id]),
            self.sets()[id].ready() == (before.sets()[id].ready() && added),
        ensures
            self.ready() == (before.ready() && added),
    {
        if before.ready() && added {
            assert forall|other: u64| self.sets().contains_key(other) implies (#[trigger] self.sets()[other]).ready() by {
                assert(before.sets()[other].ready());
            }
        }
        if self.ready() {
            assert(self.sets()[id].ready());
            assert forall|other: u64| before.sets().contains_key(other) implies (#[trigger] before.sets()[other]).ready() by {
                assert(self.sets().contains_key(other));
                assert(self.sets()[other].ready());
            }
        }
    }

    /// What a visit to the set of one label leaves alone: the labels that
    /// have a set, the sets of the other labels, and the shapes of all.
    proof fn lemma_one_set_visited(&self, before: &Self, id: u64)
        requires
            self.sets() == before.sets() || (before.sets().contains_key(id) && self.sets() == before.sets().insert(
                id,
                self.sets()[id],
            )),
            self.set_shapes(id) == before.set_shapes(id),
        ensures
            self.sets().dom() == before.sets().dom(),
            forall|other: u64|
                other != id && before.sets().contains_key(other) ==> #[trigger] self.sets()[other]
                    == before.sets()[other],
            forall|other: u64| #[trigger] self.set_shapes(other) == before.set_shapes(other),
    {
        assert(self.sets().dom() =~= before.sets().dom());
    }

    /// Initializes all systems in the schedule that are not ready, the sets
    /// in the order of their labels. A schedule whose systems are all ready
    /// is left as it is, and the world with it.
    pub fn initialize(&mut self, world: &mut World<V>)
        requires
            old(self).wf(),
            old(world).wf(),
        ensures
            final(self).wf(),
            final(self).ready(),
            schedule_initialized(
                old(self).order_ids(),
                old(self).sets(),
                final(self).sets(),
                *old(world),
                *final(world),
            ),
            old(self).ready() ==> *final(world) == *old(world) && forall|id: u64|
                old(self).sets().contains_key(id) ==> (#[trigger] final(self).sets()[id]).steps() == old(self).sets()[id].steps(),
            final(self).order_ids() == old(self).order_ids(),
            final(self).sets().dom() == old(self).sets().dom(),
            forall|id: u64| #[trigger] final(self).set_shapes(id) == old(self).set_shapes(id),
            final(self).max_threads() == old(self).max_threads(),
            final(world).wf(),
    {
        let mut i: usize = 0;
        let ghost mut trace: Seq<World<V>> = seq![*world];
        let ghost order = self.order_ids();
        while i < self.order.len()
            invariant
                0 <= i <= self.order@.len(),
                old(self).wf(),
                order == old(self).order_ids(),
                self.order@ == old(self).order@,
                self.max_threads() == old(self).max_threads(),
                self.sets().dom() == old(self).sets().dom(),
                forall|id: u64| self.sets().contains_key(id) ==> (#[trigger] self.sets()[id]).wf(),
                forall|id: u64| #[trigger] self.set_shapes(id) == old(self).set_shapes(id),
                forall|k: int|
                    0 <= k < i && self.sets().contains_key(order[k]) ==> (#[trigger] self.sets()[order[k]]).ready(),
                forall|k: int|
                    i <= k < order.len() && self.sets().contains_key(order[k]) ==> #[trigger] self.sets()[order[k]]
                        == old(self).sets()[order[k]],
                old(self).ready() ==> *world == *old(world) && forall|id: u64|
                    old(self).sets().contains_key(id) ==> (#[trigger] self.sets()[id]).steps() == old(self).sets()[id].steps(),
                world.wf(),
                trace.len() == i + 1,
                trace[0] == *old(world),
                trace[i as int] == *world,
                forall|k: int|
                    0 <= k < i ==> #[trigger] is_set_init_turn(order, old(self).sets(), self.sets(), trace, k),
            decreases self.order@.len() - i,
        {
            let id = self.order[i].id;
            let ghost pre = *self;
            let ghost before = self.sets();
            let ghost passed = trace;
            assert(order[i as int] == id);
            match fx_get_mut(&mut self.sets, id) {
                Some(set) => {
                    set.initialize(world);
                },
                None => {},
            }
            proof {
                trace = passed.push(*world);
                self.lemma_one_set_visited(&pre, id);
                assert forall|other: u64| #[trigger] self.set_shapes(other) == old(self).set_shapes(other) by {
                    assert(pre.set_shapes(other) == old(self).set_shapes(other));
                }
                assert forall|k: int| 0 <= k < i + 1 && self.sets().contains_key(order[k]) implies (
                #[trigger] self.sets()[order[k]]).ready() by {
                    if k < i {
                        assert(order[k] != id);
                        assert(before[order[k]].ready());
                    }
                }
                assert forall|k: int| i + 1 <= k < order.len() && self.sets().contains_key(order[k]) implies #[trigger] self.sets()[order[k]]
                    == old(self).sets()[order[k]] by {
                    assert(order[k] != id);
                    assert(before[order[k]] == old(self).sets()[order[k]]);
                }
                assert forall|k: int| 0 <= k < i + 1 implies #[trigger] is_set_init_turn(
                    order,
                    old(self).sets(),
                    self.sets(),
                    trace,
                    k,
                ) by {
                    if k < i {
                        assert(order[k] != id);
                        assert(is_set_init_turn(order, old(self).sets(), before, passed, k));
                    } else {
                        if before.contains_key(id) {
                            assert(before[id] == old(self).sets()[id]);
                        }
                    }
                }
            }
            i = i + 1;
        }
        proof {
            assert forall|id: u64| self.sets().contains_key(id) implies (#[trigger] self.sets()[id]).ready() by {
                assert(old(self).sets().contains_key(id));
                assert(old(self).order_ids().contains(id));
                let k = choose|k: int| 0 <= k < order.len() && order[k] == id;
                assert(self.sets()[order[k]].ready());
            }
            assert(is_schedule_init_trace(order, old(self).sets(), self.sets(), trace, *old(world), *world));
        }
    }

    fn run_generic(&mut self, world: &mut World<V>, parallel: bool) where V: Send + Sync
        requires
            old(self).wf(),
            old(self).ready(),
            old(world).wf(),
        ensures
            final(self).wf(),
            final(self).ready(),
            final(self).flushed(),
            final(self).order_ids() == old(self).order_ids(),
            final(self).sets().dom() == old(self).sets().dom(),
            forall|id: u64| #[trigger] final(self).set_shapes(id) == old(self).set_shapes(id),
            final(self).max_threads() == old(self).max_threads(),
            schedule_ran(old(self).order_ids(), old(self).sets(), final(self).sets(), *old(world), *final(world)),
            final(world).wf(),
    {
        let mut i: usize = 0;
        let ghost mut trace: Seq<World<V>> = seq![*world];
        let ghost order = self.order_ids();
        while i < self.order.len()
            invariant
                0 <= i <= self.order@.len(),
                old(self).wf(),
                order == old(self).order_ids(),
                self.order@ == old(self).order@,
                self.max_threads() == old(self).max_threads(),
                self.sets().dom() == old(self).sets().dom(),
                forall|id: u64|
                    self.sets().contains_key(id) ==> (#[trigger] self.sets()[id]).wf() && self.sets()[id].ready(),
                forall|id: u64| #[trigger] self.set_shapes(id) == old(self).set_shapes(id),
                forall|k: int|
                    0 <= k < i && self.sets().contains_key(order[k]) ==> (#[trigger] self.sets()[order[k]]).flushed(),
                forall|k: int|
                    i <= k < order.len() && self.sets().contains_key(order[k]) ==> #[trigger] self.sets()[order[k]]
                        == old(self).sets()[order[k]],
                world.wf(),
                trace.len() == i + 1,
                trace[0] == *old(world),
                trace[i as int] == *world,
                forall|k: int| 0 <= k < i ==> #[trigger] is_set_turn(order, old(self).sets(), self.sets(), trace, k),
            decreases self.order@.len() - i,
        {
            let id = self.order[i].id;
            let ghost pre = *self;
            let ghost before = self.sets();
            let ghost passed = trace;
            assert(order[i as int] == id);
            match fx_get_mut(&mut self.sets, id) {
                Some(set) => {
                    set.run_generic(world, parallel);
                },
                None => {},
            }
            proof {
                trace = passed.push(*world);
                self.lemma_one_set_visited(&pre, id);
                assert forall|other: u64| #[trigger] self.set_shapes(other) == old(self).set_shapes(other) by {
                    assert(pre.set_shapes(other) == old(self).set_shapes(other));
                }
                assert forall|k: int| 0 <= k < i + 1 && self.sets().contains_key(order[k]) implies (
                #[trigger] self.sets()[order[k]]).flushed() by {
                    if k < i {
                        assert(order[k] != id);
                        assert(before[order[k]].flushed());
                    }
                }
                assert forall|k: int| i + 1 <= k < order.len() && self.sets().contains_key(order[k]) implies #[trigger] self.sets()[order[k]]
                    == old(self).sets()[order[k]] by {
                    assert(order[k] != id);
                    assert(before[order[k]] == old(self).sets()[order[k]]);
                }
                assert forall|k: int| 0 <= k < i + 1 implies #[trigger] is_set_turn(
                    order,
                    old(self).sets(),
                    self.sets(),
                    trace,
                    k,
                ) by {
                    if k < i {
                        assert(order[k] != id);
                        assert(is_set_turn(order, old(self).sets(), before, passed, k));
                    } else {
                        if before.contains_key(id) {
                            assert(before[id] == old(self).sets()[id]);
                        }
                    }
                }
            }
            i = i + 1;
        }
        proof {
            assert forall|id: u64| self.sets().contains_key(id) implies (#[trigger] self.sets()[id]).flushed() by {
                assert(old(self).sets().contains_key(id));
                assert(old(self).order_ids().contains(id));
                let k = choose|k: int| 0 <= k < order.len() && order[k] == id;
                assert(self.sets()[order[k]].flushed());
            }
            assert(is_schedule_trace(order, old(self).sets(), self.sets(), trace, *old(world), *world));
        }
    }

    /// Runs the systems. The sets run in the order of their labels, the
    /// steps of each set in the order in which they were built, each
    /// system taking its turn once: it runs exactly when all its conditions
    /// hold. The world is maintained at each barrier, before each system of
    /// a local or exclusive step, and at the end of each set. Running
    /// leaves every system in its step, and with nothing held back: each
    /// step applies what its systems deferred before the next step begins.
    pub fn run(&mut self, world: &mut World<V>) where V: Send + Sync
        requires
            old(self).wf(),
            old(self).ready(),
            old(world).wf(),
        ensures
            final(self).wf(),
            final(self).ready(),
            final(self).flushed(),
            final(self).order_ids() == old(self).order_ids(),
            final(self).sets().dom() == old(self).sets().dom(),
            forall|id: u64| #[trigger] final(self).set_shapes(id) == old(self).set_shapes(id),
            final(self).max_threads() == old(self).max_threads(),
            schedule_ran(old(self).order_ids(), old(self).sets(), final(self).sets(), *old(world), *final(world)),
            final(world).wf(),
    {
        if self.max_threads == 0 {
            self.run_seq(world);
        } else {
            self.run_par(world);
        }
    }

    /// Runs the systems sequentially.
    pub fn run_seq(&mut self, world: &mut World<V>) where V: Send + Sync
        requires
            old(self).wf(),
            old(self).ready(),
            old(world).wf(),
        ensures
            final(self).wf(),
            final(self).ready(),
            final(self).flushed(),
            final(self).order_ids() == old(self).order_ids(),
            final(self).sets().dom() == old(self).sets().dom(),
            forall|id: u64| #[trigger] final(self).set_shapes(id) == old(self).set_shapes(id),
            final(self).max_threads() == old(self).max_threads(),
            schedule_ran(old(self).order_ids(), old(self).sets(), final(self).sets(), *old(world), *final(world)),
            final(world).wf(),
    {
        self.run_generic(world, false);
    }

    /// Runs the systems, those of each parallel step in parallel.
    pub fn run_par(&mut self, world: &mut World<V>) where V: Send + Sync
        requires
            old(self).wf(),
            old(self).ready(),
            old(world).wf(),
        ensures
            final(self).wf(),
            final(self).ready(),
            final(self).flushed(),
            final(self).order_ids() == old(self).order_ids(),
            final(self).sets().dom() == old(self).sets().dom(),
            forall|id: u64| #[trigger] final(self).set_shapes(id) == old(self).set_shapes(id),
            final(self).max_threads() == old(self).max_threads(),
            schedule_ran(old(self).order_ids(), old(self).sets(), final(self).sets(), *old(world), *final(world)),
            final(world).wf(),
    {
        self.run_generic(world, true);
    }
}

} // verus!
