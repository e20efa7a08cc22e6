use sparsey::entity::{Entities, Entity};
use sparsey::resource::{Res, ResMut};
use sparsey::schedule::{PostUpdate, PreUpdate, Schedule, SystemConfig, Update};
use sparsey::system::{
    BoxedCondition, BoxedSystem, Commands, ExclusiveSystem, ExclusiveSystemParamFunction, FunctionSystem, Local,
    ReadRes, SystemParamFunction, WriteRes,
};
use sparsey::util::TypeData;
use sparsey::world::World;
use std::sync::{Arc, Mutex};

const FLAG: u64 = 10;
const LOG: u64 = 11;

type TestSchedule = Schedule<i64, BoxedSystem<i64>, BoxedCondition<i64>>;
type TestConfig = SystemConfig<i64, BoxedSystem<i64>, BoxedCondition<i64>>;
type Journal = Arc<Mutex<Vec<String>>>;

fn config<F: SystemParamFunction<i64, In = (), Out = ()>>(function: F) -> TestConfig {
    let system: BoxedSystem<i64> = Box::new(FunctionSystem::new(function));
    SystemConfig::new(system)
}

fn entries(journal: &Journal) -> Vec<String> {
    journal.lock().unwrap().clone()
}

struct Note(&'static str, Journal);

impl SystemParamFunction<i64> for Note {
    type In = ();
    type Out = ();
    type Param = ();

    fn run(&mut self, _: (), _: ()) {
        self.1.lock().unwrap().push(self.0.to_string());
    }
}

struct FlagIsSet;

impl SystemParamFunction<i64> for FlagIsSet {
    type In = ();
    type Out = bool;
    type Param = (ReadRes<FLAG>,);

    fn run(&mut self, _: (), (flag,): (Option<Res<'_, i64>>,)) -> bool {
        *flag.expect("the flag is a resource of the world").get() != 0
    }
}

struct CountRuns(Arc<Mutex<usize>>);

impl SystemParamFunction<i64> for CountRuns {
    type In = ();
    type Out = ();
    type Param = (Local<'static, usize>,);

    fn run(&mut self, _: (), (mut counter,): (Local<'_, usize>,)) {
        *counter.get_mut() += 1;
        *self.0.lock().unwrap() = *counter.get();
    }
}

struct Destroy(Entity);

impl SystemParamFunction<i64> for Destroy {
    type In = ();
    type Out = ();
    type Param = (Commands<'static, 'static, i64>,);

    fn run(&mut self, _: (), (mut commands,): (Commands<'_, '_, i64>,)) {
        commands.destroy(self.0);
    }
}

struct Spawn;

impl SystemParamFunction<i64> for Spawn {
    type In = ();
    type Out = ();
    type Param = (Commands<'static, 'static, i64>,);

    fn run(&mut self, _: (), (mut commands,): (Commands<'_, '_, i64>,)) {
        commands.create(Vec::new());
    }
}

struct Observe(Entity, &'static str, Journal);

impl SystemParamFunction<i64> for Observe {
    type In = ();
    type Out = ();
    type Param = (Entities<'static>, WriteRes<LOG>);

    fn run(&mut self, _: (), (entities, log): (Entities<'_>, Option<ResMut<'_, i64>>)) {
        let mut log = log.expect("the log is a resource of the world");
        *log.get_mut() += 1;
        let seen = entities.contains(self.0);
        self.2.lock().unwrap().push(format!("{} sees it: {}", self.1, seen));
    }
}

struct CountEntities(&'static str, Journal);

impl SystemParamFunction<i64> for CountEntities {
    type In = ();
    type Out = ();
    type Param = (Entities<'static>,);

    fn run(&mut self, _: (), (entities,): (Entities<'_>,)) {
        self.1.lock().unwrap().push(format!("{} counts {}", self.0, entities.len()));
    }
}

struct SpawnDirectly;

impl ExclusiveSystemParamFunction<i64> for SpawnDirectly {
    type In = ();
    type Out = ();
    type Params = ();

    fn run(&mut self, world: &mut World<i64>, _: (), _: ()) {
        world.create(Vec::new());
    }
}

#[test]
fn sets_run_in_label_order_whatever_the_order_of_insertion() {
    let journal = Journal::default();
    let mut world = World::<i64>::default();
    let mut schedule = TestSchedule::default();
    schedule.add_system(PostUpdate, config(Note("post", journal.clone())));
    schedule.add_system(PreUpdate, config(Note("pre", journal.clone())));
    schedule.initialize(&mut world);
    schedule.run(&mut world);
    assert_eq!(entries(&journal), vec!["pre", "post"]);
}

#[test]
fn system_runs_exactly_on_the_ticks_on_which_its_condition_holds() {
    let runs = Arc::new(Mutex::new(0usize));
    let mut world = World::<i64>::default();
    world.insert_resource(TypeData::new(FLAG), 1);
    let condition: BoxedCondition<i64> = Box::new(FunctionSystem::new(FlagIsSet));
    let mut schedule = TestSchedule::default();
    schedule.add_system(Update, config(CountRuns(runs.clone())).run_if(condition));
    schedule.initialize(&mut world);
    let mut expected = 0;
    for tick in 0..6 {
        let flag = tick % 2 == 0;
        *world.get_resource(TypeData::new(FLAG)).unwrap() = flag as i64;
        schedule.run(&mut world);
        if flag {
            expected += 1;
        }
        assert_eq!(*runs.lock().unwrap(), expected);
    }
    assert_eq!(expected, 3);
}

#[test]
fn gated_run_reports_whether_the_system_ran() {
    let runs = Arc::new(Mutex::new(0usize));
    let mut world = World::<i64>::default();
    let mut system = config(CountRuns(runs.clone()));
    system.initialize(&mut world);
    assert!(!system.run_when(false, &mut world));
    assert_eq!(*runs.lock().unwrap(), 0);
    assert!(system.run_when(true, &mut world));
    assert_eq!(*runs.lock().unwrap(), 1);
    assert!(system.run(&mut world));
    assert_eq!(*runs.lock().unwrap(), 2);
}

#[test]
fn false_condition_leaves_the_deferred_buffer_empty() {
    let mut world = World::<i64>::default();
    world.insert_resource(TypeData::new(FLAG), 0);
    let condition: BoxedCondition<i64> = Box::new(FunctionSystem::new(FlagIsSet));
    let mut system = config(Spawn).run_if(condition);
    system.initialize(&mut world);
    assert!(!system.run(&mut world));
    system.apply_deferred(&mut world);
    world.maintain();
    assert!(world.entities().is_empty());
    *world.get_resource(TypeData::new(FLAG)).unwrap() = 1;
    assert!(system.run(&mut world));
    system.apply_deferred(&mut world);
    assert_eq!(world.entities().len(), 1);
}

#[test]
fn deferred_destroy_shows_in_the_next_step_only() {
    let journal = Journal::default();
    let mut world = World::<i64>::default();
    world.insert_resource(TypeData::new(LOG), 0);
    let entity = world.create(Vec::new());
    let mut schedule = TestSchedule::default();
    schedule.add_system(Update, config(Destroy(entity)));
    schedule.add_system(Update, config(Observe(entity, "same step", journal.clone())));
    schedule.add_system(Update, config(Observe(entity, "next step", journal.clone())));
    schedule.initialize(&mut world);
    assert!(world.contains(entity));
    schedule.run(&mut world);
    assert_eq!(entries(&journal), vec!["same step sees it: true", "next step sees it: false"]);
    assert!(!world.contains(entity));
    assert_eq!(*world.get_resource(TypeData::new(LOG)).unwrap(), 2);
}

#[test]
fn barrier_makes_deferred_effects_visible() {
    let journal = Journal::default();
    let mut world = World::<i64>::default();
    let mut schedule = TestSchedule::default();
    schedule.add_system(Update, config(Spawn));
    schedule.add_barrier(Update);
    schedule.add_system(Update, config(CountEntities("after the barrier", journal.clone())));
    schedule.initialize(&mut world);
    schedule.run(&mut world);
    assert_eq!(entries(&journal), vec!["after the barrier counts 1"]);
}

#[test]
fn without_barrier_batched_systems_see_the_world_of_the_step_start() {
    let journal = Journal::default();
    let mut world = World::<i64>::default();
    let mut schedule = TestSchedule::default();
    schedule.add_system(Update, config(Spawn));
    schedule.add_system(Update, config(CountEntities("in the batch", journal.clone())));
    schedule.initialize(&mut world);
    schedule.run(&mut world);
    assert_eq!(entries(&journal), vec!["in the batch counts 0"]);
    assert_eq!(world.entities().len(), 1);
}

#[test]
fn sequential_run_gives_the_same_result_as_parallel_run() {
    for max_threads in [0usize, 1, 4] {
        let journal = Journal::default();
        let mut world = World::<i64>::default();
        world.insert_resource(TypeData::new(LOG), 0);
        let entity = world.create(Vec::new());
        let mut schedule = TestSchedule::default().with_max_threads(max_threads);
        schedule.add_system(Update, config(Observe(entity, "first", journal.clone())));
        schedule.add_system(Update, config(Observe(entity, "second", journal.clone())));
        schedule.add_system(Update, config(Observe(entity, "third", journal.clone())));
        schedule.initialize(&mut world);
        schedule.run(&mut world);
        schedule.run(&mut world);
        assert_eq!(*world.get_resource(TypeData::new(LOG)).unwrap(), 6);
        assert_eq!(entries(&journal).len(), 6);
    }
}

#[test]
fn exclusive_system_changes_the_world_directly() {
    let journal = Journal::default();
    let mut world = World::<i64>::default();
    let mut schedule = TestSchedule::default();
    let exclusive: BoxedSystem<i64> = Box::new(ExclusiveSystem::new(SpawnDirectly));
    schedule.add_system(Update, SystemConfig::new(exclusive));
    schedule.add_system(Update, config(CountEntities("after", journal.clone())));
    schedule.initialize(&mut world);
    schedule.run(&mut world);
    schedule.run(&mut world);
    assert_eq!(entries(&journal), vec!["after counts 1", "after counts 2"]);
}

struct AddTo<const TARGET: u64, const SOURCE: u64>;

impl<const TARGET: u64, const SOURCE: u64> SystemParamFunction<i64> for AddTo<TARGET, SOURCE> {
    type In = ();
    type Out = ();
    type Param = (WriteRes<TARGET>, ReadRes<SOURCE>);

    fn run(&mut self, _: (), (target, source): (Option<ResMut<'_, i64>>, Option<Res<'_, i64>>)) {
        let mut target = target.expect("no other system of the step reaches the target");
        let source = source.expect("no system of the step writes the source");
        *target.get_mut() += *source.get();
    }
}

#[test]
fn systems_of_one_parallel_step_never_refuse_each_other_a_borrow() {
    let mut world = World::<i64>::default();
    world.insert_resource(TypeData::new(100), 3);
    for target in 101..=106 {
        world.insert_resource(TypeData::new(target), 0);
    }
    let mut schedule = TestSchedule::default();
    schedule.add_system(Update, config(AddTo::<101, 100>));
    schedule.add_system(Update, config(AddTo::<102, 100>));
    schedule.add_system(Update, config(AddTo::<103, 100>));
    schedule.add_system(Update, config(AddTo::<104, 100>));
    schedule.add_system(Update, config(AddTo::<105, 100>));
    schedule.add_system(Update, config(AddTo::<106, 105>));
    schedule.add_system(Update, config(AddTo::<101, 106>));
    schedule.initialize(&mut world);
    for _ in 0..50 {
        schedule.run(&mut world);
    }
    for target in 102..=105 {
        assert_eq!(*world.get_resource(TypeData::new(target)).unwrap(), 150);
    }
    let sum_of_105: i64 = (1..=50).map(|tick| 3 * tick).sum();
    assert_eq!(*world.get_resource(TypeData::new(106)).unwrap(), sum_of_105);
    let sets = schedule.into_sets();
    assert_eq!(sets.get(&sparsey::schedule::label::UPDATE_ID).unwrap().as_steps().len(), 3);
}

struct SpawnOnMainThread;

impl SystemParamFunction<i64> for SpawnOnMainThread {
    type In = ();
    type Out = ();
    type Param = (Commands<'static, 'static, i64>, sparsey::system::ReadNonSend<LOG>);

    fn run(
        &mut self,
        _: (),
        (mut commands, _): (Commands<'_, '_, i64>, Option<sparsey::resource::NonSend<'_, i64>>),
    ) {
        commands.create(Vec::new());
    }
}

#[test]
fn local_step_applies_what_each_system_deferred_before_the_next_runs() {
    let journal = Journal::default();
    let mut world = World::<i64>::default();
    world.insert_non_send(TypeData::new(LOG), 0);
    let mut schedule = TestSchedule::default();
    schedule.add_system(Update, config(SpawnOnMainThread));
    schedule.add_system(Update, config(SpawnOnMainThread));
    schedule.add_system(Update, config(CountEntities("after", journal.clone())));
    schedule.initialize(&mut world);
    schedule.run(&mut world);
    assert_eq!(entries(&journal), vec!["after counts 2"]);
}

#[test]
fn local_state_persists_across_runs() {
    let runs = Arc::new(Mutex::new(0usize));
    let mut world = World::<i64>::default();
    let mut schedule = TestSchedule::default();
    schedule.add_system(Update, config(CountRuns(runs.clone())));
    schedule.initialize(&mut world);
    for _ in 0..3 {
        schedule.run(&mut world);
    }
    schedule.initialize(&mut world);
    schedule.run(&mut world);
    assert_eq!(*runs.lock().unwrap(), 4);
}
