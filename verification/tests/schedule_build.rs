use sparsey::resource::{Res, ResMut};
use sparsey::schedule::label::UPDATE_ID;
use sparsey::schedule::{Schedule, ScheduleSet, ScheduleStep, SystemConfig, Update};
use sparsey::system::{
    BoxedCondition, BoxedSystem, FunctionSystem, ReadRes, System, SystemParamFunction, SystemParamKind, WriteRes,
};
use sparsey::util::TypeData;

const R: u64 = 1;
const Q: u64 = 2;

struct WriteR;

impl SystemParamFunction<i64> for WriteR {
    type In = ();
    type Out = ();
    type Param = (WriteRes<R>,);

    fn run(&mut self, _: (), _: (Option<ResMut<'_, i64>>,)) {}
}

struct ReadQ;

impl SystemParamFunction<i64> for ReadQ {
    type In = ();
    type Out = ();
    type Param = (ReadRes<Q>,);

    fn run(&mut self, _: (), _: (Option<Res<'_, i64>>,)) {}
}

type TestSchedule = Schedule<i64, BoxedSystem<i64>, BoxedCondition<i64>>;

fn writer(name: &'static str) -> SystemConfig<i64, BoxedSystem<i64>, BoxedCondition<i64>> {
    let system: BoxedSystem<i64> = Box::new(FunctionSystem::new(WriteR).named(name));
    SystemConfig::new(system)
}

fn reader(name: &'static str) -> SystemConfig<i64, BoxedSystem<i64>, BoxedCondition<i64>> {
    let system: BoxedSystem<i64> = Box::new(FunctionSystem::new(ReadQ).named(name));
    SystemConfig::new(system)
}

fn partition(schedule: TestSchedule, id: u64) -> Vec<Vec<&'static str>> {
    let sets = schedule.into_sets();
    let mut out = Vec::new();
    if let Some(set) = sets.get(&id) {
        for step in set.as_steps() {
            match step {
                ScheduleStep::Systems(systems) => out.push(systems.iter().map(|s| s.name()).collect()),
                ScheduleStep::LocalSystems(systems) => out.push(systems.iter().map(|s| s.name()).collect()),
                ScheduleStep::ExclusiveSystems(systems) => out.push(systems.iter().map(|s| s.name()).collect()),
                ScheduleStep::Barrier => out.push(vec!["|"]),
            }
        }
    }
    out
}

#[test]
fn function_system_declares_the_kinds_of_its_parameters() {
    let system = FunctionSystem::<i64, WriteR>::new(WriteR);
    assert_eq!(system.param_kinds(), &[SystemParamKind::ResMut(TypeData::new(R))]);
    assert!(!system.is_exclusive());
    assert!(!system.is_thread_local());
}

#[test]
fn two_writers_of_one_resource_never_share_a_step() {
    let mut schedule = TestSchedule::default();
    schedule.add_system(Update, writer("w1"));
    schedule.add_system(Update, writer("w2"));
    schedule.add_system(Update, reader("q"));
    assert_eq!(partition(schedule, UPDATE_ID), vec![vec!["w1", "q"], vec!["w2"]]);
}

#[test]
fn reader_of_another_resource_joins_the_first_writer() {
    let mut schedule = TestSchedule::default();
    schedule.add_system(Update, writer("w1"));
    schedule.add_system(Update, reader("q"));
    schedule.add_system(Update, writer("w2"));
    assert_eq!(partition(schedule, UPDATE_ID), vec![vec!["w1", "q"], vec!["w2"]]);
}

#[test]
fn building_twice_gives_the_same_partition() {
    let mut first = TestSchedule::default();
    let mut second = TestSchedule::default();
    for schedule in [&mut first, &mut second] {
        schedule.add_system(Update, writer("a"));
        schedule.add_system(Update, reader("b"));
        schedule.add_barrier(Update);
        schedule.add_system(Update, writer("c"));
        schedule.add_system(Update, writer("d"));
        schedule.add_system(Update, reader("e"));
    }
    let first = partition(first, UPDATE_ID);
    assert_eq!(first, partition(second, UPDATE_ID));
    assert_eq!(first, vec![vec!["a", "b"], vec!["|"], vec!["c", "e"], vec!["d"]]);
}

#[test]
fn barrier_keeps_batchable_systems_apart() {
    let mut schedule = TestSchedule::default();
    schedule.add_system(Update, reader("a"));
    schedule.add_barrier(Update);
    schedule.add_system(Update, reader("b"));
    assert_eq!(partition(schedule, UPDATE_ID), vec![vec!["a"], vec!["|"], vec!["b"]]);
}

#[test]
fn set_places_every_kind_of_system() {
    let mut set = ScheduleSet::<i64, BoxedSystem<i64>, BoxedCondition<i64>>::default();
    assert!(set.as_steps().is_empty());
    set.add_config(reader("a"), 8);
    set.add_config(reader("b"), 8);
    set.add_config(writer("c"), 8);
    let steps: Vec<usize> = set
        .as_steps()
        .iter()
        .map(|step| match step {
            ScheduleStep::Systems(systems) => systems.len(),
            _ => 0,
        })
        .collect();
    assert_eq!(steps, vec![3]);
}

#[test]
fn full_step_is_not_joined() {
    let mut schedule = TestSchedule::default().with_max_threads(2);
    schedule.add_system(Update, reader("a"));
    schedule.add_system(Update, reader("b"));
    schedule.add_system(Update, reader("c"));
    assert_eq!(partition(schedule, UPDATE_ID), vec![vec!["a", "b"], vec!["c"]]);
}

#[test]
fn zero_threads_gives_one_system_per_step() {
    let mut schedule = TestSchedule::default().with_max_threads(0);
    schedule.add_system(Update, reader("a"));
    schedule.add_system(Update, reader("b"));
    assert_eq!(partition(schedule, UPDATE_ID), vec![vec!["a"], vec!["b"]]);
}
