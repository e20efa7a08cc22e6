use sparsey::entity::{Comp, CompMut};
use sparsey::resource::{NonSend, NonSendMut, ResMut};
use sparsey::schedule::label::UPDATE_ID;
use sparsey::schedule::{Condition, IntoConfig, Schedule, ScheduleStep, SystemConfig, Update};
use sparsey::system::{
    run_system, BoxedCondition, BoxedSystem, ExclusiveSystem, ExclusiveSystemParamFunction, FunctionSystem,
    IntoSystem, Local, ReadComp, ReadNonSend, ReadonlySystem, Run, System, SystemParamFunction, SystemParamKind,
    WriteComp, WriteNonSend, WriteRes,
};
use sparsey::util::TypeData;
use sparsey::world::World;

const POSITION: u64 = 1;
const VELOCITY: u64 = 2;
const LAVA: u64 = 3;
const FALLEN: u64 = 4;

type TestSchedule = Schedule<i64, BoxedSystem<i64>, BoxedCondition<i64>>;
type TestConfig = SystemConfig<i64, BoxedSystem<i64>, BoxedCondition<i64>>;

struct Move;

impl SystemParamFunction<i64> for Move {
    type In = ();
    type Out = usize;
    type Param = (WriteComp<POSITION>, ReadComp<VELOCITY>);

    fn run(&mut self, _: (), (positions, velocities): (Option<CompMut<'_, i64>>, Option<Comp<'_, i64>>)) -> usize {
        let mut positions = positions.expect("positions are registered");
        let velocities = velocities.expect("velocities are registered");
        let mut moved = 0;
        for index in 0..velocities.len() {
            let entity = velocities.entity_at(index);
            let velocity = *velocities.get(entity).unwrap();
            if let Some(mut position) = positions.get_mut(entity) {
                *position += velocity;
                moved += 1;
            }
        }
        moved
    }
}

struct RaiseLava;

impl SystemParamFunction<i64> for RaiseLava {
    type In = ();
    type Out = ();
    type Param = (WriteNonSend<LAVA>,);

    fn run(&mut self, _: (), (lava,): (Option<NonSendMut<'_, i64>>,)) {
        *lava.expect("the lava is a resource of the world").get_mut() += 2;
    }
}

struct CountFallen;

impl SystemParamFunction<i64> for CountFallen {
    type In = ();
    type Out = ();
    type Param = (ReadComp<POSITION>, ReadNonSend<LAVA>, WriteRes<FALLEN>);

    fn run(
        &mut self,
        _: (),
        (positions, lava, fallen): (Option<Comp<'_, i64>>, Option<NonSend<'_, i64>>, Option<ResMut<'_, i64>>),
    ) {
        let positions = positions.unwrap();
        let lava = lava.unwrap();
        let mut fallen = fallen.unwrap();
        let mut count = 0;
        for index in 0..positions.len() {
            if *positions.get(positions.entity_at(index)).unwrap() < *lava.get() {
                count += 1;
            }
        }
        *fallen.get_mut() = count;
    }
}

struct Double;

impl SystemParamFunction<i64> for Double {
    type In = i64;
    type Out = i64;
    type Param = ();

    fn run(&mut self, input: i64, _: ()) -> i64 {
        input * 2
    }
}

struct Always(bool);

impl SystemParamFunction<i64> for Always {
    type In = ();
    type Out = bool;
    type Param = ();

    fn run(&mut self, _: (), _: ()) -> bool {
        self.0
    }
}

struct CountCalls;

impl ExclusiveSystemParamFunction<i64> for CountCalls {
    type In = ();
    type Out = usize;
    type Params = (Local<'static, usize>,);

    fn run(&mut self, world: &mut World<i64>, _: (), (mut calls,): (Local<'_, usize>,)) -> usize {
        world.create(Vec::new());
        calls.set(*calls.get() + 1);
        *calls.get()
    }
}

struct Idle;

impl ExclusiveSystemParamFunction<i64> for Idle {
    type In = ();
    type Out = ();
    type Params = ();

    fn run(&mut self, _: &mut World<i64>, _: (), _: ()) {}
}

fn boxed<F: SystemParamFunction<i64, In = (), Out = ()>>(function: F, name: &'static str) -> TestConfig {
    let system: BoxedSystem<i64> = Box::new(FunctionSystem::new(function).named(name));
    SystemConfig::new(system)
}

fn exclusive(name: &'static str) -> TestConfig {
    let system: BoxedSystem<i64> = Box::new(ExclusiveSystem::new(Idle).named(name));
    SystemConfig::new(system)
}

fn kinds_of_steps(schedule: TestSchedule) -> Vec<String> {
    let sets = schedule.into_sets();
    let mut out = Vec::new();
    for step in sets.get(&UPDATE_ID).unwrap().as_steps() {
        out.push(match step {
            ScheduleStep::Systems(systems) => format!("parallel {:?}", names(systems)),
            ScheduleStep::LocalSystems(systems) => format!("local {:?}", names(systems)),
            ScheduleStep::ExclusiveSystems(systems) => format!("exclusive {:?}", names(systems)),
            ScheduleStep::Barrier => String::from("barrier"),
        });
    }
    out
}

fn names(systems: &[TestConfig]) -> Vec<&'static str> {
    systems.iter().map(|system| system.name()).collect()
}

#[test]
fn run_on_a_world_initializes_runs_and_applies() {
    let mut world = World::<i64>::default();
    world.register(TypeData::new(POSITION));
    world.register(TypeData::new(VELOCITY));
    let still = world.create(vec![(TypeData::new(POSITION), 5)]);
    let moving = world.create(vec![(TypeData::new(POSITION), 5), (TypeData::new(VELOCITY), 3)]);
    assert_eq!(world.run(Move), 1);
    assert_eq!(world.run(Move), 1);
    let positions = world.borrow(TypeData::new(POSITION)).unwrap();
    assert_eq!(*positions.get(still).unwrap(), 5);
    assert_eq!(*positions.get(moving).unwrap(), 11);
}

#[test]
fn run_with_hands_the_input_to_the_system() {
    let mut world = World::<i64>::default();
    assert_eq!(world.run_with(21, Double), 42);
    assert_eq!(run_system(&mut world, 4, FunctionSystem::new(Double)), 8);
}

#[test]
fn function_system_declares_kinds_in_the_order_of_its_parameters() {
    let system = Move.into_system();
    assert_eq!(
        System::<i64, (), usize>::param_kinds(&system),
        &[SystemParamKind::CompMut(TypeData::new(POSITION)), SystemParamKind::Comp(TypeData::new(VELOCITY))]
    );
    assert_eq!(System::<i64, (), usize>::name(&system), "system");
}

#[test]
fn systems_are_named_as_they_were_told() {
    let plain = FunctionSystem::<i64, Double>::new(Double);
    assert_eq!(plain.name(), "system");
    assert_eq!(plain.named("double").name(), "double");
    let exclusive = ExclusiveSystem::<i64, Idle>::new(Idle);
    assert_eq!(exclusive.name(), "exclusive system");
    let boxed: BoxedSystem<i64> = Box::new(ExclusiveSystem::new(Idle).named("idle"));
    assert_eq!(boxed.name(), "idle");
    assert_eq!(SystemConfig::<i64, BoxedSystem<i64>, BoxedCondition<i64>>::new(boxed).name(), "idle");
}

#[test]
fn system_with_a_thread_bound_parameter_is_thread_local() {
    let system = FunctionSystem::<i64, CountFallen>::new(CountFallen);
    assert!(system.is_thread_local());
    assert!(!system.is_exclusive());
    let system = ExclusiveSystem::<i64, Idle>::new(Idle);
    assert!(system.is_exclusive());
    assert!(!system.is_thread_local());
    assert!(system.param_kinds().is_empty());
}

#[test]
fn thread_local_and_exclusive_systems_get_steps_of_their_own() {
    let mut schedule = TestSchedule::default();
    schedule.add_system(Update, boxed(Always(true).discard(), "a"));
    schedule.add_system(Update, boxed(RaiseLava, "lava"));
    schedule.add_system(Update, boxed(CountFallen, "fallen"));
    schedule.add_system(Update, exclusive("x"));
    schedule.add_system(Update, exclusive("y"));
    schedule.add_system(Update, boxed(Always(true).discard(), "b"));
    schedule.add_system(Update, boxed(Always(true).discard(), "c"));
    schedule.add_system(Update, exclusive("z"));
    assert_eq!(
        kinds_of_steps(schedule),
        vec![
            "parallel [\"a\"]",
            "barrier",
            "local [\"lava\", \"fallen\"]",
            "exclusive [\"x\", \"y\"]",
            "parallel [\"b\", \"c\"]",
            "barrier",
            "exclusive [\"z\"]",
        ]
    );
}

#[test]
fn local_systems_run_in_order_on_a_maintained_world() {
    let mut world = World::<i64>::default();
    world.register(TypeData::new(POSITION));
    world.insert_non_send(TypeData::new(LAVA), 0);
    world.insert_resource(TypeData::new(FALLEN), 0);
    for height in 0..6 {
        world.create(vec![(TypeData::new(POSITION), height)]);
    }
    let mut schedule = TestSchedule::default();
    schedule.add_system(Update, boxed(RaiseLava, "lava"));
    schedule.add_system(Update, boxed(CountFallen, "fallen"));
    schedule.initialize(&mut world);
    schedule.run(&mut world);
    assert_eq!(*world.get_resource(TypeData::new(FALLEN)).unwrap(), 2);
    schedule.run(&mut world);
    assert_eq!(*world.get_resource(TypeData::new(FALLEN)).unwrap(), 4);
}

#[test]
fn exclusive_system_keeps_local_state() {
    let mut world = World::<i64>::default();
    let mut system = CountCalls.into_system();
    system.initialize(&mut world);
    assert_eq!(system.run((), &mut world), 1);
    assert_eq!(system.run((), &mut world), 2);
    system.apply_deferred(&mut world);
    assert_eq!(world.entities().len(), 2);
}

#[test]
fn condition_is_a_read_only_system() {
    let mut world = World::<i64>::default();
    let mut condition = Condition::<i64, _>::into_condition(Always(false));
    condition.initialize(&mut world);
    assert!(!condition.run_readonly((), &world));
    let mut boxed: BoxedCondition<i64> = Box::new(FunctionSystem::new(Always(true)));
    boxed.initialize(&mut world);
    assert!(boxed.run_readonly((), &world));
    assert!(!boxed.is_exclusive());
}

#[test]
fn run_if_converts_and_attaches_the_condition() {
    let mut world = World::<i64>::default();
    let no: BoxedCondition<i64> = Box::new(FunctionSystem::new(Always(false)));
    let system: BoxedSystem<i64> = Box::new(ExclusiveSystem::new(Idle));
    let mut gated: TestConfig = IntoConfig::run_if(system, no);
    gated.initialize(&mut world);
    assert!(!gated.run(&mut world));
    let yes: BoxedCondition<i64> = Box::new(FunctionSystem::new(Always(true)));
    let mut twice: TestConfig = IntoConfig::run_if(exclusive("x"), yes);
    twice.initialize(&mut world);
    assert!(twice.run(&mut world));
    assert!(twice.is_ready());
}

#[test]
fn conditions_must_all_hold() {
    let mut world = World::<i64>::default();
    let yes: BoxedCondition<i64> = Box::new(FunctionSystem::new(Always(true)));
    let no: BoxedCondition<i64> = Box::new(FunctionSystem::new(Always(false)));
    let also: BoxedCondition<i64> = Box::new(FunctionSystem::new(Always(true)));
    let mut both = exclusive("x").run_if(yes).run_if(also);
    both.initialize(&mut world);
    assert!(both.should_run(&world));
    assert!(both.run(&mut world));
    let mut mixed = both.run_if(no);
    mixed.initialize(&mut world);
    assert!(!mixed.should_run(&world));
    assert!(!mixed.run(&mut world));
    let mut plain: TestConfig = exclusive("y").into_config();
    plain.initialize(&mut world);
    assert!(plain.should_run(&world));
}

trait Discard: Sized {
    fn discard(self) -> Discarded<Self>;
}

impl<F: SystemParamFunction<i64, In = ()>> Discard for F {
    fn discard(self) -> Discarded<Self> {
        Discarded(self)
    }
}

struct Discarded<F>(F);

impl<F: SystemParamFunction<i64, In = ()>> SystemParamFunction<i64> for Discarded<F> {
    type In = ();
    type Out = ();
    type Param = F::Param;

    fn run(&mut self, _: (), param: <F::Param as sparsey::system::SystemParam<i64>>::Item<'_, '_>) {
        self.0.run((), param);
    }
}
