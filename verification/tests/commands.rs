use sparsey::entity::{Entities, Entity};
use sparsey::system::{
    Command, CommandQueue, Commands, Deferred, ReadComp, ReadNonSend, SystemBuffer, SystemParam, SystemParamKind,
    SystemState, WorldCommand, WriteRes,
};
use sparsey::util::TypeData;
use sparsey::world::World;

const POSITION: TypeData = TypeData { id: 1 };
const SCORE: TypeData = TypeData { id: 3 };

struct AddToScore(i64);

impl Command<i64> for AddToScore {
    fn apply(self, world: &mut World<i64>) {
        let score = world.get_resource(SCORE).unwrap();
        *score = *score * 10 + self.0;
    }

    fn apply_boxed(self: Box<Self>, world: &mut World<i64>) {
        (*self).apply(world)
    }
}

#[test]
fn queue_applies_commands_in_the_order_of_pushing() {
    let mut world = World::<i64>::default();
    world.insert_resource(SCORE, 0);
    let mut queue = CommandQueue::new();
    queue.push(AddToScore(1));
    queue.push(AddToScore(2));
    queue.push(AddToScore(3));
    assert_eq!(queue.len(), 3);
    queue.apply_to(&mut world);
    assert!(queue.is_empty());
    assert_eq!(*world.get_resource(SCORE).unwrap(), 123);
    queue.apply_to(&mut world);
    assert_eq!(*world.get_resource(SCORE).unwrap(), 123);
}

#[test]
fn append_moves_the_commands_behind_those_of_the_queue() {
    let mut world = World::<i64>::default();
    world.insert_resource(SCORE, 0);
    let mut first = CommandQueue::new();
    let mut second = CommandQueue::new();
    first.push(AddToScore(1));
    second.push(AddToScore(2));
    second.push(AddToScore(3));
    first.append(&mut second);
    assert_eq!(first.len(), 3);
    assert!(second.is_empty());
    SystemBuffer::apply(&mut first, &mut world);
    assert_eq!(*world.get_resource(SCORE).unwrap(), 123);
}

#[test]
fn boxed_commands_of_different_types_share_a_queue() {
    let mut world = World::<i64>::default();
    world.insert_resource(SCORE, 0);
    let mut queue: CommandQueue<Box<dyn Command<i64>>> = CommandQueue::new();
    queue.push(Box::new(AddToScore(4)));
    queue.push(Box::new(WorldCommand::InsertResource { ty: POSITION, resource: 7 }));
    queue.push(Box::new(AddToScore(5)));
    queue.apply_to(&mut world);
    assert_eq!(*world.get_resource(SCORE).unwrap(), 45);
    assert!(world.contains_resource(POSITION));
}

#[test]
fn dropped_queue_has_no_effect() {
    let mut world = World::<i64>::default();
    world.insert_resource(SCORE, 0);
    {
        let mut queue = CommandQueue::new();
        queue.push(AddToScore(1));
    }
    assert_eq!(*world.get_resource(SCORE).unwrap(), 0);
}

#[test]
fn commands_are_held_back_until_they_are_applied() {
    let mut world = World::<i64>::default();
    world.register(POSITION);
    let kept = world.create(vec![(POSITION, 1)]);
    let doomed = world.create(vec![(POSITION, 2)]);
    let mut state = SystemState::<i64, (Commands<'static, 'static, i64>,)>::new(&mut world);
    let spawned;
    {
        let (mut commands,) = state.get_unchecked(world.as_unsafe_world_cell());
        spawned = commands.create(vec![(POSITION, 3)]);
        commands.destroy(doomed);
        commands.insert(kept, vec![(POSITION, 10)]);
        commands.delete(kept, vec![SCORE]);
        commands.insert_resource(SCORE, 5);
        commands.extend(vec![vec![], vec![(POSITION, 4)]]);
    }
    assert!(world.contains(doomed));
    assert!(!world.contains(spawned));
    assert!(!world.contains_resource(SCORE));
    assert_eq!(world.entities().len(), 2);
    state.apply(&mut world);
    assert!(!world.contains(doomed));
    assert!(world.contains(spawned));
    assert!(world.contains_resource(SCORE));
    assert_eq!(world.entities().len(), 4);
    let positions = world.borrow(POSITION).unwrap();
    assert_eq!(*positions.get(spawned).unwrap(), 3);
    assert_eq!(*positions.get(kept).unwrap(), 10);
    assert_eq!(*positions.get(Entity::new(3)).unwrap(), 4);
    assert_eq!(positions.len(), 3);
}

#[test]
fn remove_resource_command_removes_the_resource() {
    let mut world = World::<i64>::default();
    world.insert_resource(SCORE, 1);
    let mut state = SystemState::<i64, (Commands<'static, 'static, i64>,)>::new(&mut world);
    {
        let (mut commands,) = state.get_unchecked(world.as_unsafe_world_cell());
        commands.remove_resource(SCORE);
        assert!(!commands.create_atomic().is_null());
    }
    assert!(world.contains_resource(SCORE));
    state.apply(&mut world);
    assert!(!world.contains_resource(SCORE));
}

#[derive(Default)]
struct Alarm(bool);

impl SystemBuffer<i64> for Alarm {
    fn apply(&mut self, world: &mut World<i64>) {
        if self.0 {
            *world.get_resource(SCORE).unwrap() = 1;
        }
    }
}

#[test]
fn deferred_buffer_is_applied_with_the_state() {
    let mut world = World::<i64>::default();
    world.insert_resource(SCORE, 0);
    let mut state = SystemState::<i64, (Deferred<'static, Alarm>,)>::new(&mut world);
    {
        let (mut alarm,) = state.get(&world);
        alarm.reborrow().get_mut().0 = true;
        assert!(alarm.get().0);
    }
    assert_eq!(*world.get_resource(SCORE).unwrap(), 0);
    state.apply(&mut world);
    assert_eq!(*world.get_resource(SCORE).unwrap(), 1);
}

#[test]
fn tuple_of_parameters_has_the_kinds_of_its_members_in_order() {
    let mut kinds = Vec::new();
    <(ReadComp<1>, WriteRes<2>, Entities<'static>) as SystemParam<i64>>::param_kinds(&mut kinds);
    assert_eq!(
        kinds,
        vec![
            SystemParamKind::Comp(TypeData::new(1)),
            SystemParamKind::ResMut(TypeData::new(2)),
            SystemParamKind::Entities
        ]
    );
    assert!(<(ReadComp<1>, WriteRes<2>) as SystemParam<i64>>::send());
    assert!(!<(ReadComp<1>, ReadNonSend<2>) as SystemParam<i64>>::send());
    assert!(<() as SystemParam<i64>>::send());
}
