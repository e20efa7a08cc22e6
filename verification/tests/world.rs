use sparsey::entity::{entity_for, Entity, GroupLayout, ATOMIC_BASE, NULL_INDEX};
use sparsey::util::TypeData;
use sparsey::world::World;

const POSITION: TypeData = TypeData { id: 1 };
const VELOCITY: TypeData = TypeData { id: 2 };
const SCORE: TypeData = TypeData { id: 3 };

fn world() -> World<i64> {
    let mut layout = GroupLayout::new();
    layout.add_family(vec![POSITION, VELOCITY]);
    World::new(&layout)
}

#[test]
fn new_world_registers_the_types_of_its_layout() {
    let world = world();
    assert!(world.is_empty());
    assert!(world.is_registered(POSITION));
    assert!(world.is_registered(VELOCITY));
    assert!(!world.is_registered(SCORE));
}

#[test]
fn register_reports_new_types_only() {
    let mut world = World::<i64>::default();
    assert!(world.register(POSITION));
    assert!(!world.register(POSITION));
    assert!(world.is_registered(POSITION));
}

#[test]
fn set_layout_keeps_registered_types() {
    let mut world = World::<i64>::default();
    world.register(SCORE);
    let mut layout = GroupLayout::new();
    layout.add_family(vec![POSITION]);
    layout.add_family(vec![VELOCITY, POSITION]);
    world.set_layout(&layout);
    assert!(world.is_registered(SCORE));
    assert!(world.is_registered(POSITION));
    assert!(world.is_registered(VELOCITY));
}

#[test]
fn created_entities_count_up_from_zero() {
    let mut world = world();
    let first = world.create(vec![(POSITION, 10)]);
    let second = world.create(vec![(POSITION, 20), (VELOCITY, 2)]);
    assert_eq!(first, Entity::new(0));
    assert_eq!(second, Entity::new(1));
    assert_eq!(world.entities(), &[first, second]);
    assert!(world.contains(first));
    assert!(!world.contains(Entity::new(2)));
    let positions = world.borrow(POSITION).unwrap();
    assert_eq!(positions.len(), 2);
    assert_eq!(*positions.get(second).unwrap(), 20);
    let velocities = world.borrow(VELOCITY).unwrap();
    assert!(!velocities.contains(first));
    assert_eq!(*velocities.get(second).unwrap(), 2);
}

#[test]
fn create_leaves_out_components_when_a_type_is_not_registered() {
    let mut world = world();
    let entity = world.create(vec![(POSITION, 1), (SCORE, 5)]);
    assert!(world.contains(entity));
    assert!(!world.borrow(POSITION).unwrap().contains(entity));
    assert!(world.borrow(SCORE).is_none());
}

#[test]
fn extend_creates_one_entity_for_each_set() {
    let mut world = world();
    let created = world.extend(vec![vec![(POSITION, 1)], vec![], vec![(VELOCITY, 3)]]);
    assert_eq!(created, vec![Entity::new(0), Entity::new(1), Entity::new(2)]);
    assert_eq!(world.entities().len(), 3);
    assert_eq!(world.borrow(POSITION).unwrap().len(), 1);
    assert_eq!(world.borrow(VELOCITY).unwrap().entity_at(0), Entity::new(2));
}

#[test]
fn insert_replaces_and_adds_components() {
    let mut world = world();
    let entity = world.create(vec![(POSITION, 1)]);
    assert!(world.insert(entity, vec![(POSITION, 7), (VELOCITY, 9)]));
    assert_eq!(*world.borrow(POSITION).unwrap().get(entity).unwrap(), 7);
    assert_eq!(*world.borrow(VELOCITY).unwrap().get(entity).unwrap(), 9);
    assert_eq!(world.borrow(POSITION).unwrap().len(), 1);
}

#[test]
fn insert_fails_for_absent_entity_or_unregistered_type() {
    let mut world = world();
    let entity = world.create(vec![]);
    assert!(!world.insert(Entity::new(9), vec![(POSITION, 1)]));
    assert!(!world.insert(entity, vec![(POSITION, 1), (SCORE, 1)]));
    assert!(!world.borrow(POSITION).unwrap().contains(entity));
}

#[test]
fn remove_returns_the_components_that_were_there() {
    let mut world = world();
    let entity = world.create(vec![(POSITION, 4)]);
    let removed = world.remove(entity, &vec![POSITION, VELOCITY, POSITION, SCORE]);
    assert_eq!(removed, vec![Some(4), None, None, None]);
    assert!(!world.borrow(POSITION).unwrap().contains(entity));
    assert!(world.contains(entity));
}

#[test]
fn delete_removes_components_only() {
    let mut world = world();
    let entity = world.create(vec![(POSITION, 4), (VELOCITY, 5)]);
    world.delete(entity, &vec![VELOCITY]);
    assert!(world.borrow(POSITION).unwrap().contains(entity));
    assert!(!world.borrow(VELOCITY).unwrap().contains(entity));
}

#[test]
fn destroy_removes_the_entity_and_its_components() {
    let mut world = world();
    let first = world.create(vec![(POSITION, 1)]);
    let second = world.create(vec![(POSITION, 2)]);
    assert!(world.destroy(first));
    assert!(!world.destroy(first));
    assert_eq!(world.entities(), &[second]);
    let positions = world.borrow(POSITION).unwrap();
    assert!(!positions.contains(first));
    assert_eq!(*positions.get(second).unwrap(), 2);
}

#[test]
fn atomic_entities_join_the_storage_on_maintain() {
    let mut world = world();
    let plain = world.create(vec![]);
    let first = world.create_atomic();
    let second = world.borrow_entities().create_atomic();
    assert_eq!(first.index(), ATOMIC_BASE);
    assert_eq!(second.index(), ATOMIC_BASE + 1);
    assert!(!first.is_null());
    assert!(!world.contains(first));
    world.maintain();
    assert_eq!(world.entities(), &[plain, first, second]);
    world.maintain();
    assert_eq!(world.entities().len(), 3);
    assert_eq!(world.create_atomic().index(), ATOMIC_BASE + 2);
    assert!(Entity::new(NULL_INDEX).is_null());
}

#[test]
fn drawn_numbers_give_entities_of_the_shared_range() {
    assert_eq!(entity_for(ATOMIC_BASE, 0), Entity::new(ATOMIC_BASE));
    assert_eq!(entity_for(ATOMIC_BASE + 5, 7), Entity::new(ATOMIC_BASE + 12));
    assert_ne!(entity_for(ATOMIC_BASE, 3), entity_for(ATOMIC_BASE, 4));
    assert_eq!(entity_for(ATOMIC_BASE, NULL_INDEX - ATOMIC_BASE - 1), Entity::new(NULL_INDEX - 1));
    assert!(entity_for(ATOMIC_BASE, NULL_INDEX - ATOMIC_BASE).is_null());
    assert!(entity_for(NULL_INDEX, 0).is_null());
    let world = world();
    let first = world.create_atomic();
    let second = world.create_atomic();
    assert_ne!(first, second);
}

#[test]
fn add_reserved_adds_the_next_entities_of_the_shared_range() {
    let mut world = world();
    world.entities.add_reserved(2);
    assert_eq!(world.entities(), &[Entity::new(ATOMIC_BASE), Entity::new(ATOMIC_BASE + 1)]);
    world.entities.add_reserved(0);
    assert_eq!(world.entities().len(), 2);
    world.entities.add_reserved(1);
    assert_eq!(world.entities()[2], Entity::new(ATOMIC_BASE + 2));
    assert_eq!(world.create_atomic().index(), ATOMIC_BASE + 3);
}

#[test]
fn clear_keeps_the_allocator_and_reset_does_not() {
    let mut world = world();
    world.create(vec![(POSITION, 1)]);
    world.insert_resource(SCORE, 3);
    world.insert_non_send(SCORE, 4);
    let pending = world.create_atomic();
    world.clear();
    world.maintain();
    assert!(world.is_empty());
    assert!(world.create_atomic().index() > pending.index());
    world.maintain();
    world.clear();
    assert!(world.is_registered(POSITION));
    assert_eq!(world.borrow(POSITION).unwrap().len(), 0);
    assert_eq!(world.create(vec![]), Entity::new(1));
    world.reset();
    assert!(world.is_empty());
    assert_eq!(world.create(vec![]), Entity::new(0));
}

#[test]
fn resources_are_stored_once_for_each_type() {
    let mut world = World::<i64>::default();
    assert!(!world.contains_resource(SCORE));
    assert_eq!(world.insert_resource(SCORE, 3), None);
    assert_eq!(world.insert_resource(SCORE, 4), Some(3));
    assert!(world.contains_resource(SCORE));
    assert!(!world.contains_non_send(SCORE));
    assert_eq!(*world.try_resource(SCORE).unwrap().get(), 4);
    *world.get_resource(SCORE).unwrap() += 1;
    assert_eq!(world.remove_resource(SCORE), Some(5));
    assert_eq!(world.remove_resource(SCORE), None);
    assert!(world.get_resource(SCORE).is_none());
    assert!(world.try_resource(SCORE).is_none());
}

#[test]
fn non_send_resources_are_kept_apart() {
    let mut world = World::<i64>::default();
    assert_eq!(world.insert_non_send(SCORE, 8), None);
    assert!(world.contains_non_send(SCORE));
    assert!(!world.contains_resource(SCORE));
    *world.try_non_send_mut(SCORE).unwrap().get_mut() = 9;
    assert_eq!(*world.try_non_send(SCORE).unwrap().get(), 9);
    assert_eq!(world.remove_non_send(SCORE), Some(9));
    assert!(world.is_empty());
}

#[test]
fn init_resource_uses_the_default_value() {
    let mut world = World::<i64>::default();
    assert_eq!(world.init_resource(SCORE), None);
    assert_eq!(world.init_resource(SCORE), Some(0));
    assert_eq!(world.init_non_send(SCORE), None);
    assert_eq!(*world.try_non_send(SCORE).unwrap().get(), 0);
}

#[test]
fn exclusive_borrow_excludes_every_other_borrow() {
    let mut world = world();
    world.insert_resource(SCORE, 1);
    {
        let writer = world.try_resource_mut(SCORE);
        assert!(writer.is_some());
        assert!(world.try_resource(SCORE).is_none());
        assert!(world.try_resource_mut(SCORE).is_none());
    }
    {
        let first = world.try_resource(SCORE);
        let second = world.try_resource(SCORE);
        assert!(first.is_some() && second.is_some());
        assert!(world.try_resource_mut(SCORE).is_none());
    }
    assert!(world.try_resource_mut(SCORE).is_some());
    {
        let view = world.borrow_mut(POSITION);
        assert!(view.is_some());
        assert!(world.borrow(POSITION).is_none());
        assert!(world.borrow(VELOCITY).is_some());
    }
    assert!(world.borrow(POSITION).is_some());
}

#[test]
fn exclusive_view_changes_component_values() {
    let mut world = world();
    let entity = world.create(vec![(POSITION, 1)]);
    {
        let mut positions = world.borrow_mut(POSITION).unwrap();
        *positions.get_mut(entity).unwrap() += 41;
        assert!(positions.get_mut(Entity::new(5)).is_none());
    }
    assert_eq!(*world.borrow(POSITION).unwrap().get(entity).unwrap(), 42);
}

#[test]
fn unsafe_world_cell_reaches_the_storages() {
    let mut world = world();
    let entity = world.create(vec![(POSITION, 1)]);
    world.insert_resource(SCORE, 2);
    let cell = world.as_unsafe_world_cell();
    assert!(cell.entities().contains(entity));
    assert!(cell.resources().contains(SCORE));
    assert!(cell.non_send_resources().is_empty());
    assert!(cell.duplicate().world().contains(entity));
}

#[test]
fn leaked_guard_costs_the_value_and_nothing_else() {
    let mut world = world();
    world.insert_resource(SCORE, 1);
    std::mem::forget(world.try_resource_mut(SCORE));
    assert!(world.get_resource(SCORE).is_none());
    assert_eq!(world.insert_resource(SCORE, 2), None);
    assert_eq!(*world.try_resource(SCORE).unwrap().get(), 2);
    std::mem::forget(world.try_resource(SCORE));
    assert_eq!(world.remove_resource(SCORE), None);
    assert!(!world.contains_resource(SCORE));
    let entity = world.create(vec![(POSITION, 3)]);
    std::mem::forget(world.borrow(POSITION).unwrap().get(entity));
    assert_eq!(world.remove(entity, &[POSITION]), vec![None]);
    assert!(!world.borrow(POSITION).unwrap().contains(entity));
    assert!(world.destroy(entity));
}
