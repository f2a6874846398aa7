use tileworld::components::{Player, Transform};
use tileworld::events::{Force, Key};
use tileworld::fixed::Fixed;
use tileworld::input::{direction, InputMode, InputSys, STEP};
use tileworld::storage::Entity;
use tileworld::world::{Component, EntityBuilder, World};

fn at(x: i64, y: i64) -> Transform {
    Transform { x: Fixed::from_units(x), y: Fixed::from_units(y) }
}

fn world_with_player_at(x: i64, y: i64) -> World {
    let mut world = World::new();
    world.create_entity(
        EntityBuilder::new().with(Component::Transform(at(x, y))).with(Component::Player(Player)),
    );
    world
}

fn unit(x: i64, y: i64) -> Force {
    Force { x: Fixed::from_units(x), y: Fixed::from_units(y) }
}

#[test]
fn the_four_direction_keys_have_a_direction() {
    assert_eq!(direction(Key::Left), Some((-1, 0)));
    assert_eq!(direction(Key::Right), Some((1, 0)));
    assert_eq!(direction(Key::Up), Some((0, -1)));
    assert_eq!(direction(Key::Down), Some((0, 1)));
    assert_eq!(direction(Key::Other), None);
    assert_eq!(STEP, 64);
}

#[test]
fn a_left_key_press_moves_the_player_one_step_left() {
    let mut world = world_with_player_at(0, 0);
    let player = Entity { id: 0 };
    world.push_key_press(Key::Left);
    world.run_input(&InputSys::new(InputMode::Step));
    let moved = world.transform(player).unwrap();
    assert_eq!(moved, at(-64, 0));
    assert_eq!(moved.x.micros as f64 / 1_000_000.0, -64.0);
    assert_eq!(moved.y.micros as f64 / 1_000_000.0, 0.0);
    assert_eq!(world.key_presses_waiting(), 0);
}

#[test]
fn each_direction_key_steps_its_own_way() {
    let mut world = world_with_player_at(10, 20);
    let player = Entity { id: 0 };
    let input = InputSys::new(InputMode::Step);
    world.push_key_press(Key::Right);
    world.run_input(&input);
    assert_eq!(world.transform(player), Some(at(74, 20)));
    world.push_key_press(Key::Down);
    world.run_input(&input);
    assert_eq!(world.transform(player), Some(at(74, 84)));
    world.push_key_press(Key::Up);
    world.run_input(&input);
    assert_eq!(world.transform(player), Some(at(74, 20)));
    world.push_key_press(Key::Left);
    world.run_input(&input);
    assert_eq!(world.transform(player), Some(at(10, 20)));
}

#[test]
fn one_run_takes_one_key_press_and_the_oldest_first() {
    let mut world = world_with_player_at(0, 0);
    let player = Entity { id: 0 };
    let input = InputSys::new(InputMode::Step);
    world.push_key_press(Key::Left);
    world.push_key_press(Key::Down);
    world.push_key_press(Key::Down);
    world.run_input(&input);
    assert_eq!(world.key_presses_waiting(), 2);
    assert_eq!(world.transform(player), Some(at(-64, 0)));
    world.run_input(&input);
    assert_eq!(world.key_presses_waiting(), 1);
    assert_eq!(world.transform(player), Some(at(-64, 64)));
    world.run_input(&input);
    assert_eq!(world.key_presses_waiting(), 0);
    assert_eq!(world.transform(player), Some(at(-64, 128)));
}

#[test]
fn without_a_key_press_the_input_system_changes_nothing() {
    let mut world = world_with_player_at(3, 4);
    let player = Entity { id: 0 };
    world.run_input(&InputSys::new(InputMode::Step));
    world.run_input(&InputSys::new(InputMode::Force));
    assert_eq!(world.transform(player), Some(at(3, 4)));
    assert_eq!(world.forces_of(player), vec![]);
    assert_eq!(world.key_presses_waiting(), 0);
    assert_eq!(world.commands_waiting(), 0);
    assert!(world.is_player(player));
}

#[test]
fn an_unknown_key_is_taken_and_does_nothing() {
    let mut world = world_with_player_at(3, 4);
    let player = Entity { id: 0 };
    world.push_key_press(Key::Other);
    world.push_key_press(Key::Other);
    world.run_input(&InputSys::new(InputMode::Step));
    assert_eq!(world.key_presses_waiting(), 1);
    assert_eq!(world.transform(player), Some(at(3, 4)));
    world.run_input(&InputSys::new(InputMode::Force));
    assert_eq!(world.key_presses_waiting(), 0);
    assert_eq!(world.forces_of(player), vec![]);
}

#[test]
fn only_players_are_moved() {
    let mut world = World::new();
    world.create_entity(EntityBuilder::new().with(Component::Transform(at(1, 1))));
    world.create_entity(
        EntityBuilder::new().with(Component::Transform(at(2, 2))).with(Component::Player(Player)),
    );
    world.create_entity(EntityBuilder::new().with(Component::Player(Player)));
    world.create_entity(
        EntityBuilder::new().with(Component::Transform(at(4, 4))).with(Component::Player(Player)),
    );
    world.push_key_press(Key::Right);
    world.run_input(&InputSys::new(InputMode::Step));
    assert_eq!(world.transform(Entity { id: 0 }), Some(at(1, 1)));
    assert_eq!(world.transform(Entity { id: 1 }), Some(at(66, 2)));
    assert_eq!(world.transform(Entity { id: 2 }), None);
    assert_eq!(world.transform(Entity { id: 3 }), Some(at(68, 4)));
}

#[test]
fn a_step_saturates_at_the_end_of_the_range() {
    let mut world = World::new();
    let far = Transform { x: Fixed::from_micros(i64::MAX - 5), y: Fixed::from_micros(i64::MIN) };
    world.create_entity(
        EntityBuilder::new().with(Component::Transform(far)).with(Component::Player(Player)),
    );
    let input = InputSys::new(InputMode::Step);
    world.push_key_press(Key::Right);
    world.run_input(&input);
    world.push_key_press(Key::Up);
    world.run_input(&input);
    let moved = world.transform(Entity { id: 0 }).unwrap();
    assert_eq!(moved.x.micros, i64::MAX);
    assert_eq!(moved.y.micros, i64::MIN);
}

#[test]
fn in_force_mode_a_key_press_records_a_unit_force() {
    let mut world = world_with_player_at(5, 5);
    world.create_entity(EntityBuilder::new().with(Component::Transform(at(1, 1))));
    world.create_entity(EntityBuilder::new().with(Component::Player(Player)));
    let input = InputSys::new(InputMode::Force);
    world.push_key_press(Key::Left);
    world.push_key_press(Key::Down);
    world.push_key_press(Key::Up);
    world.push_key_press(Key::Right);
    world.run_input(&input);
    assert_eq!(world.forces_of(Entity { id: 0 }), vec![unit(-1, 0)]);
    assert_eq!(world.forces_of(Entity { id: 1 }), vec![]);
    assert_eq!(world.forces_of(Entity { id: 2 }), vec![unit(-1, 0)]);
    assert_eq!(world.transform(Entity { id: 0 }), Some(at(5, 5)));
    world.run_input(&input);
    world.run_input(&input);
    world.run_input(&input);
    assert_eq!(
        world.forces_of(Entity { id: 0 }),
        vec![unit(-1, 0), unit(0, 1), unit(0, -1), unit(1, 0)]
    );
    assert_eq!(world.key_presses_waiting(), 0);
}
