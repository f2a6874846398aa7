use tileworld::bodies::BodyHandle;
use tileworld::components::{ComponentKind, Player, RigidBodyDescriptor, Transform};
use tileworld::events::{Force, Key, RenderArgs};
use tileworld::fixed::Fixed;
use tileworld::input::{InputMode, InputSys};
use tileworld::physics::{
    combine_rule, gravity, BodyRequest, BodyState, CombineRule, Impulse, PhysicsSys, TIME_SCALE,
};
use tileworld::storage::Entity;
use tileworld::world::{Component, EntityBuilder, World};

fn at(x: i64, y: i64) -> Transform {
    Transform { x: Fixed::from_units(x), y: Fixed::from_units(y) }
}

fn heavy_box() -> RigidBodyDescriptor {
    RigidBodyDescriptor {
        half_width: Fixed::from_micros(500_000),
        half_height: Fixed::from_micros(500_000),
        density: Some(Fixed::from_units(1)),
        restitution: Fixed::from_micros(300_000),
        friction: Fixed::from_micros(600_000),
    }
}

fn frame_request(micros: i64) -> RenderArgs {
    RenderArgs {
        ext_dt: Fixed::from_micros(micros),
        window_width: Fixed::from_units(960),
        window_height: Fixed::from_units(640),
        draw_width: 960,
        draw_height: 640,
    }
}

fn body_at(x: i64, y: i64) -> EntityBuilder {
    EntityBuilder::new()
        .with(Component::Transform(at(x, y)))
        .with(Component::RigidBody(heavy_box()))
}

fn handle(index: u64) -> BodyHandle {
    BodyHandle { index }
}

fn state(index: u64, x: i64, y: i64) -> BodyState {
    BodyState { handle: handle(index), x: Fixed::from_micros(x), y: Fixed::from_micros(y) }
}

#[test]
fn the_policy_of_the_simulation_is_fixed() {
    assert_eq!(TIME_SCALE, 2);
    assert_eq!(combine_rule(), CombineRule::Average);
    assert_eq!(gravity(), Force { x: Fixed::zero(), y: Fixed::from_micros(9_810_000) });
    assert_eq!(gravity().y.micros as f64 / 1_000_000.0, 9.81);
}

#[test]
fn without_a_render_request_the_physics_system_does_nothing() {
    let mut world = World::new();
    world.create_entity(body_at(1, 2));
    let mut physics = PhysicsSys::new();
    assert_eq!(world.prepare_physics(&mut physics), None);
    assert!(!physics.is_stepping());
    assert_eq!(physics.body_count(), 0);
    assert_eq!(world.commands_waiting(), 0);
    assert_eq!(world.body(Entity { id: 0 }), Some(heavy_box()));
    assert_eq!(world.finish_physics(&mut physics, &vec![state(0, 5, 5)]), vec![]);
    assert_eq!(world.transform(Entity { id: 0 }), Some(at(1, 2)));
}

#[test]
fn entities_with_transform_and_descriptor_get_a_body() {
    let mut world = World::new();
    world.create_entity(body_at(1, 2));
    world.create_entity(EntityBuilder::new().with(Component::Transform(at(3, 3))));
    world.create_entity(EntityBuilder::new().with(Component::RigidBody(heavy_box())));
    world.create_entity(body_at(-4, 5));
    world.push_render_event(frame_request(16_000));
    let mut physics = PhysicsSys::new();
    let request = world.prepare_physics(&mut physics).unwrap();
    assert_eq!(
        request.create,
        vec![
            BodyRequest {
                handle: handle(0),
                entity: Entity { id: 0 },
                x: Fixed::from_units(1),
                y: Fixed::from_units(2),
                descriptor: heavy_box(),
            },
            BodyRequest {
                handle: handle(1),
                entity: Entity { id: 3 },
                x: Fixed::from_units(-4),
                y: Fixed::from_units(5),
                descriptor: heavy_box(),
            },
        ]
    );
    assert_eq!(request.retire, vec![]);
    assert_eq!(request.impulses, vec![]);
    assert!(physics.is_stepping());
    assert_eq!(physics.body_count(), 2);
    assert_eq!(physics.entity_of(handle(1)), Some(Entity { id: 3 }));
    assert_eq!(physics.handle_of(Entity { id: 0 }), Some(handle(0)));
    assert_eq!(physics.handle_of(Entity { id: 1 }), None);
    assert_eq!(physics.handle_of(Entity { id: 2 }), None);
}

#[test]
fn the_step_is_twice_the_elapsed_time_and_the_request_stays_queued() {
    let mut world = World::new();
    world.push_render_event(frame_request(16_667));
    world.push_render_event(frame_request(99_000));
    let mut physics = PhysicsSys::new();
    let request = world.prepare_physics(&mut physics).unwrap();
    assert_eq!(request.dt, Fixed::from_micros(33_334));
    assert_eq!(world.render_events_waiting(), 2);
}

#[test]
fn the_descriptor_is_removed_at_the_flush_and_not_before() {
    let mut world = World::new();
    world.create_entity(body_at(1, 2));
    world.push_render_event(frame_request(16_000));
    let mut physics = PhysicsSys::new();
    world.prepare_physics(&mut physics);
    assert_eq!(world.body(Entity { id: 0 }), Some(heavy_box()));
    assert_eq!(world.commands_waiting(), 1);
    world.finish_physics(&mut physics, &vec![]);
    world.flush();
    assert_eq!(world.body(Entity { id: 0 }), None);
    assert_eq!(world.transform(Entity { id: 0 }), Some(at(1, 2)));
}

#[test]
fn an_entity_is_registered_once() {
    let mut world = World::new();
    world.create_entity(body_at(1, 2));
    world.push_render_event(frame_request(16_000));
    let mut physics = PhysicsSys::new();
    let request = world.prepare_physics(&mut physics).unwrap();
    assert_eq!(request.create.len(), 1);
    world.finish_physics(&mut physics, &vec![state(0, 1_000_000, 2_000_000)]);
    world.flush();
    assert_eq!(world.body(Entity { id: 0 }), None);
    let request = world.prepare_physics(&mut physics).unwrap();
    assert_eq!(request.create, vec![]);
    assert_eq!(request.retire, vec![]);
    assert_eq!(physics.body_count(), 1);
    assert_eq!(physics.handle_of(Entity { id: 0 }), Some(handle(0)));
    assert_eq!(world.commands_waiting(), 0);
}

#[test]
fn a_new_descriptor_replaces_the_body() {
    let mut world = World::new();
    world.create_entity(body_at(1, 2));
    world.push_render_event(frame_request(16_000));
    let mut physics = PhysicsSys::new();
    world.prepare_physics(&mut physics);
    world.finish_physics(&mut physics, &vec![]);
    world.flush();
    world.attach(Entity { id: 0 }, Component::RigidBody(heavy_box()));
    let request = world.prepare_physics(&mut physics).unwrap();
    assert_eq!(request.retire, vec![handle(0)]);
    assert_eq!(request.create.len(), 1);
    assert_eq!(request.create[0].handle, handle(1));
    assert_eq!(physics.body_count(), 1);
    assert_eq!(physics.entity_of(handle(0)), None);
    assert_eq!(physics.handle_of(Entity { id: 0 }), Some(handle(1)));
}

#[test]
fn while_a_step_is_awaited_nothing_is_prepared() {
    let mut world = World::new();
    world.create_entity(body_at(1, 2));
    world.push_render_event(frame_request(16_000));
    let mut physics = PhysicsSys::new();
    assert!(world.prepare_physics(&mut physics).is_some());
    assert_eq!(world.prepare_physics(&mut physics), None);
    assert_eq!(physics.body_count(), 1);
    assert_eq!(world.commands_waiting(), 1);
}

#[test]
fn positions_are_written_back_to_the_transforms() {
    let mut world = World::new();
    world.create_entity(body_at(1, 2));
    world.create_entity(body_at(3, 4));
    world.push_render_event(frame_request(16_000));
    let mut physics = PhysicsSys::new();
    world.prepare_physics(&mut physics);
    let states = vec![
        state(1, 3_000_000, 4_250_000),
        state(0, 1_000_000, 2_313_920),
        state(7, 9, 9),
        state(1, 3_000_000, 4_500_000),
    ];
    assert_eq!(world.finish_physics(&mut physics, &states), vec![]);
    assert!(!physics.is_stepping());
    assert_eq!(
        world.transform(Entity { id: 0 }),
        Some(Transform { x: Fixed::from_micros(1_000_000), y: Fixed::from_micros(2_313_920) })
    );
    assert_eq!(
        world.transform(Entity { id: 1 }),
        Some(Transform { x: Fixed::from_micros(3_000_000), y: Fixed::from_micros(4_500_000) })
    );
    assert_eq!(physics.body_count(), 2);
}

#[test]
fn a_step_of_no_duration_that_moves_no_body_changes_no_transform() {
    let mut world = World::new();
    world.create_entity(body_at(1, 2));
    world.create_entity(EntityBuilder::new().with(Component::Transform(at(9, 9))));
    world.push_render_event(frame_request(0));
    let mut physics = PhysicsSys::new();
    let request = world.prepare_physics(&mut physics).unwrap();
    assert_eq!(request.dt, Fixed::zero());
    let states: Vec<BodyState> = request
        .create
        .iter()
        .map(|body| BodyState { handle: body.handle, x: body.x, y: body.y })
        .collect();
    assert_eq!(world.finish_physics(&mut physics, &states), vec![]);
    assert_eq!(world.transform(Entity { id: 0 }), Some(at(1, 2)));
    assert_eq!(world.transform(Entity { id: 1 }), Some(at(9, 9)));
}

#[test]
fn a_body_whose_entity_lost_its_transform_is_pruned() {
    let mut world = World::new();
    world.create_entity(body_at(1, 2));
    world.create_entity(body_at(3, 4));
    world.create_entity(body_at(5, 6));
    world.push_render_event(frame_request(16_000));
    world.push_render_event(frame_request(16_000));
    world.push_render_event(frame_request(16_000));
    let mut physics = PhysicsSys::new();
    world.prepare_physics(&mut physics);
    assert_eq!(world.finish_physics(&mut physics, &vec![]), vec![]);
    world.flush();
    assert_eq!(physics.body_count(), 3);

    world.detach(Entity { id: 1 }, ComponentKind::Transform);
    world.prepare_physics(&mut physics);
    let states = vec![state(0, 1, 1), state(1, 2, 2), state(2, 3, 3)];
    assert_eq!(world.finish_physics(&mut physics, &states), vec![handle(1)]);
    assert_eq!(physics.body_count(), 2);
    assert_eq!(physics.entity_of(handle(1)), None);
    assert_eq!(physics.handle_of(Entity { id: 1 }), None);
    assert_eq!(world.transform(Entity { id: 1 }), None);
    assert_eq!(
        world.transform(Entity { id: 0 }),
        Some(Transform { x: Fixed::from_micros(1), y: Fixed::from_micros(1) })
    );

    world.prepare_physics(&mut physics);
    let states = vec![state(0, 4, 4), state(1, 5, 5), state(2, 6, 6)];
    assert_eq!(world.finish_physics(&mut physics, &states), vec![]);
    assert_eq!(physics.body_count(), 2);
    assert_eq!(world.transform(Entity { id: 1 }), None);
    assert_eq!(
        world.transform(Entity { id: 2 }),
        Some(Transform { x: Fixed::from_micros(6), y: Fixed::from_micros(6) })
    );
}

#[test]
fn a_destroyed_entity_loses_its_body_too() {
    let mut world = World::new();
    world.create_entity(body_at(1, 2));
    world.create_entity(body_at(3, 4));
    world.push_render_event(frame_request(16_000));
    let mut physics = PhysicsSys::new();
    world.prepare_physics(&mut physics);
    world.finish_physics(&mut physics, &vec![]);
    world.flush();
    world.destroy(Entity { id: 0 });
    world.destroy(Entity { id: 1 });
    world.prepare_physics(&mut physics);
    assert_eq!(world.finish_physics(&mut physics, &vec![]), vec![handle(0), handle(1)]);
    assert_eq!(physics.body_count(), 0);
}

#[test]
fn recorded_forces_go_to_the_bodies_and_are_forgotten() {
    let mut world = World::new();
    world.create_entity(body_at(1, 2).with(Component::Player(Player)));
    world.create_entity(EntityBuilder::new().with(Component::Player(Player)));
    world.push_key_press(Key::Left);
    world.push_key_press(Key::Up);
    let input = InputSys::new(InputMode::Force);
    world.run_input(&input);
    world.run_input(&input);
    world.push_render_event(frame_request(16_000));
    let mut physics = PhysicsSys::new();
    let request = world.prepare_physics(&mut physics).unwrap();
    assert_eq!(
        request.impulses,
        vec![
            Impulse { handle: handle(0), x: Fixed::from_units(-1), y: Fixed::zero() },
            Impulse { handle: handle(0), x: Fixed::zero(), y: Fixed::from_units(-1) },
        ]
    );
    assert_eq!(world.forces_of(Entity { id: 0 }), vec![]);
    assert_eq!(world.forces_of(Entity { id: 1 }).len(), 2);
}
