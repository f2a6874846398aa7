use tileworld::bodies::BodyHandle;
use tileworld::components::{AtlasId, ComponentKind, Player, Transform};
use tileworld::dispatcher::{create_dispatcher, Dispatcher};
use tileworld::events::{Key, RenderArgs};
use tileworld::fixed::Fixed;
use tileworld::input::{InputMode, InputSys};
use tileworld::physics::{BodyState, Impulse};
use tileworld::player::create_player;
use tileworld::render::{DrawCommand, RenderSys};
use tileworld::storage::Entity;
use tileworld::tiles::{load_tiles_into_world, Layer, MapAsset, Tileset, TilesetImage};
use tileworld::world::{create_world, Component, EntityBuilder, World};

fn at(x: i64, y: i64) -> Transform {
    Transform { x: Fixed::from_units(x), y: Fixed::from_units(y) }
}

fn frame_request(micros: i64) -> RenderArgs {
    RenderArgs {
        ext_dt: Fixed::from_micros(micros),
        window_width: Fixed::from_units(960),
        window_height: Fixed::from_units(640),
        draw_width: 960,
        draw_height: 640,
    }
}

fn small_map() -> MapAsset {
    MapAsset {
        tilesets: vec![Tileset {
            first_gid: 1,
            tile_width: 16,
            tile_height: 16,
            images: vec![TilesetImage { source: String::from("tiles.png"), width: 32, height: 16 }],
            tiles: vec![],
        }],
        layers: vec![Layer { tiles: vec![vec![1, 0]] }],
    }
}

#[test]
fn a_left_key_press_and_one_tick_without_physics_move_the_player_left() {
    let mut world = create_world();
    world.create_entity(
        EntityBuilder::new().with(Component::Transform(at(0, 0))).with(Component::Player(Player)),
    );
    let mut dispatcher = Dispatcher::new(InputSys::new(InputMode::Step), RenderSys::new(1));
    world.push_key_press(Key::Left);
    world.push_render_event(frame_request(16_000));
    let request = dispatcher.begin_tick(&mut world).unwrap();
    assert_eq!(request.create, vec![]);
    assert_eq!(request.impulses, vec![]);
    let output = dispatcher.end_tick(&mut world, &vec![]);
    assert_eq!(output.gone, vec![]);
    let moved = world.transform(Entity { id: 0 }).unwrap();
    assert_eq!(moved, at(-64, 0));
    assert_eq!(
        (moved.x.micros as f64 / 1_000_000.0, moved.y.micros as f64 / 1_000_000.0),
        (-64.0, 0.0)
    );
    assert_eq!(output.frame.unwrap().commands.len(), 1);
}

#[test]
fn a_tick_runs_input_then_physics_then_render_then_the_flush() {
    let mut world = create_world();
    assert_eq!(load_tiles_into_world(&small_map(), AtlasId { index: 0 }, &mut world), Ok(1));
    assert_eq!(create_player(&mut world), Some(Entity { id: 1 }));
    let mut dispatcher = create_dispatcher();
    world.push_key_press(Key::Right);
    world.push_key_press(Key::Up);
    world.push_render_event(frame_request(10_000));

    let request = dispatcher.begin_tick(&mut world).unwrap();
    assert_eq!(world.key_presses_waiting(), 1);
    assert_eq!(world.render_events_waiting(), 1);
    assert_eq!(request.dt, Fixed::from_micros(20_000));
    assert_eq!(request.create.len(), 1);
    assert_eq!(request.create[0].entity, Entity { id: 1 });
    assert_eq!(request.create[0].x, Fixed::from_units(15));
    assert_eq!(request.create[0].y, Fixed::from_units(8));
    assert_eq!(
        request.impulses,
        vec![Impulse {
            handle: BodyHandle { index: 0 },
            x: Fixed::from_units(1),
            y: Fixed::zero()
        }]
    );
    assert!(world.body(Entity { id: 1 }).is_some());

    let states = vec![BodyState {
        handle: BodyHandle { index: 0 },
        x: Fixed::from_micros(15_000_100),
        y: Fixed::from_micros(8_001_962),
    }];
    let output = dispatcher.end_tick(&mut world, &states);
    assert_eq!(output.gone, vec![]);
    assert_eq!(world.render_events_waiting(), 0);
    assert_eq!(world.commands_waiting(), 0);
    assert_eq!(world.body(Entity { id: 1 }), None);
    let frame = output.frame.unwrap();
    assert_eq!(frame.args, frame_request(10_000));
    assert_eq!(frame.commands.len(), 3);
    assert!(matches!(frame.commands[0], DrawCommand::Clear { .. }));
    assert!(matches!(frame.commands[1], DrawCommand::Sprite { .. }));
    assert_eq!(
        frame.commands[2],
        DrawCommand::Rect {
            colour: world.rect(Entity { id: 1 }).unwrap().colour,
            x: Fixed::from_micros(960_006_400),
            y: Fixed::from_micros(512_125_568),
            width: Fixed::from_units(64),
            height: Fixed::from_units(64),
        }
    );
    assert_eq!(dispatcher.physics().body_count(), 1);
}

#[test]
fn the_second_tick_registers_nothing_more() {
    let mut world = create_world();
    create_player(&mut world);
    let mut dispatcher = create_dispatcher();
    world.push_render_event(frame_request(10_000));
    assert_eq!(dispatcher.begin_tick(&mut world).unwrap().create.len(), 1);
    dispatcher.end_tick(&mut world, &vec![]);
    world.push_render_event(frame_request(10_000));
    let request = dispatcher.begin_tick(&mut world).unwrap();
    assert_eq!(request.create, vec![]);
    assert_eq!(request.retire, vec![]);
    dispatcher.end_tick(&mut world, &vec![]);
    assert_eq!(dispatcher.physics().body_count(), 1);
}

#[test]
fn a_tick_without_a_render_request_only_handles_input() {
    let mut world = create_world();
    create_player(&mut world);
    let mut dispatcher = create_dispatcher();
    world.push_key_press(Key::Down);
    assert_eq!(dispatcher.begin_tick(&mut world), None);
    assert_eq!(world.key_presses_waiting(), 0);
    assert_eq!(world.forces_of(Entity { id: 0 }).len(), 1);
    let output = dispatcher.end_tick(&mut world, &vec![]);
    assert_eq!(output.frame, None);
    assert_eq!(output.gone, vec![]);
    assert!(world.body(Entity { id: 0 }).is_some());
    assert_eq!(dispatcher.physics().body_count(), 0);
}

#[test]
fn beginning_a_tick_twice_does_nothing_the_second_time() {
    let mut world = create_world();
    create_player(&mut world);
    let mut dispatcher = create_dispatcher();
    world.push_key_press(Key::Down);
    world.push_key_press(Key::Down);
    world.push_render_event(frame_request(10_000));
    assert!(dispatcher.begin_tick(&mut world).is_some());
    assert_eq!(dispatcher.begin_tick(&mut world), None);
    assert_eq!(world.key_presses_waiting(), 1);
    assert_eq!(dispatcher.physics().body_count(), 1);
    assert!(dispatcher.physics().is_stepping());
    dispatcher.end_tick(&mut world, &vec![]);
    assert!(!dispatcher.physics().is_stepping());
}

#[test]
fn removing_a_transform_between_ticks_prunes_one_body() {
    let mut world = World::new();
    create_player(&mut world);
    create_player(&mut world);
    let mut dispatcher = create_dispatcher();
    world.push_render_event(frame_request(10_000));
    dispatcher.begin_tick(&mut world);
    dispatcher.end_tick(&mut world, &vec![]);
    assert_eq!(dispatcher.physics().body_count(), 2);

    world.detach(Entity { id: 0 }, ComponentKind::Transform);
    world.push_render_event(frame_request(10_000));
    dispatcher.begin_tick(&mut world);
    let output = dispatcher.end_tick(&mut world, &vec![]);
    assert_eq!(output.gone, vec![BodyHandle { index: 0 }]);
    assert_eq!(dispatcher.physics().body_count(), 1);

    world.push_render_event(frame_request(10_000));
    dispatcher.begin_tick(&mut world);
    let output = dispatcher.end_tick(&mut world, &vec![]);
    assert_eq!(output.gone, vec![]);
    assert_eq!(dispatcher.physics().body_count(), 1);
}
