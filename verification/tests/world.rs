use tileworld::components::{
    Colour, ComponentKind, Player, RenderRect, RigidBodyDescriptor, Tile, Transform,
};
use tileworld::components::AtlasId;
use tileworld::events::{Key, RenderArgs};
use tileworld::fixed::Fixed;
use tileworld::player::{create_player, player_builder};
use tileworld::storage::{Entity, Storage};
use tileworld::world::{create_world, Command, Component, EntityBuilder, World};

fn at(x: i64, y: i64) -> Transform {
    Transform { x: Fixed::from_units(x), y: Fixed::from_units(y) }
}

fn red_square() -> RenderRect {
    RenderRect {
        width: Fixed::from_units(64),
        height: Fixed::from_units(64),
        colour: Colour { red: 255, green: 0, blue: 0, alpha: 255 },
    }
}

fn small_box() -> RigidBodyDescriptor {
    RigidBodyDescriptor {
        half_width: Fixed::from_micros(500_000),
        half_height: Fixed::from_micros(500_000),
        density: Some(Fixed::from_units(1)),
        restitution: Fixed::from_micros(300_000),
        friction: Fixed::from_micros(600_000),
    }
}

#[test]
fn a_table_holds_at_most_one_component_per_slot() {
    let mut table: Storage<Transform> = Storage::new();
    assert_eq!(table.len(), 0);
    assert_eq!(table.get(0), None);
    table.push(None);
    table.push(Some(at(1, 2)));
    assert_eq!(table.len(), 2);
    assert_eq!(table.get(0), None);
    assert_eq!(table.get(1), Some(at(1, 2)));
    assert!(table.contains(1));
    assert!(!table.contains(0));
    assert_eq!(table.insert(1, at(3, 4)), Some(at(1, 2)));
    assert_eq!(table.get(1), Some(at(3, 4)));
    assert_eq!(table.insert(0, at(5, 6)), None);
    assert_eq!(table.get(0), Some(at(5, 6)));
    assert_eq!(table.len(), 2);
}

#[test]
fn a_table_ignores_slots_that_it_does_not_have() {
    let mut table: Storage<Transform> = Storage::new();
    table.push(Some(at(1, 1)));
    assert_eq!(table.insert(7, at(2, 2)), None);
    assert_eq!(table.remove(7), None);
    assert_eq!(table.len(), 1);
    assert_eq!(table.get(7), None);
    assert_eq!(table.remove(0), Some(at(1, 1)));
    assert_eq!(table.get(0), None);
    assert_eq!(table.remove(0), None);
}

#[test]
fn a_new_world_is_empty() {
    let world = create_world();
    assert_eq!(world.slots(), 0);
    assert_eq!(world.capacity_left(), u32::MAX);
    assert_eq!(world.key_presses_waiting(), 0);
    assert_eq!(world.render_events_waiting(), 0);
    assert_eq!(world.commands_waiting(), 0);
    assert!(!world.is_alive(Entity { id: 0 }));
    assert_eq!(world.transform(Entity { id: 0 }), None);
}

#[test]
fn a_builder_attaches_all_its_components_at_once() {
    let mut world = World::new();
    let tile = Tile { x: 16, y: 0, width: 16, height: 16, atlas: AtlasId { index: 2 } };
    let builder = EntityBuilder::new()
        .with(Component::Transform(at(1, 2)))
        .with(Component::Tile(tile))
        .with(Component::Transform(at(3, 4)));
    let entity = world.create_entity(builder);
    assert_eq!(entity, Some(Entity { id: 0 }));
    let entity = Entity { id: 0 };
    assert!(world.is_alive(entity));
    assert_eq!(world.transform(entity), Some(at(3, 4)));
    assert_eq!(world.tile(entity), Some(tile));
    assert_eq!(world.rect(entity), None);
    assert_eq!(world.body(entity), None);
    assert!(!world.is_player(entity));
    assert_eq!(world.slots(), 1);
    assert_eq!(world.capacity_left(), u32::MAX - 1);
}

#[test]
fn entities_get_rising_ids() {
    let mut world = World::new();
    assert_eq!(world.create_entity(EntityBuilder::new()), Some(Entity { id: 0 }));
    assert_eq!(world.create_entity(EntityBuilder::new()), Some(Entity { id: 1 }));
    let builders = vec![
        EntityBuilder::new().with(Component::Transform(at(7, 7))),
        EntityBuilder::new().with(Component::Player(Player)),
    ];
    assert_eq!(world.create_all(&builders), Some(2));
    assert_eq!(world.slots(), 4);
    assert_eq!(world.transform(Entity { id: 2 }), Some(at(7, 7)));
    assert!(world.is_player(Entity { id: 3 }));
    assert!(!world.is_player(Entity { id: 2 }));
    assert_eq!(world.create_all(&vec![]), Some(4));
    assert_eq!(world.slots(), 4);
}

#[test]
fn the_player_starts_with_its_four_components() {
    let mut world = create_world();
    let player = create_player(&mut world);
    assert_eq!(player, Some(Entity { id: 0 }));
    let player = Entity { id: 0 };
    assert_eq!(world.transform(player), Some(at(15, 8)));
    assert_eq!(world.rect(player), Some(red_square()));
    assert!(world.is_player(player));
    assert_eq!(world.body(player), Some(small_box()));
    assert_eq!(world.tile(player), None);
    assert_eq!(player_builder().body, Some(small_box()));
}

#[test]
fn components_can_be_attached_and_detached_at_once() {
    let mut world = World::new();
    world.create_entity(EntityBuilder::new());
    let entity = Entity { id: 0 };
    world.attach(entity, Component::Transform(at(1, 1)));
    world.attach(entity, Component::RenderRect(red_square()));
    world.attach(entity, Component::Player(Player));
    world.attach(entity, Component::RigidBody(small_box()));
    assert_eq!(world.transform(entity), Some(at(1, 1)));
    assert_eq!(world.rect(entity), Some(red_square()));
    assert!(world.is_player(entity));
    assert_eq!(world.body(entity), Some(small_box()));
    world.detach(entity, ComponentKind::Transform);
    world.detach(entity, ComponentKind::Player);
    assert_eq!(world.transform(entity), None);
    assert!(!world.is_player(entity));
    assert_eq!(world.rect(entity), Some(red_square()));
    world.detach(entity, ComponentKind::RenderRect);
    world.detach(entity, ComponentKind::RigidBody);
    world.detach(entity, ComponentKind::Tile);
    assert_eq!(world.rect(entity), None);
    assert_eq!(world.body(entity), None);
}

#[test]
fn nothing_attaches_to_an_entity_that_is_not_alive() {
    let mut world = World::new();
    world.attach(Entity { id: 0 }, Component::Transform(at(1, 1)));
    assert_eq!(world.slots(), 0);
    assert_eq!(world.transform(Entity { id: 0 }), None);
    world.create_entity(EntityBuilder::new().with(Component::Transform(at(2, 2))));
    world.destroy(Entity { id: 0 });
    assert!(!world.is_alive(Entity { id: 0 }));
    assert_eq!(world.transform(Entity { id: 0 }), None);
    world.attach(Entity { id: 0 }, Component::Transform(at(1, 1)));
    assert_eq!(world.transform(Entity { id: 0 }), None);
    world.detach(Entity { id: 5 }, ComponentKind::Transform);
    world.destroy(Entity { id: 5 });
    assert_eq!(world.slots(), 1);
    assert_eq!(world.create_entity(EntityBuilder::new()), Some(Entity { id: 1 }));
}

#[test]
fn deferred_commands_wait_for_the_flush() {
    let mut world = World::new();
    world.create_entity(
        EntityBuilder::new()
            .with(Component::Transform(at(1, 1)))
            .with(Component::RigidBody(small_box())),
    );
    world.create_entity(EntityBuilder::new().with(Component::Transform(at(2, 2))));
    let first = Entity { id: 0 };
    let second = Entity { id: 1 };
    world.defer(Command::Remove { kind: ComponentKind::RigidBody, entity: first });
    world.defer(Command::Destroy { entity: second });
    world.defer(Command::Remove { kind: ComponentKind::Tile, entity: Entity { id: 9 } });
    assert_eq!(world.commands_waiting(), 3);
    assert_eq!(world.body(first), Some(small_box()));
    assert!(world.is_alive(second));
    world.flush();
    assert_eq!(world.commands_waiting(), 0);
    assert_eq!(world.body(first), None);
    assert_eq!(world.transform(first), Some(at(1, 1)));
    assert!(!world.is_alive(second));
    assert_eq!(world.transform(second), None);
    assert_eq!(world.slots(), 2);
    world.flush();
    assert_eq!(world.transform(first), Some(at(1, 1)));
}

#[test]
fn events_are_queued_in_the_world() {
    let mut world = World::new();
    world.push_key_press(Key::Left);
    world.push_key_press(Key::Right);
    world.push_render_event(RenderArgs {
        ext_dt: Fixed::from_micros(16_000),
        window_width: Fixed::from_units(960),
        window_height: Fixed::from_units(640),
        draw_width: 960,
        draw_height: 640,
    });
    assert_eq!(world.key_presses_waiting(), 2);
    assert_eq!(world.render_events_waiting(), 1);
    assert_eq!(world.forces_of(Entity { id: 0 }), vec![]);
}

#[test]
fn a_full_registry_takes_no_more_entities() {
    let mut world = World::with_limit(2);
    assert_eq!(world.limit(), 2);
    assert_eq!(world.capacity_left(), 2);
    assert_eq!(world.create_entity(EntityBuilder::new()), Some(Entity { id: 0 }));
    assert_eq!(world.create_entity(EntityBuilder::new()), Some(Entity { id: 1 }));
    assert_eq!(world.capacity_left(), 0);
    assert_eq!(world.create_entity(EntityBuilder::new().with(Component::Player(Player))), None);
    assert_eq!(world.slots(), 2);
    assert!(!world.is_player(Entity { id: 2 }));
    assert_eq!(create_player(&mut world), None);
    world.destroy(Entity { id: 0 });
    assert_eq!(world.create_entity(EntityBuilder::new()), None);
    assert_eq!(create_world().limit(), u32::MAX);
}

#[test]
fn a_batch_is_created_whole_or_not_at_all() {
    let mut world = World::with_limit(3);
    world.create_entity(EntityBuilder::new());
    let builders = vec![
        EntityBuilder::new().with(Component::Transform(at(1, 1))),
        EntityBuilder::new().with(Component::Transform(at(2, 2))),
        EntityBuilder::new().with(Component::Transform(at(3, 3))),
    ];
    assert_eq!(world.create_all(&builders), None);
    assert_eq!(world.slots(), 1);
    assert_eq!(world.transform(Entity { id: 1 }), None);
    assert_eq!(world.create_all(&builders[..2].to_vec()), Some(1));
    assert_eq!(world.slots(), 3);
    assert_eq!(world.transform(Entity { id: 2 }), Some(at(2, 2)));
    assert_eq!(World::with_limit(0).create_all(&vec![]), Some(0));
}
