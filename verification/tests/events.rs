use tileworld::events::{Force, ForceEvents, Key, KeyPressEvents, RenderArgs, RenderEvents};
use tileworld::fixed::Fixed;

fn frame_request(micros: i64) -> RenderArgs {
    RenderArgs {
        ext_dt: Fixed::from_micros(micros),
        window_width: Fixed::from_units(960),
        window_height: Fixed::from_units(640),
        draw_width: 960,
        draw_height: 640,
    }
}

#[test]
fn popping_an_empty_key_queue_changes_nothing() {
    let mut events = KeyPressEvents::new();
    assert_eq!(events.len(), 0);
    assert_eq!(events.pop(), None);
    assert_eq!(events.len(), 0);
    events.push(Key::Up);
    assert_eq!(events.len(), 1);
}

#[test]
fn key_presses_leave_in_the_order_they_came() {
    let mut events = KeyPressEvents::new();
    events.push(Key::Left);
    events.push(Key::Other);
    events.push(Key::Down);
    assert_eq!(events.len(), 3);
    assert_eq!(events.pop(), Some(Key::Left));
    assert_eq!(events.len(), 2);
    assert_eq!(events.pop(), Some(Key::Other));
    assert_eq!(events.pop(), Some(Key::Down));
    assert_eq!(events.pop(), None);
}

#[test]
fn popping_an_empty_render_queue_changes_nothing() {
    let mut events = RenderEvents::new();
    assert_eq!(events.pop(), None);
    assert_eq!(events.front(), None);
    assert_eq!(events.len(), 0);
}

#[test]
fn the_front_render_request_stays_until_it_is_popped() {
    let mut events = RenderEvents::new();
    events.push(frame_request(16_000));
    events.push(frame_request(17_000));
    assert_eq!(events.front(), Some(frame_request(16_000)));
    assert_eq!(events.front(), Some(frame_request(16_000)));
    assert_eq!(events.len(), 2);
    assert_eq!(events.pop(), Some(frame_request(16_000)));
    assert_eq!(events.front(), Some(frame_request(17_000)));
    assert_eq!(events.pop(), Some(frame_request(17_000)));
    assert_eq!(events.pop(), None);
}

#[test]
fn forces_are_kept_per_entity_in_order() {
    let left = Force { x: Fixed::from_units(-1), y: Fixed::zero() };
    let down = Force { x: Fixed::zero(), y: Fixed::from_units(1) };
    let mut events = ForceEvents::new();
    assert_eq!(events.get(3), vec![]);
    events.push(3, left);
    events.push(5, down);
    events.push(3, down);
    assert_eq!(events.get(3), vec![left, down]);
    assert_eq!(events.get(5), vec![down]);
    assert_eq!(events.get(4), vec![]);
}

#[test]
fn clearing_forgets_the_forces_of_one_entity_only() {
    let left = Force { x: Fixed::from_units(-1), y: Fixed::zero() };
    let mut events = ForceEvents::new();
    events.push(1, left);
    events.push(2, left);
    events.clear(1);
    assert_eq!(events.get(1), vec![]);
    assert_eq!(events.get(2), vec![left]);
    events.clear(9);
    assert_eq!(events.get(2), vec![left]);
    events.push(1, left);
    assert_eq!(events.get(1), vec![left]);
}
