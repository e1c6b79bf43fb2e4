use pong::components::{PlayerController, Position, Velocity};
use pong::event::{Button, Event};
use pong::fixed::ONE;
use pong::store::{Aspect, Blueprint, EntityId, World};
use pong::systems::control::{control, steered, PADDLE_V};
use pong::systems::ControlSystem;

const UP: u32 = 0x77;
const DOWN: u32 = 0x73;
const KEYS: PlayerController = PlayerController { up: UP, down: DOWN };

fn paddle(vx: i64, vy: i64) -> Blueprint {
    let mut blueprint = Blueprint::new();
    blueprint.player_controller = Some(KEYS);
    blueprint.velocity = Some(Velocity { x: vx, y: vy });
    blueprint.position = Some(Position { x: 7, y: 8 });
    blueprint
}

fn alone(blueprint: Blueprint) -> (World, EntityId) {
    let mut world = World::new();
    let id = world.create(blueprint).unwrap();
    world.flush();
    (world, id)
}

#[test]
fn the_paddle_speed_is_eight_hundred() {
    assert_eq!(PADDLE_V, 800 * ONE);
}

#[test]
fn a_press_sends_the_paddle_up_or_down() {
    let (mut world, id) = alone(paddle(3, 4));
    ControlSystem.process(Event::Press(Button::Keyboard(UP)), &mut world);
    assert_eq!(world.velocities().get(id), Some(Velocity { x: 3, y: -PADDLE_V }));
    ControlSystem.process(Event::Press(Button::Keyboard(DOWN)), &mut world);
    assert_eq!(world.velocities().get(id), Some(Velocity { x: 3, y: PADDLE_V }));
    assert_eq!(world.positions().get(id), Some(Position { x: 7, y: 8 }));
    assert_eq!(world.player_controllers().get(id), Some(KEYS));
}

#[test]
fn a_release_stops_the_paddle() {
    let (mut world, id) = alone(paddle(3, 4));
    ControlSystem.process(Event::Release(Button::Keyboard(UP)), &mut world);
    assert_eq!(world.velocities().get(id), Some(Velocity { x: 3, y: 0 }));
    world.set_velocity(id, Velocity { x: 3, y: 4 });
    ControlSystem.process(Event::Release(Button::Keyboard(DOWN)), &mut world);
    assert_eq!(world.velocities().get(id), Some(Velocity { x: 3, y: 0 }));
    // Also the release of the key that did not send it.
    ControlSystem.process(Event::Press(Button::Keyboard(UP)), &mut world);
    ControlSystem.process(Event::Release(Button::Keyboard(DOWN)), &mut world);
    assert_eq!(world.velocities().get(id), Some(Velocity { x: 3, y: 0 }));
}

#[test]
fn other_events_are_ignored() {
    let (mut world, id) = alone(paddle(3, 4));
    for event in [
        Event::Press(Button::Keyboard(0x69)),
        Event::Release(Button::Keyboard(0x69)),
        Event::Press(Button::Other),
        Event::Release(Button::Other),
        Event::Update { dt: ONE },
        Event::Render { width: 1, height: 1 },
        Event::Other,
    ] {
        ControlSystem.process(event, &mut world);
        assert_eq!(world.velocities().get(id), Some(Velocity { x: 3, y: 4 }));
        assert_eq!(steered(Velocity { x: 3, y: 4 }, KEYS, event), Velocity { x: 3, y: 4 });
    }
    world.flush();
    assert_eq!(world.entities(), vec![id]);
}

#[test]
fn each_paddle_listens_to_its_own_keys() {
    let mut world = World::new();
    let left = world.create(paddle(0, 0)).unwrap();
    let mut other = paddle(0, 0);
    other.player_controller = Some(PlayerController { up: 0x69, down: 0x6B });
    let right = world.create(other).unwrap();
    world.flush();
    ControlSystem.process(Event::Press(Button::Keyboard(0x6B)), &mut world);
    assert_eq!(world.velocities().get(left), Some(Velocity { x: 0, y: 0 }));
    assert_eq!(world.velocities().get(right), Some(Velocity { x: 0, y: PADDLE_V }));
    ControlSystem.process(Event::Press(Button::Keyboard(UP)), &mut world);
    assert_eq!(world.velocities().get(left), Some(Velocity { x: 0, y: -PADDLE_V }));
    assert_eq!(world.velocities().get(right), Some(Velocity { x: 0, y: PADDLE_V }));
}

#[test]
fn with_one_key_for_both_ways_up_wins() {
    let same = PlayerController { up: 5, down: 5 };
    let v = Velocity { x: 1, y: 2 };
    let press = Event::Press(Button::Keyboard(5));
    assert_eq!(steered(v, same, press), Velocity { x: 1, y: -PADDLE_V });
    assert_eq!(steered(v, same, Event::Release(Button::Keyboard(5))), Velocity { x: 1, y: 0 });
}

#[test]
fn only_entities_with_a_controller_and_a_velocity_are_steered() {
    let mut world = World::new();
    let mut still = paddle(0, 0);
    still.velocity = None;
    let mut free = paddle(1, 1);
    free.player_controller = None;
    let still = world.create(still).unwrap();
    let free = world.create(free).unwrap();
    world.flush();
    assert!(world.matching(ControlSystem::aspect()).is_empty());
    ControlSystem.process(Event::Press(Button::Keyboard(UP)), &mut world);
    control(&mut world, still, Event::Press(Button::Keyboard(UP)));
    control(&mut world, free, Event::Press(Button::Keyboard(UP)));
    control(&mut world, 99, Event::Press(Button::Keyboard(UP)));
    assert_eq!(world.velocities().get(still), None);
    assert_eq!(world.velocities().get(free), Some(Velocity { x: 1, y: 1 }));
    let mut aspect = Aspect::new();
    aspect.player_controllers = true;
    aspect.velocities = true;
    assert_eq!(ControlSystem::aspect(), aspect);
}

#[test]
fn events_hand_out_their_arguments() {
    let update = Event::Update { dt: 5 };
    let render = Event::Render { width: 6, height: 7 };
    let press = Event::Press(Button::Keyboard(8));
    let release = Event::Release(Button::Other);
    assert_eq!(update.update_args(), Some(5));
    assert_eq!(render.render_args(), Some((6, 7)));
    assert_eq!(press.press_args(), Some(Button::Keyboard(8)));
    assert_eq!(release.release_args(), Some(Button::Other));
    for event in [render, press, release, Event::Other] {
        assert_eq!(event.update_args(), None);
    }
    for event in [update, press, release, Event::Other] {
        assert_eq!(event.render_args(), None);
    }
    for event in [update, render, release, Event::Other] {
        assert_eq!(event.press_args(), None);
    }
    for event in [update, render, press, Event::Other] {
        assert_eq!(event.release_args(), None);
    }
}
