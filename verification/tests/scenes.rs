use pong::components::{
    ClampVariant, Color, HitCount, PlayerController, Position, Shape, ShapeVariant, Shimmer,
    Velocity, WindowClamp,
};
use pong::debug;
use pong::event::{Button, Event};
use pong::fixed::ONE;
use pong::schedule::Systems;
use pong::spawn::{ball, make_ball, make_player, player};
use pong::store::{Aspect, Blueprint, World};
use pong::systems::draw::{drawing_of, viewport, Drawing};
use pong::systems::DrawSystem;

const RED: Color = Color { red: ONE, green: 0, blue: 0, alpha: ONE };
const RENDER: Event = Event::Render { width: 800 * ONE, height: 600 * ONE };

fn shaped(x: i64, y: i64, variant: ShapeVariant) -> Blueprint {
    let mut blueprint = Blueprint::new();
    blueprint.position = Some(Position { x: x * ONE, y: y * ONE });
    blueprint.shape = Some(Shape { variant, border: None });
    blueprint.color = Some(RED);
    blueprint
}

#[test]
fn the_scene_starts_with_the_background() {
    let world = World::new();
    let frame = DrawSystem.process(RENDER, &world).unwrap();
    assert_eq!(frame.viewport, (40 * ONE, 40 * ONE, 720 * ONE, 520 * ONE));
    assert_eq!(viewport(800 * ONE, 600 * ONE), frame.viewport);
    let gray = Color { red: 200_000, green: 200_000, blue: 200_000, alpha: ONE };
    let green = Color { red: 0, green: ONE, blue: 0, alpha: ONE };
    let black = Color { red: 0, green: 0, blue: 0, alpha: ONE };
    assert_eq!(
        frame.drawings,
        vec![
            Drawing::Clear(gray),
            Drawing::Rectangle { color: green, x: 0, y: 0, w: 720 * ONE, h: 520 * ONE },
            Drawing::Rectangle { color: black, x: ONE, y: ONE, w: 718 * ONE, h: 518 * ONE },
        ]
    );
    let frame = DrawSystem.process(Event::Render { width: 100 * ONE, height: 90 * ONE }, &world);
    assert_eq!(frame.unwrap().viewport, (40 * ONE, 40 * ONE, 20 * ONE, 10 * ONE));
}

#[test]
fn every_shape_has_its_drawing() {
    let mut world = World::new();
    world.create(shaped(100, 200, ShapeVariant::Circle(10 * ONE)));
    world.create(shaped(20, 260, ShapeVariant::Square(10 * ONE, 60 * ONE)));
    world.create(shaped(5, 6, ShapeVariant::Point));
    world.create(shaped(0, 0, ShapeVariant::Line(ONE, 2 * ONE, 3 * ONE, 4 * ONE)));
    world.flush();
    let frame = DrawSystem.process(RENDER, &world).unwrap();
    assert_eq!(
        frame.drawings[3..],
        [
            Drawing::Ellipse { color: RED, x: 90 * ONE, y: 190 * ONE, w: 20 * ONE, h: 20 * ONE },
            Drawing::Rectangle { color: RED, x: 10 * ONE, y: 200 * ONE, w: 20 * ONE, h: 120 * ONE },
            Drawing::Rectangle { color: RED, x: 5 * ONE, y: 6 * ONE, w: ONE, h: ONE },
            Drawing::Line {
                color: RED,
                width: ONE,
                x1: ONE,
                y1: 2 * ONE,
                x2: 3 * ONE,
                y2: 4 * ONE
            },
        ]
    );
    assert_eq!(
        drawing_of(
            Position { x: 0, y: 0 },
            Shape { variant: ShapeVariant::Circle(ONE), border: Some(5) },
            RED
        ),
        Drawing::Ellipse { color: RED, x: -ONE, y: -ONE, w: 2 * ONE, h: 2 * ONE }
    );
}

#[test]
fn only_entities_with_position_shape_and_color_are_drawn() {
    let mut world = World::new();
    let mut nowhere = shaped(1, 1, ShapeVariant::Point);
    nowhere.position = None;
    let mut shapeless = shaped(1, 1, ShapeVariant::Point);
    shapeless.shape = None;
    let mut blank = shaped(1, 1, ShapeVariant::Point);
    blank.color = None;
    world.create(nowhere);
    world.create(shapeless);
    world.create(blank);
    let waiting = world.create(shaped(1, 1, ShapeVariant::Point)).unwrap();
    world.flush();
    world.create(shaped(2, 2, ShapeVariant::Point));
    assert_eq!(world.matching(DrawSystem::aspect()), vec![waiting]);
    let frame = DrawSystem.process(RENDER, &world).unwrap();
    assert_eq!(frame.drawings.len(), 4);
    assert_eq!(
        frame.drawings[3],
        Drawing::Rectangle { color: RED, x: ONE, y: ONE, w: ONE, h: ONE }
    );
    let mut aspect = Aspect::new();
    aspect.positions = true;
    aspect.shapes = true;
    aspect.colors = true;
    assert_eq!(DrawSystem::aspect(), aspect);
}

#[test]
fn there_is_a_scene_only_after_a_render() {
    let mut world = World::new();
    let mut systems = Systems::new();
    for event in [
        Event::Update { dt: ONE },
        Event::Press(Button::Keyboard(1)),
        Event::Release(Button::Keyboard(1)),
        Event::Other,
    ] {
        assert!(DrawSystem.process(event, &world).is_none());
        assert!(systems.update(&mut world, event).frame.is_none());
    }
    assert!(systems.update(&mut world, RENDER).frame.is_some());
}

#[test]
fn the_ball_starts_near_the_middle() {
    let mut world = World::new();
    for _ in 0..50 {
        let id = make_ball(&mut world).unwrap();
        assert!(!world.is_alive(id));
        world.flush();
        let made = world.blueprint_of(id);
        let at = made.position.unwrap();
        let v = made.velocity.unwrap();
        assert!(260 * ONE <= at.x && at.x < 460 * ONE);
        assert!(160 * ONE <= at.y && at.y < 360 * ONE);
        assert!(400 * ONE <= v.x && v.x < 500 * ONE);
        assert!(400 * ONE <= v.y && v.y < 500 * ONE);
        assert_eq!(made, ball(at.x - 360 * ONE, at.y - 260 * ONE, v.x, v.y));
    }
    let mut expected = Blueprint::new();
    expected.position = Some(Position { x: 370 * ONE, y: 240 * ONE });
    expected.velocity = Some(Velocity { x: 410 * ONE, y: 420 * ONE });
    expected.shimmer = Some(Shimmer);
    expected.shape = Some(Shape { variant: ShapeVariant::Circle(10 * ONE), border: None });
    expected.color = Some(Color { red: ONE, green: ONE / 2, blue: ONE / 5, alpha: ONE });
    expected.clamp = Some(WindowClamp { variant: ClampVariant::Bounce });
    assert_eq!(ball(10 * ONE, -20 * ONE, 410 * ONE, 420 * ONE), expected);
}

#[test]
fn the_paddles_start_at_their_walls() {
    let mut world = World::new();
    let left = make_player(&mut world, true).unwrap();
    let right = make_player(&mut world, false).unwrap();
    assert!(world.entities().is_empty());
    world.flush();
    assert_eq!(world.entities(), vec![left, right]);

    let mut expected = Blueprint::new();
    expected.position = Some(Position { x: 20 * ONE, y: 260 * ONE });
    expected.velocity = Some(Velocity { x: 0, y: 0 });
    expected.shape =
        Some(Shape { variant: ShapeVariant::Square(10 * ONE, 60 * ONE), border: None });
    expected.color = Some(Color { red: 300_000, green: 400_000, blue: ONE, alpha: ONE });
    expected.player_controller = Some(PlayerController { up: 0x77, down: 0x73 });
    expected.clamp = Some(WindowClamp { variant: ClampVariant::Stop });
    expected.hit_count = Some(HitCount { recent: false, count: 0 });
    assert_eq!(world.blueprint_of(left), expected);
    assert_eq!(player(true), expected);

    expected.position = Some(Position { x: 700 * ONE, y: 260 * ONE });
    expected.player_controller = Some(PlayerController { up: 0x69, down: 0x6B });
    assert_eq!(world.blueprint_of(right), expected);
    assert_eq!(player(false), expected);
}

#[test]
fn a_ghost_copies_color_shape_and_position() {
    let mut world = World::new();
    let mut blueprint = shaped(3, 4, ShapeVariant::Circle(ONE));
    blueprint.velocity = Some(Velocity { x: 1, y: 1 });
    blueprint.shimmer = Some(Shimmer);
    let id = world.create(blueprint).unwrap();
    world.flush();
    let copy = debug::ghost(&mut world, id).unwrap();
    let hollow = debug::ghost(&mut world, 99).unwrap();
    world.set_position(id, Position { x: 0, y: 0 });
    world.flush();
    let mut expected = shaped(3, 4, ShapeVariant::Circle(ONE));
    expected.fade = Some(pong::components::Fade(10_000));
    assert_eq!(world.blueprint_of(copy), expected);
    let mut expected = Blueprint::new();
    expected.fade = Some(pong::components::Fade(10_000));
    assert_eq!(world.blueprint_of(hollow), expected);
}

#[test]
fn a_line_stands_in_its_middle() {
    let mut world = World::new();
    let id = debug::line(&mut world, [10, 20, 31, -40], 77).unwrap();
    world.flush();
    let mut expected = Blueprint::new();
    expected.position = Some(Position { x: 20, y: -10 });
    expected.shape = Some(Shape { variant: ShapeVariant::Line(10, 20, 31, -40), border: None });
    expected.color = Some(Color { red: 0, green: 800_000, blue: 0, alpha: ONE });
    expected.fade = Some(pong::components::Fade(77));
    assert_eq!(world.blueprint_of(id), expected);
}

#[test]
fn a_tick_runs_the_systems_in_order() {
    // A paddle that is sent up moves in the next update, and the trail of the
    // move lives for one tick.
    let mut world = World::new();
    let paddle = make_player(&mut world, true).unwrap();
    let mut systems = Systems::new();
    let tick = systems.update(&mut world, Event::Press(Button::Keyboard(0x77)));
    assert!(tick.reports.is_empty());
    assert_eq!(world.velocities().get(paddle), Some(Velocity { x: 0, y: -800 * ONE }));
    assert_eq!(world.positions().get(paddle), Some(Position { x: 20 * ONE, y: 260 * ONE }));

    systems.update(&mut world, Event::Update { dt: 100_000 });
    assert_eq!(world.positions().get(paddle), Some(Position { x: 20 * ONE, y: 180 * ONE }));
    assert_eq!(world.entities().len(), 2);
    let trail = world.entities()[1];
    assert_eq!(
        world.shapes().get(trail).unwrap().variant,
        ShapeVariant::Line(20 * ONE, 260 * ONE, 20 * ONE, 180 * ONE)
    );

    systems.update(&mut world, Event::Release(Button::Keyboard(0x73)));
    assert_eq!(world.velocities().get(paddle), Some(Velocity { x: 0, y: 0 }));
    assert!(world.is_alive(trail));

    systems.update(&mut world, Event::Update { dt: 100_000 });
    assert!(!world.is_alive(trail));
    assert_eq!(world.positions().get(paddle), Some(Position { x: 20 * ONE, y: 180 * ONE }));
    // The paddle stood still, and left a trail all the same.
    assert_eq!(world.entities().len(), 2);
}

#[test]
fn the_scene_shows_the_score_of_the_same_tick() {
    let mut world = World::new();
    let mut blueprint = shaped(1, 1, ShapeVariant::Point);
    blueprint.hit_count = Some(HitCount { recent: false, count: 4 });
    world.create(blueprint);
    let mut systems = Systems::new();
    let frame = systems.update(&mut world, RENDER).frame.unwrap();
    let seen = Color { red: 400_000, green: 0, blue: 0, alpha: ONE };
    assert_eq!(
        frame.drawings[3],
        Drawing::Rectangle { color: seen, x: ONE, y: ONE, w: ONE, h: ONE }
    );
}

#[test]
fn a_game_runs() {
    let mut world = World::new();
    let ball = make_ball(&mut world).unwrap();
    let left = make_player(&mut world, true).unwrap();
    let right = make_player(&mut world, false).unwrap();
    let mut systems = Systems::new();
    for tick in 0..600 {
        let event = match tick % 4 {
            0 => RENDER,
            1 => Event::Press(Button::Keyboard(if tick % 8 == 1 { 0x77 } else { 0x6B })),
            _ => Event::Update { dt: 8_333 },
        };
        let tick = systems.update(&mut world, event);
        assert!(tick.reports.is_empty());
        for id in [ball, left, right] {
            let at = world.positions().get(id).unwrap();
            assert!(0 <= at.x && at.x <= 720 * ONE);
            assert!(0 <= at.y && at.y <= 520 * ONE);
        }
    }
    // Trails and ghosts come and go; the cast stays.
    assert!(world.entities().len() < 20);
    assert_eq!(world.entities()[..3], [ball, left, right]);
}
