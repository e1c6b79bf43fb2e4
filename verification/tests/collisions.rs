use pong::components::{
    ClampVariant, Color, Fade, HitCount, Position, Shape, ShapeVariant, Velocity, WindowClamp,
};
use pong::event::Event;
use pong::fixed::ONE;
use pong::schedule::Systems;
use pong::store::{Aspect, Blueprint, EntityId, World};
use pong::systems::collision::{bounce, collide, deflect, meet, settle, Marks, Meeting};
use pong::systems::CollisionSystem;

fn circle(x: i64, y: i64, radius: i64, vx: i64, vy: i64) -> Blueprint {
    let mut blueprint = Blueprint::new();
    blueprint.position = Some(Position { x: x * ONE, y: y * ONE });
    blueprint.shape = Some(Shape { variant: ShapeVariant::Circle(radius * ONE), border: None });
    blueprint.velocity = Some(Velocity { x: vx * ONE, y: vy * ONE });
    blueprint.hit_count = Some(HitCount { recent: false, count: 0 });
    blueprint
}

fn square(x: i64, y: i64, half_w: i64, half_h: i64, vx: i64, vy: i64) -> Blueprint {
    let mut blueprint = Blueprint::new();
    blueprint.position = Some(Position { x: x * ONE, y: y * ONE });
    blueprint.shape =
        Some(Shape { variant: ShapeVariant::Square(half_w * ONE, half_h * ONE), border: None });
    blueprint.velocity = Some(Velocity { x: vx * ONE, y: vy * ONE });
    blueprint.hit_count = Some(HitCount { recent: false, count: 0 });
    blueprint
}

fn pair(ball: Blueprint, paddle: Blueprint) -> (World, EntityId, EntityId) {
    let mut world = World::new();
    let ball = world.create(ball).unwrap();
    let paddle = world.create(paddle).unwrap();
    world.flush();
    (world, ball, paddle)
}

fn count(world: &World, id: EntityId) -> u32 {
    world.hit_counts().get(id).unwrap().count
}

const UPDATE: Event = Event::Update { dt: 10_000 };

#[test]
fn paddle_and_ball_bounce() {
    let mut ball = circle(100, 100, 10, -400, 0);
    ball.clamp = Some(WindowClamp { variant: ClampVariant::Bounce });
    let (mut world, ball, paddle) = pair(ball, square(100, 100, 5, 40, 0, 0));
    let mut systems = Systems::new();
    systems.update(&mut world, UPDATE);

    // The ball is outside the paddle by at least its radius.
    let at = world.positions().get(ball).unwrap();
    assert_eq!(at, Position { x: 129 * ONE, y: 100 * ONE });
    assert!(at.x - 105 * ONE >= 10 * ONE);
    // Its speed toward the paddle is reversed.
    assert_eq!(world.velocities().get(ball), Some(Velocity { x: 400 * ONE, y: 0 }));
    // Both count one hit.
    assert_eq!(world.hit_counts().get(ball), Some(HitCount { recent: true, count: 1 }));
    assert_eq!(world.hit_counts().get(paddle), Some(HitCount { recent: true, count: 1 }));
    assert_eq!(world.positions().get(paddle), Some(Position { x: 100 * ONE, y: 100 * ONE }));
}

#[test]
fn a_ball_that_comes_from_the_right_goes_back_to_the_right() {
    let (mut world, ball, paddle) =
        pair(circle(112, 100, 10, -300, 70), square(100, 100, 5, 40, 0, 90));
    CollisionSystem.process(UPDATE, &mut world);
    assert_eq!(world.positions().get(ball), Some(Position { x: 127 * ONE, y: 100 * ONE }));
    assert_eq!(world.velocities().get(ball), Some(Velocity { x: 300 * ONE, y: 70 * ONE }));
    assert_eq!(world.velocities().get(paddle), Some(Velocity { x: 0, y: 45 * ONE }));
    assert_eq!(count(&world, ball), 1);
    assert_eq!(count(&world, paddle), 1);
}

#[test]
fn a_ball_that_leaves_already_keeps_its_speed() {
    let (mut world, ball, _) = pair(circle(112, 100, 10, 300, 70), square(100, 100, 5, 40, 0, 0));
    CollisionSystem.process(UPDATE, &mut world);
    assert_eq!(world.positions().get(ball), Some(Position { x: 127 * ONE, y: 100 * ONE }));
    assert_eq!(world.velocities().get(ball), Some(Velocity { x: 300 * ONE, y: 70 * ONE }));
}

#[test]
fn a_ball_at_a_corner_turns_on_both_axes() {
    let (mut world, ball, _) =
        pair(circle(108, 144, 10, -30, -40), square(100, 100, 5, 40, 0, 0));
    CollisionSystem.process(UPDATE, &mut world);
    assert_eq!(world.positions().get(ball), Some(Position { x: 123 * ONE, y: 164 * ONE }));
    assert_eq!(world.velocities().get(ball), Some(Velocity { x: 30 * ONE, y: 40 * ONE }));
}

#[test]
fn the_order_of_the_pair_does_not_matter() {
    let mut world = World::new();
    let paddle = world.create(square(100, 100, 5, 40, 8, -6)).unwrap();
    let ball = world.create(circle(88, 100, 10, 300, 70)).unwrap();
    world.flush();
    CollisionSystem.process(UPDATE, &mut world);
    assert_eq!(world.positions().get(ball), Some(Position { x: 73 * ONE, y: 100 * ONE }));
    assert_eq!(world.velocities().get(ball), Some(Velocity { x: -300 * ONE, y: 70 * ONE }));
    assert_eq!(world.velocities().get(paddle), Some(Velocity { x: 4 * ONE, y: -3 * ONE }));
    assert_eq!(count(&world, ball), 1);
    assert_eq!(count(&world, paddle), 1);
}

#[test]
fn a_lasting_contact_counts_once() {
    let (mut world, ball, paddle) =
        pair(circle(112, 100, 10, -300, 0), square(100, 100, 5, 40, 0, 0));
    for _ in 0..5 {
        // Hold the ball in the paddle.
        world.set_position(ball, Position { x: 112 * ONE, y: 100 * ONE });
        CollisionSystem.process(UPDATE, &mut world);
        assert_eq!(world.hit_counts().get(ball), Some(HitCount { recent: true, count: 1 }));
        assert_eq!(world.hit_counts().get(paddle), Some(HitCount { recent: true, count: 1 }));
    }
    // The ball has been pushed out: the contact ends.
    CollisionSystem.process(UPDATE, &mut world);
    assert_eq!(world.hit_counts().get(ball), Some(HitCount { recent: false, count: 1 }));
    assert_eq!(world.hit_counts().get(paddle), Some(HitCount { recent: false, count: 1 }));
    // The next contact counts again, once.
    for _ in 0..3 {
        world.set_position(ball, Position { x: 112 * ONE, y: 100 * ONE });
        CollisionSystem.process(UPDATE, &mut world);
        assert_eq!(world.hit_counts().get(ball), Some(HitCount { recent: true, count: 2 }));
        assert_eq!(world.hit_counts().get(paddle), Some(HitCount { recent: true, count: 2 }));
    }
}

#[test]
fn hit_counters_debounce() {
    let fresh = HitCount { recent: false, count: 7 };
    assert_eq!(fresh.struck(), HitCount { recent: true, count: 8 });
    assert_eq!(fresh.struck().struck(), HitCount { recent: true, count: 8 });
    assert_eq!(fresh.struck().parted(), HitCount { recent: false, count: 8 });
    assert_eq!(fresh.struck().parted().struck(), HitCount { recent: true, count: 9 });
    assert_eq!(fresh.parted(), fresh);
    let full = HitCount { recent: false, count: u32::MAX };
    assert_eq!(full.struck(), HitCount { recent: true, count: u32::MAX });
}

#[test]
fn entities_without_a_hit_counter_collide_all_the_same() {
    let mut ball = circle(112, 100, 10, -300, 0);
    ball.hit_count = None;
    let (mut world, ball, paddle) = pair(ball, square(100, 100, 5, 40, 0, 0));
    CollisionSystem.process(UPDATE, &mut world);
    assert_eq!(world.positions().get(ball), Some(Position { x: 127 * ONE, y: 100 * ONE }));
    assert_eq!(world.hit_counts().get(ball), None);
    assert_eq!(count(&world, paddle), 1);
}

#[test]
fn a_contact_leaves_a_ghost_and_a_line() {
    let mut ball = circle(112, 100, 10, -300, 0);
    ball.color = Some(Color { red: ONE, green: ONE / 2, blue: 0, alpha: ONE });
    let (mut world, ball, paddle) = pair(ball, square(100, 100, 5, 40, 0, 0));
    CollisionSystem.process(UPDATE, &mut world);
    // Nothing new lives before the flush.
    assert_eq!(world.entities(), vec![ball, paddle]);
    world.flush();
    let all = world.entities();
    assert_eq!(all.len(), 4);
    let (ghost, line) = (all[2], all[3]);

    let mut expected = Blueprint::new();
    expected.position = Some(Position { x: 127 * ONE, y: 100 * ONE });
    expected.shape = Some(Shape { variant: ShapeVariant::Circle(10 * ONE), border: None });
    expected.color = Some(Color { red: ONE, green: ONE / 2, blue: 0, alpha: ONE });
    expected.fade = Some(Fade(10_000));
    assert_eq!(world.blueprint_of(ghost), expected);

    let mut expected = Blueprint::new();
    expected.position = Some(Position { x: 119_500_000, y: 100 * ONE });
    expected.shape = Some(Shape {
        variant: ShapeVariant::Line(112 * ONE, 100 * ONE, 127 * ONE, 100 * ONE),
        border: None,
    });
    expected.color = Some(Color { red: 0, green: 800_000, blue: 0, alpha: ONE });
    expected.fade = Some(Fade(10_000));
    assert_eq!(world.blueprint_of(line), expected);
}

#[test]
fn two_circles_do_not_respond() {
    let (mut world, first, second) = pair(circle(100, 100, 10, 5, 0), circle(105, 100, 10, -5, 0));
    let before = (world.blueprint_of(first), world.blueprint_of(second));
    CollisionSystem.process(UPDATE, &mut world);
    world.flush();
    assert_eq!((world.blueprint_of(first), world.blueprint_of(second)), before);
    assert_eq!(world.entities(), vec![first, second]);
}

#[test]
fn other_pairs_do_not_respond() {
    let mut point = circle(100, 100, 10, 5, 0);
    point.shape = Some(Shape { variant: ShapeVariant::Point, border: None });
    let mut line = circle(100, 100, 10, 5, 0);
    line.shape = Some(Shape { variant: ShapeVariant::Line(0, 0, ONE, ONE), border: None });
    let mut world = World::new();
    let ids = [
        world.create(point).unwrap(),
        world.create(line).unwrap(),
        world.create(square(100, 100, 5, 40, 1, 1)).unwrap(),
        world.create(square(100, 100, 5, 40, 1, 1)).unwrap(),
    ];
    world.flush();
    let before = ids.map(|id| world.blueprint_of(id));
    CollisionSystem.process(UPDATE, &mut world);
    world.flush();
    assert_eq!(ids.map(|id| world.blueprint_of(id)), before);
    assert_eq!(world.entities(), ids.to_vec());
}

#[test]
fn entities_without_a_velocity_are_left_out() {
    let mut paddle = square(100, 100, 5, 40, 0, 0);
    paddle.velocity = None;
    let (mut world, ball, paddle) = pair(circle(112, 100, 10, -300, 0), paddle);
    CollisionSystem.process(UPDATE, &mut world);
    assert_eq!(world.positions().get(ball), Some(Position { x: 112 * ONE, y: 100 * ONE }));
    assert_eq!(count(&world, ball), 0);
    assert_eq!(count(&world, paddle), 0);
}

#[test]
fn collisions_wait_for_an_update() {
    let (mut world, ball, paddle) =
        pair(circle(112, 100, 10, -300, 0), square(100, 100, 5, 40, 0, 0));
    let before = (world.blueprint_of(ball), world.blueprint_of(paddle));
    for event in [
        Event::Render { width: 800 * ONE, height: 600 * ONE },
        Event::Press(pong::event::Button::Keyboard(1)),
        Event::Release(pong::event::Button::Other),
        Event::Other,
    ] {
        CollisionSystem.process(event, &mut world);
    }
    world.flush();
    assert_eq!((world.blueprint_of(ball), world.blueprint_of(paddle)), before);
    assert_eq!(world.entities().len(), 2);
}

#[test]
fn every_pair_is_looked_at_once_in_order() {
    // One ball between two paddles touches the left one, which pushes it to
    // the right; the right one is too far away even then.
    let mut world = World::new();
    let left = world.create(square(95, 100, 5, 40, 0, 0)).unwrap();
    let ball = world.create(circle(108, 100, 10, 0, 0)).unwrap();
    let right = world.create(square(140, 100, 5, 40, 0, 0)).unwrap();
    world.flush();
    CollisionSystem.process(UPDATE, &mut world);
    // Left paddle: depth 2, pushed to 118. Right paddle's side is at 135.
    assert_eq!(world.positions().get(ball), Some(Position { x: 118 * ONE, y: 100 * ONE }));
    assert_eq!(world.hit_counts().get(left), Some(HitCount { recent: true, count: 1 }));
    // The right paddle met the ball and touched nothing.
    assert_eq!(world.hit_counts().get(right), Some(HitCount { recent: false, count: 0 }));
    // The ball touched the left paddle: that it is apart from the right one
    // does not end the contact.
    assert_eq!(world.hit_counts().get(ball), Some(HitCount { recent: true, count: 1 }));
}

#[test]
fn a_pair_apart_does_not_end_the_contact_of_another() {
    let mut world = World::new();
    let mut blueprint = circle(100, 100, 10, -50, 0);
    blueprint.hit_count = Some(HitCount { recent: true, count: 1 });
    let ball = world.create(blueprint).unwrap();
    let mut near = square(88, 100, 4, 40, 0, 0);
    near.hit_count = None;
    let mut far = square(600, 100, 4, 40, 0, 0);
    far.hit_count = None;
    world.create(near);
    world.create(far);
    world.flush();
    for _ in 0..4 {
        // Hold the ball in the near rectangle.
        world.set_position(ball, Position { x: 100 * ONE, y: 100 * ONE });
        CollisionSystem.process(UPDATE, &mut world);
        assert_eq!(world.hit_counts().get(ball), Some(HitCount { recent: true, count: 1 }));
    }
    // Apart from both, the contact ends; the next one counts again.
    world.set_position(ball, Position { x: 300 * ONE, y: 100 * ONE });
    CollisionSystem.process(UPDATE, &mut world);
    assert_eq!(world.hit_counts().get(ball), Some(HitCount { recent: false, count: 1 }));
    world.set_position(ball, Position { x: 100 * ONE, y: 100 * ONE });
    CollisionSystem.process(UPDATE, &mut world);
    assert_eq!(world.hit_counts().get(ball), Some(HitCount { recent: true, count: 2 }));
}

#[test]
fn a_counter_that_meets_nothing_stays_as_it_is() {
    // Two circles are no pair of a circle and a rectangle.
    let mut first = circle(100, 100, 10, 5, 0);
    first.hit_count = Some(HitCount { recent: true, count: 3 });
    let (mut world, first, second) = pair(first, circle(105, 100, 10, -5, 0));
    CollisionSystem.process(UPDATE, &mut world);
    assert_eq!(world.hit_counts().get(first), Some(HitCount { recent: true, count: 3 }));
    assert_eq!(world.hit_counts().get(second), Some(HitCount { recent: false, count: 0 }));
    // An entity alone meets nothing.
    let mut world = World::new();
    let mut alone = circle(100, 100, 10, 5, 0);
    alone.hit_count = Some(HitCount { recent: true, count: 3 });
    let alone = world.create(alone).unwrap();
    world.flush();
    CollisionSystem.process(UPDATE, &mut world);
    assert_eq!(world.hit_counts().get(alone), Some(HitCount { recent: true, count: 3 }));
}

#[test]
fn a_pair_can_be_looked_at_alone() {
    let (mut world, ball, paddle) =
        pair(circle(112, 100, 10, -300, 0), square(100, 100, 5, 40, 0, 0));
    let mut marks = Marks::new();
    collide(&mut world, &mut marks, ball, ball);
    collide(&mut world, &mut marks, paddle, paddle);
    collide(&mut world, &mut marks, ball, 77);
    assert_eq!(marks.contact(ball), None);
    assert_eq!(marks.contact(paddle), None);
    assert_eq!(meet(&world, ball, ball), None);
    assert_eq!(meet(&world, ball, 77), None);
    let found = Meeting {
        circle: ball,
        radius: 10 * ONE,
        square: paddle,
        half_w: 5 * ONE,
        half_h: 40 * ONE,
    };
    assert_eq!(meet(&world, ball, paddle), Some(found));
    assert_eq!(meet(&world, paddle, ball), Some(found));

    collide(&mut world, &mut marks, paddle, ball);
    assert_eq!(marks.contact(ball), Some(true));
    assert_eq!(marks.contact(paddle), Some(true));
    assert_eq!(marks.contact(77), None);
    assert_eq!(world.positions().get(ball), Some(Position { x: 127 * ONE, y: 100 * ONE }));
    // The counters wait until they are told.
    assert_eq!(count(&world, ball), 0);
    // Apart now: what was touched stays touched.
    collide(&mut world, &mut marks, ball, paddle);
    assert_eq!(marks.contact(ball), Some(true));
    settle(&mut world, &marks, ball);
    settle(&mut world, &marks, 77);
    assert_eq!(world.hit_counts().get(ball), Some(HitCount { recent: true, count: 1 }));
    assert_eq!(world.hit_counts().get(paddle), Some(HitCount { recent: false, count: 0 }));

    let mut marks = Marks::new();
    collide(&mut world, &mut marks, ball, paddle);
    assert_eq!(marks.contact(ball), Some(false));
    assert_eq!(marks.contact(paddle), Some(false));
    settle(&mut world, &marks, ball);
    assert_eq!(world.hit_counts().get(ball), Some(HitCount { recent: false, count: 1 }));

    assert!(!bounce(&mut world, ball, 10 * ONE, paddle, 5 * ONE, 40 * ONE));
    assert!(!bounce(&mut world, ball, 10 * ONE, 77, 5 * ONE, 40 * ONE));
    world.set_position(ball, Position { x: 112 * ONE, y: 100 * ONE });
    assert!(bounce(&mut world, ball, 10 * ONE, paddle, 5 * ONE, 40 * ONE));
    assert_eq!(world.positions().get(ball), Some(Position { x: 127 * ONE, y: 100 * ONE }));
    assert_eq!(world.hit_counts().get(ball), Some(HitCount { recent: false, count: 1 }));
}

#[test]
fn a_counter_is_told_of_contact_apart_or_nothing() {
    let fresh = HitCount { recent: false, count: 7 };
    assert_eq!(fresh.told(Some(true)), HitCount { recent: true, count: 8 });
    assert_eq!(fresh.told(Some(true)).told(Some(true)), HitCount { recent: true, count: 8 });
    assert_eq!(fresh.told(Some(true)).told(None), HitCount { recent: true, count: 8 });
    assert_eq!(fresh.told(Some(true)).told(Some(false)), HitCount { recent: false, count: 8 });
    assert_eq!(fresh.told(None), fresh);
    assert_eq!(fresh.told(Some(false)), fresh);
}

#[test]
fn a_speed_is_deflected_only_against_the_push() {
    assert_eq!(deflect(-3, 5), 3);
    assert_eq!(deflect(3, 5), 3);
    assert_eq!(deflect(3, -5), -3);
    assert_eq!(deflect(-3, -5), -3);
    assert_eq!(deflect(3, 0), 3);
    assert_eq!(deflect(-3, 0), -3);
    assert_eq!(deflect(0, 5), 0);
    assert_eq!(deflect(i64::MIN, 1), i64::MAX);
}

#[test]
fn the_collision_system_asks_for_position_shape_and_velocity() {
    let mut aspect = Aspect::new();
    aspect.positions = true;
    aspect.shapes = true;
    aspect.velocities = true;
    assert_eq!(CollisionSystem::aspect(), aspect);
}
