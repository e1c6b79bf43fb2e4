use pong::components::{
    ClampVariant, Color, Fade, HitCount, PlayerController, Position, Shape, ShapeVariant, Shimmer,
    Velocity, WindowClamp,
};
use pong::fixed::ONE;
use pong::store::{Aspect, Blueprint, World};

fn placed(x: i64, y: i64) -> Blueprint {
    let mut blueprint = Blueprint::new();
    blueprint.position = Some(Position { x, y });
    blueprint
}

fn positions() -> Aspect {
    let mut aspect = Aspect::new();
    aspect.positions = true;
    aspect
}

#[test]
fn a_new_world_is_empty() {
    let world = World::new();
    assert!(world.entities().is_empty());
    assert!(world.matching(Aspect::new()).is_empty());
    assert!(!world.is_alive(0));
    assert!(!world.is_alive(1));
    assert_eq!(world.blueprint_of(1), Blueprint::new());
}

#[test]
fn identifiers_count_up_from_one() {
    let mut world = World::new();
    assert_eq!(world.create(Blueprint::new()), Some(1));
    assert_eq!(world.create(Blueprint::new()), Some(2));
    world.flush();
    assert_eq!(world.create(Blueprint::new()), Some(3));
    world.remove(3);
    world.flush();
    assert_eq!(world.create(Blueprint::new()), Some(4));
}

#[test]
fn a_creation_waits_for_the_flush() {
    let mut world = World::new();
    let id = world.create(placed(ONE, 2 * ONE)).unwrap();
    assert!(!world.is_alive(id));
    assert!(world.entities().is_empty());
    assert!(world.matching(positions()).is_empty());
    assert_eq!(world.positions().get(id), None);
    assert!(!world.positions().has(id));
    world.flush();
    assert!(world.is_alive(id));
    assert_eq!(world.entities(), vec![id]);
    assert_eq!(world.matching(positions()), vec![id]);
    assert_eq!(world.positions().get(id), Some(Position { x: ONE, y: 2 * ONE }));
    assert!(world.positions().has(id));
}

#[test]
fn a_removal_waits_for_the_flush() {
    let mut world = World::new();
    let id = world.create(placed(ONE, ONE)).unwrap();
    world.flush();
    world.remove(id);
    assert!(world.is_alive(id));
    assert_eq!(world.matching(positions()), vec![id]);
    assert_eq!(world.positions().get(id), Some(Position { x: ONE, y: ONE }));
    world.flush();
    assert!(!world.is_alive(id));
    assert!(world.matching(positions()).is_empty());
    assert!(world.matching(Aspect::new()).is_empty());
    assert_eq!(world.positions().get(id), None);
    assert_eq!(world.blueprint_of(id), Blueprint::new());
}

#[test]
fn a_removal_takes_every_component() {
    let mut world = World::new();
    let mut blueprint = Blueprint::new();
    blueprint.clamp = Some(WindowClamp { variant: ClampVariant::Stop });
    blueprint.color = Some(Color { red: 1, green: 2, blue: 3, alpha: 4 });
    blueprint.fade = Some(Fade(5));
    blueprint.hit_count = Some(HitCount { recent: true, count: 6 });
    blueprint.player_controller = Some(PlayerController { up: 7, down: 8 });
    blueprint.position = Some(Position { x: 9, y: 10 });
    blueprint.shape = Some(Shape { variant: ShapeVariant::Point, border: Some(11) });
    blueprint.shimmer = Some(Shimmer);
    blueprint.velocity = Some(Velocity { x: 12, y: 13 });
    let id = world.create(blueprint).unwrap();
    world.flush();
    assert_eq!(world.blueprint_of(id), blueprint);
    assert!(world.clamps().has(id));
    assert!(world.colors().has(id));
    assert!(world.fades().has(id));
    assert!(world.hit_counts().has(id));
    assert!(world.player_controllers().has(id));
    assert!(world.positions().has(id));
    assert!(world.shapes().has(id));
    assert!(world.shimmers().has(id));
    assert!(world.velocities().has(id));
    world.remove(id);
    world.flush();
    assert!(!world.clamps().has(id));
    assert!(!world.colors().has(id));
    assert!(!world.fades().has(id));
    assert!(!world.hit_counts().has(id));
    assert!(!world.player_controllers().has(id));
    assert!(!world.positions().has(id));
    assert!(!world.shapes().has(id));
    assert!(!world.shimmers().has(id));
    assert!(!world.velocities().has(id));
}

#[test]
fn removing_what_is_gone_does_nothing() {
    let mut world = World::new();
    let first = world.create(placed(0, 0)).unwrap();
    let second = world.create(placed(ONE, ONE)).unwrap();
    world.flush();
    world.remove(first);
    world.remove(first);
    world.flush();
    assert_eq!(world.entities(), vec![second]);
    world.remove(first);
    world.remove(99);
    world.remove(0);
    world.flush();
    assert_eq!(world.entities(), vec![second]);
    assert_eq!(world.positions().get(second), Some(Position { x: ONE, y: ONE }));
}

#[test]
fn created_and_removed_before_the_flush_never_lives() {
    let mut world = World::new();
    let id = world.create(placed(0, 0)).unwrap();
    world.remove(id);
    world.flush();
    assert!(!world.is_alive(id));
    assert!(!world.positions().has(id));
    assert!(world.entities().is_empty());
}

#[test]
fn matching_asks_for_every_component_of_the_aspect() {
    let mut world = World::new();
    let mut moving = placed(0, 0);
    moving.velocity = Some(Velocity { x: ONE, y: 0 });
    let mut shaped = moving;
    shaped.shape = Some(Shape { variant: ShapeVariant::Circle(ONE), border: None });
    let still = world.create(placed(0, 0)).unwrap();
    let mover = world.create(moving).unwrap();
    let bare = world.create(Blueprint::new()).unwrap();
    let ball = world.create(shaped).unwrap();
    world.flush();

    assert_eq!(world.matching(Aspect::new()), vec![still, mover, bare, ball]);
    assert_eq!(world.matching(positions()), vec![still, mover, ball]);
    let mut aspect = positions();
    aspect.velocities = true;
    assert_eq!(world.matching(aspect), vec![mover, ball]);
    aspect.shapes = true;
    assert_eq!(world.matching(aspect), vec![ball]);
    aspect.fades = true;
    assert!(world.matching(aspect).is_empty());

    for id in [still, mover, bare, ball] {
        let mut aspect = positions();
        aspect.velocities = true;
        let held = world.positions().has(id) && world.velocities().has(id);
        assert_eq!(world.holds(id, aspect), held);
        assert_eq!(world.matching(aspect).contains(&id), held);
    }
}

#[test]
fn matching_keeps_the_order_of_creation() {
    let mut world = World::new();
    let a = world.create(placed(0, 0)).unwrap();
    let b = world.create(placed(0, 0)).unwrap();
    world.flush();
    let c = world.create(placed(0, 0)).unwrap();
    world.remove(a);
    let d = world.create(placed(0, 0)).unwrap();
    world.flush();
    assert_eq!(world.entities(), vec![b, c, d]);
    assert_eq!(world.matching(positions()), vec![b, c, d]);
    assert_eq!(world.matching(positions()), world.matching(positions()));
}

#[test]
fn a_component_is_replaced_only_where_there_is_one() {
    let mut world = World::new();
    let id = world.create(placed(0, 0)).unwrap();
    world.flush();
    assert!(world.set_position(id, Position { x: 5, y: 6 }));
    assert_eq!(world.positions().get(id), Some(Position { x: 5, y: 6 }));
    assert!(!world.set_velocity(id, Velocity { x: 1, y: 1 }));
    assert_eq!(world.velocities().get(id), None);
    assert!(!world.set_position(id + 1, Position { x: 1, y: 1 }));
    assert_eq!(world.positions().get(id + 1), None);
    assert!(!world.set_clamp(id, WindowClamp { variant: ClampVariant::Bounce }));
    assert!(!world.set_color(id, Color { red: 0, green: 0, blue: 0, alpha: 0 }));
    assert!(!world.set_fade(id, Fade(1)));
    assert!(!world.set_hit_count(id, HitCount { recent: false, count: 0 }));
    assert!(!world.set_player_controller(id, PlayerController { up: 1, down: 2 }));
    assert!(!world.set_shape(id, Shape { variant: ShapeVariant::Point, border: None }));
    assert!(!world.set_shimmer(id, Shimmer));
    assert_eq!(world.blueprint_of(id), placed(5, 6));
}

#[test]
fn every_component_can_be_replaced() {
    let mut world = World::new();
    let mut blueprint = Blueprint::new();
    blueprint.clamp = Some(WindowClamp { variant: ClampVariant::Stop });
    blueprint.color = Some(Color { red: 1, green: 2, blue: 3, alpha: 4 });
    blueprint.fade = Some(Fade(5));
    blueprint.hit_count = Some(HitCount { recent: true, count: 6 });
    blueprint.player_controller = Some(PlayerController { up: 7, down: 8 });
    blueprint.position = Some(Position { x: 9, y: 10 });
    blueprint.shape = Some(Shape { variant: ShapeVariant::Point, border: Some(11) });
    blueprint.shimmer = Some(Shimmer);
    blueprint.velocity = Some(Velocity { x: 12, y: 13 });
    let id = world.create(blueprint).unwrap();
    world.flush();
    assert!(world.set_clamp(id, WindowClamp { variant: ClampVariant::Remove }));
    assert!(world.set_color(id, Color { red: 10, green: 20, blue: 30, alpha: 40 }));
    assert!(world.set_fade(id, Fade(50)));
    assert!(world.set_hit_count(id, HitCount { recent: false, count: 60 }));
    assert!(world.set_player_controller(id, PlayerController { up: 70, down: 80 }));
    assert!(world.set_position(id, Position { x: 90, y: 100 }));
    assert!(world.set_shape(id, Shape { variant: ShapeVariant::Circle(3), border: None }));
    assert!(world.set_shimmer(id, Shimmer));
    assert!(world.set_velocity(id, Velocity { x: 120, y: 130 }));
    assert_eq!(world.clamps().get(id), Some(WindowClamp { variant: ClampVariant::Remove }));
    assert_eq!(world.colors().get(id), Some(Color { red: 10, green: 20, blue: 30, alpha: 40 }));
    assert_eq!(world.fades().get(id), Some(Fade(50)));
    assert_eq!(world.hit_counts().get(id), Some(HitCount { recent: false, count: 60 }));
    assert_eq!(world.player_controllers().get(id), Some(PlayerController { up: 70, down: 80 }));
    assert_eq!(world.positions().get(id), Some(Position { x: 90, y: 100 }));
    assert_eq!(
        world.shapes().get(id),
        Some(Shape { variant: ShapeVariant::Circle(3), border: None })
    );
    assert_eq!(world.shimmers().get(id), Some(Shimmer));
    assert_eq!(world.velocities().get(id), Some(Velocity { x: 120, y: 130 }));
}

#[test]
fn the_default_shape_is_a_point() {
    assert_eq!(ShapeVariant::default(), ShapeVariant::Point);
}
