use pong::components::{Color, Fade, Position};
use pong::event::{Button, Event};
use pong::fixed::ONE;
use pong::schedule::Systems;
use pong::store::{Aspect, Blueprint, EntityId, World};
use pong::systems::fade::fade;
use pong::systems::FadeSystem;

fn fading(alpha: i64, rate: i64) -> Blueprint {
    let mut blueprint = Blueprint::new();
    blueprint.color = Some(Color { red: 1, green: 2, blue: 3, alpha });
    blueprint.fade = Some(Fade(rate));
    blueprint.position = Some(Position { x: 0, y: 0 });
    blueprint
}

fn alone(blueprint: Blueprint) -> (World, EntityId) {
    let mut world = World::new();
    let id = world.create(blueprint).unwrap();
    world.flush();
    (world, id)
}

fn ticks_until_gone(alpha: i64, rate: i64) -> u32 {
    let (mut world, id) = alone(fading(alpha, rate));
    let mut systems = Systems::new();
    let mut ticks = 0;
    while world.is_alive(id) {
        systems.update(&mut world, Event::Update { dt: 8_333 });
        ticks += 1;
        assert!(ticks < 1000);
    }
    let mut colors = Aspect::new();
    colors.colors = true;
    assert!(!world.matching(colors).contains(&id));
    assert!(!world.matching(Aspect::new()).contains(&id));
    assert_eq!(world.blueprint_of(id), Blueprint::new());
    ticks
}

#[test]
fn an_entity_lasts_as_many_ticks_as_the_rate_goes_into_its_opacity() {
    // Three tenths go into one a little more than three times.
    assert_eq!(ticks_until_gone(ONE, 300_000), 4);
    assert_eq!(ticks_until_gone(ONE, 250_000), 4);
    assert_eq!(ticks_until_gone(ONE, 10_000), 100);
    assert_eq!(ticks_until_gone(ONE, ONE), 1);
    assert_eq!(ticks_until_gone(ONE, 5 * ONE), 1);
    assert_eq!(ticks_until_gone(ONE, ONE - 1), 2);
    assert_eq!(ticks_until_gone(1, 1), 1);
    assert_eq!(ticks_until_gone(7, 2), 4);
}

#[test]
fn opacity_goes_down_by_the_rate_whatever_the_time() {
    let (mut world, id) = alone(fading(ONE, 300_000));
    FadeSystem.process(Event::Update { dt: 1 }, &mut world);
    assert_eq!(world.colors().get(id), Some(Color { red: 1, green: 2, blue: 3, alpha: 700_000 }));
    FadeSystem.process(Event::Update { dt: 50 * ONE }, &mut world);
    assert_eq!(world.colors().get(id), Some(Color { red: 1, green: 2, blue: 3, alpha: 400_000 }));
    FadeSystem.process(Event::Update { dt: 0 }, &mut world);
    assert_eq!(world.colors().get(id), Some(Color { red: 1, green: 2, blue: 3, alpha: 100_000 }));
    world.flush();
    assert!(world.is_alive(id));
    FadeSystem.process(Event::Update { dt: 0 }, &mut world);
    assert_eq!(
        world.colors().get(id),
        Some(Color { red: 1, green: 2, blue: 3, alpha: -200_000 })
    );
    // The removal waits for the flush.
    assert!(world.is_alive(id));
    world.flush();
    assert!(!world.is_alive(id));
}

#[test]
fn an_entity_at_zero_opacity_goes() {
    let (mut world, id) = alone(fading(300_000, 300_000));
    FadeSystem.process(Event::Update { dt: 0 }, &mut world);
    assert_eq!(world.colors().get(id).unwrap().alpha, 0);
    world.flush();
    assert!(!world.is_alive(id));
}

#[test]
fn an_entity_that_cannot_be_seen_goes_at_once() {
    assert_eq!(ticks_until_gone(0, 10_000), 1);
    assert_eq!(ticks_until_gone(-5, 10_000), 1);
    assert_eq!(ticks_until_gone(-5, 0), 1);
}

#[test]
fn an_entity_that_does_not_fade_stays() {
    let (mut world, id) = alone(fading(ONE, 0));
    for _ in 0..10 {
        FadeSystem.process(Event::Update { dt: ONE }, &mut world);
        world.flush();
    }
    assert!(world.is_alive(id));
    assert_eq!(world.colors().get(id).unwrap().alpha, ONE);
}

#[test]
fn opacity_sticks_to_the_bounds() {
    let (mut world, id) = alone(fading(i64::MIN + 1, 5));
    FadeSystem.process(Event::Update { dt: 0 }, &mut world);
    assert_eq!(world.colors().get(id).unwrap().alpha, i64::MIN);
    let (mut world, id) = alone(fading(i64::MAX - 1, -5));
    FadeSystem.process(Event::Update { dt: 0 }, &mut world);
    assert_eq!(world.colors().get(id).unwrap().alpha, i64::MAX);
    world.flush();
    assert!(world.is_alive(id));
}

#[test]
fn fading_waits_for_an_update() {
    let (mut world, id) = alone(fading(ONE, ONE));
    for event in [
        Event::Render { width: 800 * ONE, height: 600 * ONE },
        Event::Press(Button::Keyboard(1)),
        Event::Release(Button::Keyboard(1)),
        Event::Other,
    ] {
        FadeSystem.process(event, &mut world);
        world.flush();
    }
    assert!(world.is_alive(id));
    assert_eq!(world.colors().get(id).unwrap().alpha, ONE);
}

#[test]
fn only_entities_with_a_color_and_a_rate_fade() {
    let mut world = World::new();
    let mut colored = fading(ONE, ONE);
    colored.fade = None;
    let mut rated = fading(ONE, ONE);
    rated.color = None;
    let colored = world.create(colored).unwrap();
    let rated = world.create(rated).unwrap();
    let both = world.create(fading(ONE, ONE)).unwrap();
    world.flush();
    assert_eq!(world.matching(FadeSystem::aspect()), vec![both]);
    FadeSystem.process(Event::Update { dt: 0 }, &mut world);
    fade(&mut world, colored);
    fade(&mut world, rated);
    fade(&mut world, 99);
    world.flush();
    assert_eq!(world.entities(), vec![colored, rated]);
    assert_eq!(world.colors().get(colored).unwrap().alpha, ONE);
}

#[test]
fn a_faded_entity_is_processed_no_more() {
    let (mut world, id) = alone(fading(ONE, ONE));
    let mut systems = Systems::new();
    systems.update(&mut world, Event::Update { dt: 0 });
    assert!(!world.is_alive(id));
    for _ in 0..3 {
        systems.update(&mut world, Event::Update { dt: 0 });
        assert!(!world.is_alive(id));
        assert!(world.entities().is_empty());
        assert_eq!(world.colors().get(id), None);
    }
}
