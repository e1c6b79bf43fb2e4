use pong::components::{Color, HitCount, Shimmer};
use pong::event::{Button, Event};
use pong::fixed::ONE;
use pong::store::{Aspect, Blueprint, EntityId, World};
use pong::systems::game::{score, score_tint, SCORE_TINT};
use pong::systems::shimmer::{tint, SHIMMER_HIGH, SHIMMER_LOW};
use pong::systems::{GameSystem, ShimmerSystem};

const PLAIN: Color = Color { red: 1, green: 2, blue: 3, alpha: 123_456 };
const RENDER: Event = Event::Render { width: 800 * ONE, height: 600 * ONE };

fn shimmering() -> Blueprint {
    let mut blueprint = Blueprint::new();
    blueprint.color = Some(PLAIN);
    blueprint.shimmer = Some(Shimmer);
    blueprint
}

fn counting(count: u32) -> Blueprint {
    let mut blueprint = Blueprint::new();
    blueprint.color = Some(PLAIN);
    blueprint.hit_count = Some(HitCount { recent: false, count });
    blueprint
}

fn alone(blueprint: Blueprint) -> (World, EntityId) {
    let mut world = World::new();
    let id = world.create(blueprint).unwrap();
    world.flush();
    (world, id)
}

#[test]
fn shimmer_stays_in_its_range() {
    assert_eq!(SHIMMER_LOW, 3 * ONE / 10);
    assert_eq!(SHIMMER_HIGH, ONE);
    let mut world = World::new();
    let ids: Vec<EntityId> = (0..20).map(|_| world.create(shimmering()).unwrap()).collect();
    world.flush();
    let mut channels = Vec::new();
    for _ in 0..20 {
        ShimmerSystem.process(RENDER, &mut world);
        for &id in &ids {
            let color = world.colors().get(id).unwrap();
            for channel in [color.red, color.green, color.blue] {
                assert!(SHIMMER_LOW <= channel && channel < SHIMMER_HIGH);
                channels.push(channel);
            }
            assert_eq!(color.alpha, PLAIN.alpha);
        }
    }
    // The draws are not all the same, and not all are a bound.
    channels.sort();
    channels.dedup();
    assert!(channels.len() > 100);
    world.flush();
    assert_eq!(world.entities(), ids);
}

#[test]
fn shimmer_waits_for_a_render() {
    let (mut world, id) = alone(shimmering());
    for event in [
        Event::Update { dt: ONE },
        Event::Press(Button::Keyboard(1)),
        Event::Release(Button::Keyboard(1)),
        Event::Other,
    ] {
        ShimmerSystem.process(event, &mut world);
        assert_eq!(world.colors().get(id), Some(PLAIN));
    }
}

#[test]
fn only_marked_entities_with_a_color_shimmer() {
    let mut world = World::new();
    let mut plain = shimmering();
    plain.shimmer = None;
    let mut blank = shimmering();
    blank.color = None;
    let plain = world.create(plain).unwrap();
    let blank = world.create(blank).unwrap();
    let both = world.create(shimmering()).unwrap();
    world.flush();
    assert_eq!(world.matching(ShimmerSystem::aspect()), vec![both]);
    ShimmerSystem.process(RENDER, &mut world);
    assert_eq!(world.colors().get(plain), Some(PLAIN));
    assert_eq!(world.colors().get(blank), None);
    assert_ne!(world.colors().get(both), Some(PLAIN));
    let mut aspect = Aspect::new();
    aspect.colors = true;
    aspect.shimmers = true;
    assert_eq!(ShimmerSystem::aspect(), aspect);
}

#[test]
fn a_tint_keeps_the_opacity() {
    let (mut world, id) = alone(shimmering());
    tint(&mut world, id, 7, 8, 9);
    assert_eq!(world.colors().get(id), Some(Color { red: 7, green: 8, blue: 9, alpha: 123_456 }));
    tint(&mut world, id + 1, 7, 8, 9);
    assert_eq!(world.colors().get(id + 1), None);
}

#[test]
fn the_score_shows_in_red() {
    assert_eq!(SCORE_TINT, ONE / 10);
    assert_eq!(score_tint(0), 0);
    assert_eq!(score_tint(3), 300_000);
    assert_eq!(score_tint(u32::MAX), 429_496_729_500_000);
    let (mut world, id) = alone(counting(3));
    for event in [
        Event::Update { dt: ONE },
        RENDER,
        Event::Press(Button::Keyboard(1)),
        Event::Release(Button::Keyboard(1)),
        Event::Other,
    ] {
        world.set_color(id, PLAIN);
        let mut systems = pong::schedule::Systems::new();
        systems.update(&mut world, event);
        assert_eq!(
            world.colors().get(id),
            Some(Color { red: 300_000, green: 2, blue: 3, alpha: 123_456 })
        );
        assert_eq!(world.hit_counts().get(id), Some(HitCount { recent: false, count: 3 }));
    }
}

#[test]
fn only_entities_with_a_counter_and_a_color_show_a_score() {
    let mut world = World::new();
    let mut blank = counting(5);
    blank.color = None;
    let mut plain = counting(5);
    plain.hit_count = None;
    let blank = world.create(blank).unwrap();
    let plain = world.create(plain).unwrap();
    let both = world.create(counting(5)).unwrap();
    world.flush();
    assert_eq!(world.matching(GameSystem::aspect()), vec![blank, both]);
    GameSystem.process(&mut world);
    score(&mut world, plain);
    score(&mut world, 99);
    assert_eq!(world.colors().get(blank), None);
    assert_eq!(world.colors().get(plain), Some(PLAIN));
    assert_eq!(world.colors().get(both).unwrap().red, 500_000);
    assert_eq!(world.hit_counts().get(blank), Some(HitCount { recent: false, count: 5 }));
    let mut aspect = Aspect::new();
    aspect.hit_counts = true;
    assert_eq!(GameSystem::aspect(), aspect);
}
