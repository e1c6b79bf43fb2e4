//! Paddles that follow the keyboard.

use crate::components::{PlayerController, Velocity};
use crate::deferral::{lemma_matching_distinct, lemma_only_asked_chains, only_asked};
use crate::event::{Button, Event};
use crate::fixed::negated;
use crate::store::{Aspect, EntityId, World, WorldView};
use vstd::prelude::*;

verus! {

/// The speed of a paddle that is steered up or down.
pub const PADDLE_V: i64 = 800_000_000;

/// Turns key presses and releases into the speed of the paddles.
pub struct ControlSystem;

/// The velocity of a paddle after an event. A press of its upper key sends it
/// up at `PADDLE_V`, a press of its lower key sends it down at `PADDLE_V`, and
/// a release of either stops it. Nothing else changes the velocity, and the
/// speed across never changes.
pub open spec fn spec_steered(v: Velocity, controller: PlayerController, event: Event) -> Velocity {
    match event {
        Event::Press(button) => if button == Button::Keyboard(controller.up) {
            Velocity { x: v.x, y: negated(PADDLE_V) }
        } else if button == Button::Keyboard(controller.down) {
            Velocity { x: v.x, y: PADDLE_V }
        } else {
            v
        },
        Event::Release(button) => if button == Button::Keyboard(controller.up) || button
            == Button::Keyboard(controller.down) {
            Velocity { x: v.x, y: 0 }
        } else {
            v
        },
        _ => v,
    }
}

/// The velocity of a paddle after an event, see [`spec_steered`].
#[verifier::when_used_as_spec(spec_steered)]
pub fn steered(v: Velocity, controller: PlayerController, event: Event) -> (after: Velocity)
    ensures
        after == spec_steered(v, controller, event),
{
    match event {
        Event::Press(button) => if button == Button::Keyboard(controller.up) {
            Velocity { x: v.x, y: negated(PADDLE_V) }
        } else if button == Button::Keyboard(controller.down) {
            Velocity { x: v.x, y: PADDLE_V }
        } else {
            v
        },
        Event::Release(button) => if button == Button::Keyboard(controller.up) || button
            == Button::Keyboard(controller.down) {
            Velocity { x: v.x, y: 0 }
        } else {
            v
        },
        _ => v,
    }
}

/// The world once `id` has been told of `event`. Only the velocity of an
/// entity with a player controller and a velocity can differ, as
/// [`spec_steered`] says.
pub open spec fn controlled(w: WorldView, id: EntityId, event: Event) -> WorldView {
    if w.player_controllers.contains_key(id) && w.velocities.contains_key(id) {
        WorldView {
            velocities: w.velocities.insert(
                id,
                spec_steered(w.velocities[id], w.player_controllers[id], event),
            ),
            ..w
        }
    } else {
        w
    }
}

/// The world once each of `ids` has been told of `event`, the first of them
/// first.
pub open spec fn controlled_all(w: WorldView, ids: Seq<EntityId>, event: Event) -> WorldView
    decreases ids.len(),
{
    if ids.len() == 0 {
        w
    } else {
        controlled(controlled_all(w, ids.drop_last(), event), ids.last(), event)
    }
}

/// The world after the control system's pass: every entity with a player
/// controller and a velocity has been told of the event.
pub open spec fn control_pass(w: WorldView, event: Event) -> WorldView {
    controlled_all(w, w.matching(ControlSystem::spec_aspect()), event)
}

/// Tells `id` of `event`, see [`controlled`].
pub fn control(world: &mut World, id: EntityId, event: Event)
    requires
        old(world).wf(),
    ensures
        final(world)@ == controlled(old(world)@, id, event),
        final(world).wf(),
{
    let controller = match world.player_controllers().get(id) {
        Some(controller) => controller,
        None => { return ; },
    };
    let v = match world.velocities().get(id) {
        Some(v) => v,
        None => { return ; },
    };
    world.set_velocity(id, steered(v, controller, event));
}

impl ControlSystem {
    /// What the system works on: entities with a player controller and a
    /// velocity.
    pub open spec fn spec_aspect() -> Aspect {
        Aspect { player_controllers: true, velocities: true, ..Aspect::empty() }
    }

    /// What the system works on, see [`ControlSystem::spec_aspect`].
    #[verifier::when_used_as_spec(spec_aspect)]
    pub fn aspect() -> (aspect: Aspect)
        ensures
            aspect == Self::spec_aspect(),
    {
        let mut aspect = Aspect::new();
        aspect.player_controllers = true;
        aspect.velocities = true;
        aspect
    }

    /// Runs the system's pass for one tick, see [`control_pass`].
    pub fn process(&mut self, event: Event, world: &mut World)
        requires
            old(world).wf(),
        ensures
            final(world)@ == control_pass(old(world)@, event),
            final(world).wf(),
    {
        let ids = world.matching(Self::aspect());
        let mut i: usize = 0;
        while i < ids.len()
            invariant
                i <= ids@.len(),
                world.wf(),
                world@ == controlled_all(old(world)@, ids@.take(i as int), event),
            decreases ids@.len() - i,
        {
            proof {
                assert(ids@.take(i + 1).drop_last() == ids@.take(i as int));
            }
            control(world, ids[i], event);
            i += 1;
        }
        proof {
            assert(ids@.take(i as int) == ids@);
        }
    }
}

/// An entity that is told of an event replaces its velocity, nothing else.
pub proof fn lemma_controlled_only_asks(w: WorldView, id: EntityId, event: Event)
    ensures
        only_asked(w, controlled(w, id, event)),
        controlled(w, id, event) == (WorldView {
            velocities: controlled(w, id, event).velocities,
            ..w
        }),
{
    if w.velocities.contains_key(id) {
        assert(controlled(w, id, event).velocities.dom() =~= w.velocities.dom());
    }
}

/// The control system's pass leaves the population as it is and asks for no
/// change. It replaces velocities and nothing else.
pub proof fn lemma_control_pass_only_asks(w: WorldView, event: Event)
    ensures
        only_asked(w, control_pass(w, event)),
        control_pass(w, event) == (WorldView {
            velocities: control_pass(w, event).velocities,
            ..w
        }),
{
    lemma_controlled_all_only_asks(w, w.matching(ControlSystem::spec_aspect()), event);
}

/// What [`lemma_controlled_only_asks`] says of one entity holds of many.
proof fn lemma_controlled_all_only_asks(w: WorldView, ids: Seq<EntityId>, event: Event)
    ensures
        only_asked(w, controlled_all(w, ids, event)),
        controlled_all(w, ids, event) == (WorldView {
            velocities: controlled_all(w, ids, event).velocities,
            ..w
        }),
    decreases ids.len(),
{
    if ids.len() > 0 {
        let before = controlled_all(w, ids.drop_last(), event);
        lemma_controlled_all_only_asks(w, ids.drop_last(), event);
        lemma_controlled_only_asks(before, ids.last(), event);
        lemma_only_asked_chains(w, before, controlled(before, ids.last(), event));
    }
}

/// What telling an entity of an event does to the components of an entity:
/// nothing to those of any other, and to its own what it would do in any
/// world in which it holds the same.
pub proof fn lemma_controlled_by_entity(
    a: WorldView,
    w: WorldView,
    it: EntityId,
    id: EntityId,
    event: Event,
)
    ensures
        id != it ==> controlled(a, it, event).blueprint_of(id) == a.blueprint_of(id),
        a.blueprint_of(it) == w.blueprint_of(it) ==> controlled(a, it, event).blueprint_of(it)
            == controlled(w, it, event).blueprint_of(it),
{
    if a.blueprint_of(it) == w.blueprint_of(it) {
        assert(a.clamps.get(it) == w.clamps.get(it));
        assert(a.colors.get(it) == w.colors.get(it));
        assert(a.fades.get(it) == w.fades.get(it));
        assert(a.hit_counts.get(it) == w.hit_counts.get(it));
        assert(a.player_controllers.get(it) == w.player_controllers.get(it));
        assert(a.positions.get(it) == w.positions.get(it));
        assert(a.shapes.get(it) == w.shapes.get(it));
        assert(a.shimmers.get(it) == w.shimmers.get(it));
        assert(a.velocities.get(it) == w.velocities.get(it));
    }
}

/// Among distinct entities that are told of an event, each ends with what
/// being told gives it, and every other entity keeps what it has.
proof fn lemma_controlled_all_by_entity(
    w: WorldView,
    ids: Seq<EntityId>,
    id: EntityId,
    event: Event,
)
    requires
        ids.no_duplicates(),
    ensures
        controlled_all(w, ids, event).blueprint_of(id) == if ids.contains(id) {
            controlled(w, id, event).blueprint_of(id)
        } else {
            w.blueprint_of(id)
        },
    decreases ids.len(),
{
    if ids.len() > 0 {
        let front = ids.drop_last();
        let it = ids.last();
        let before = controlled_all(w, front, event);
        lemma_controlled_all_by_entity(w, front, id, event);
        lemma_controlled_all_by_entity(w, front, it, event);
        lemma_controlled_by_entity(before, w, it, id, event);
        assert(ids[ids.len() - 1] == it);
        if front.contains(it) {
            let k = choose|k: int| 0 <= k < front.len() && front[k] == it;
            assert(ids[k] == it);
        }
        if front.contains(id) {
            let k = choose|k: int| 0 <= k < front.len() && front[k] == id;
            assert(ids[k] == id);
        }
        if ids.contains(id) && id != it {
            let k = choose|k: int| 0 <= k < ids.len() && ids[k] == id;
            assert(front[k] == id);
        }
    }
}

/// In the control system's pass over a consistent world every entity is
/// steered by itself: one that matches ends with the components that being
/// told of the event gives it, and one that does not keeps its own.
pub proof fn lemma_control_pass_by_entity(w: WorldView, event: Event, id: EntityId)
    requires
        w.wf(),
    ensures
        control_pass(w, event).blueprint_of(id) == if w.matching(
            ControlSystem::spec_aspect(),
        ).contains(id) {
            controlled(w, id, event).blueprint_of(id)
        } else {
            w.blueprint_of(id)
        },
{
    lemma_matching_distinct(w, ControlSystem::spec_aspect());
    lemma_controlled_all_by_entity(w, w.matching(ControlSystem::spec_aspect()), id, event);
}

} // verus!
