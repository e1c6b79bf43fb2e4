//! Motion, and what happens at the edges of the playfield.

use crate::components::{ClampVariant, Position, ShapeVariant, Velocity};
use crate::debug::{line, line_blueprint};
use crate::deferral::{
    lemma_matching_by_components, lemma_matching_distinct, lemma_only_created_chains,
    only_created,
};
use crate::event::Event;
use crate::fixed::{minus, negated, plus, product, times, ONE};
use crate::playfield::{DISP_FUDGE, VIEW_H, VIEW_W};
use crate::store::{Aspect, EntityId, World, WorldView};
use vstd::prelude::*;

verus! {

/// How fast the trail of a move fades: it is gone after one tick.
pub const TRAIL_FADE: i64 = 1_000_000;

/// Moves the entities and keeps them in the playfield as their edge policy
/// says.
pub struct MoveSystem;

/// The report that an entity with the policy to be removed has left the
/// playfield.
#[derive(Clone, Copy, PartialEq, Eq, Structural, Debug)]
pub struct Departure {
    pub entity: EntityId,
    /// It is beyond the left or the right edge.
    pub horizontal: bool,
    /// It is beyond the upper or the lower edge.
    pub vertical: bool,
}

/// How far a shape reaches from its position, across and down: a circle by
/// its radius, a rectangle by half its width and half its height, a point by
/// one unit, a line not at all.
pub open spec fn spec_extent(shape: ShapeVariant) -> (i64, i64) {
    match shape {
        ShapeVariant::Circle(radius) => (radius, radius),
        ShapeVariant::Square(half_w, half_h) => (half_w, half_h),
        ShapeVariant::Point => (ONE, ONE),
        ShapeVariant::Line(..) => (0, 0),
    }
}

/// How far a shape reaches from its position, see [`spec_extent`].
#[verifier::when_used_as_spec(spec_extent)]
pub fn extent(shape: ShapeVariant) -> (reach: (i64, i64))
    ensures
        reach == spec_extent(shape),
{
    match shape {
        ShapeVariant::Circle(radius) => (radius, radius),
        ShapeVariant::Square(half_w, half_h) => (half_w, half_h),
        ShapeVariant::Point => (ONE, ONE),
        ShapeVariant::Line(..) => (0, 0),
    }
}

/// The speed with which an entity leaves an edge that it reached: reversed
/// where it bounces, none where it stops.
pub open spec fn spec_rebound(policy: ClampVariant, speed: i64) -> i64 {
    match policy {
        ClampVariant::Bounce => negated(speed),
        ClampVariant::Stop => 0,
        ClampVariant::Remove => speed,
    }
}

/// The speed with which an entity leaves an edge, see [`spec_rebound`].
#[verifier::when_used_as_spec(spec_rebound)]
pub fn rebound(policy: ClampVariant, speed: i64) -> (after: i64)
    ensures
        after == spec_rebound(policy, speed),
{
    match policy {
        ClampVariant::Bounce => negated(speed),
        ClampVariant::Stop => 0,
        ClampVariant::Remove => speed,
    }
}

/// Where an entity stands on one axis, and how fast it moves there, once its
/// edge policy has been applied. The playfield runs from zero to `limit`; the
/// entity is at `at` and reaches `reach` to either side. One that bounces or
/// stops and reaches beyond `limit` is put `DISP_FUDGE` inside of it, else one
/// that reaches below zero is put `DISP_FUDGE` inside of zero; either leaves
/// with the speed that [`spec_rebound`] gives. All others stay as they are.
pub open spec fn spec_clamped(
    policy: ClampVariant,
    at: i64,
    speed: i64,
    reach: i64,
    limit: i64,
) -> (i64, i64) {
    if policy == ClampVariant::Remove {
        (at, speed)
    } else if at + reach > limit {
        (minus(minus(limit, reach), DISP_FUDGE), spec_rebound(policy, speed))
    } else if at - reach < 0 {
        (plus(reach, DISP_FUDGE), spec_rebound(policy, speed))
    } else {
        (at, speed)
    }
}

/// Applies the edge policy on one axis, see [`spec_clamped`].
#[verifier::when_used_as_spec(spec_clamped)]
pub fn clamped(policy: ClampVariant, at: i64, speed: i64, reach: i64, limit: i64) -> (after: (
    i64,
    i64,
))
    ensures
        after == spec_clamped(policy, at, speed, reach, limit),
{
    if policy == ClampVariant::Remove {
        (at, speed)
    } else if at as i128 + reach as i128 > limit as i128 {
        (minus(minus(limit, reach), DISP_FUDGE), rebound(policy, speed))
    } else if (at as i128 - reach as i128) < 0 {
        (plus(reach, DISP_FUDGE), rebound(policy, speed))
    } else {
        (at, speed)
    }
}

/// Whether an entity has left the playfield on one axis altogether: nothing
/// of it is between zero and `limit`.
pub open spec fn spec_departed(at: i64, reach: i64, limit: i64) -> bool {
    at - reach > limit || at + reach < 0
}

/// Whether an entity has left the playfield on one axis, see
/// [`spec_departed`].
#[verifier::when_used_as_spec(spec_departed)]
pub fn departed(at: i64, reach: i64, limit: i64) -> (gone: bool)
    ensures
        gone == spec_departed(at, reach, limit),
{
    at as i128 - reach as i128 > limit as i128 || (at as i128 + reach as i128) < 0
}

/// The world once `id` has moved for `dt` seconds. An entity that lacks one of
/// the system's components stays. Any other goes on by its velocity times
/// `dt`, has its edge policy applied on both axes, and leaves a trail behind:
/// a line from where it was to where it is now is asked for.
pub open spec fn moved(w: WorldView, id: EntityId, dt: i64) -> WorldView {
    if w.holds(id, MoveSystem::spec_aspect()) {
        let from = w.positions[id];
        let v = w.velocities[id];
        let reach = spec_extent(w.shapes[id].variant);
        let policy = w.clamps[id].variant;
        let across = spec_clamped(policy, plus(from.x, times(v.x, dt)), v.x, reach.0, VIEW_W);
        let down = spec_clamped(policy, plus(from.y, times(v.y, dt)), v.y, reach.1, VIEW_H);
        let there = WorldView {
            positions: w.positions.insert(id, Position { x: across.0, y: down.0 }),
            velocities: w.velocities.insert(id, Velocity { x: across.1, y: down.1 }),
            ..w
        };
        there.create(line_blueprint(from.x, from.y, across.0, down.0, TRAIL_FADE))
    } else {
        w
    }
}

/// What the move of `id` for `dt` seconds reports: that the entity has left
/// the playfield, where its policy is to be removed and it has, else nothing.
pub open spec fn departure(w: WorldView, id: EntityId, dt: i64) -> Option<Departure> {
    if w.holds(id, MoveSystem::spec_aspect()) && w.clamps[id].variant == ClampVariant::Remove {
        let from = w.positions[id];
        let v = w.velocities[id];
        let reach = spec_extent(w.shapes[id].variant);
        let horizontal = spec_departed(plus(from.x, times(v.x, dt)), reach.0, VIEW_W);
        let vertical = spec_departed(plus(from.y, times(v.y, dt)), reach.1, VIEW_H);
        if horizontal || vertical {
            Some(Departure { entity: id, horizontal, vertical })
        } else {
            None
        }
    } else {
        None
    }
}

/// The world once each of `ids` has moved for `dt` seconds, the first of them
/// first.
pub open spec fn moved_all(w: WorldView, ids: Seq<EntityId>, dt: i64) -> WorldView
    decreases ids.len(),
{
    if ids.len() == 0 {
        w
    } else {
        moved(moved_all(w, ids.drop_last(), dt), ids.last(), dt)
    }
}

/// What the moves of `ids` for `dt` seconds report, in the order of `ids`.
pub open spec fn departures(w: WorldView, ids: Seq<EntityId>, dt: i64) -> Seq<Departure>
    decreases ids.len(),
{
    if ids.len() == 0 {
        Seq::empty()
    } else {
        let before = departures(w, ids.drop_last(), dt);
        match departure(moved_all(w, ids.drop_last(), dt), ids.last(), dt) {
            Some(report) => before.push(report),
            None => before,
        }
    }
}

/// The world after the move system's pass. On an update event every entity
/// with a position, a shape, a velocity and an edge policy moves, in the order
/// of the entities; any other event changes nothing.
pub open spec fn move_pass(w: WorldView, event: Event) -> WorldView {
    match event {
        Event::Update { dt } => moved_all(w, w.matching(MoveSystem::spec_aspect()), dt),
        _ => w,
    }
}

/// What the move system's pass reports.
pub open spec fn move_reports(w: WorldView, event: Event) -> Seq<Departure> {
    match event {
        Event::Update { dt } => departures(w, w.matching(MoveSystem::spec_aspect()), dt),
        _ => Seq::empty(),
    }
}

/// Moves `id` for `dt` seconds, see [`moved`], and reports where it has left
/// the playfield, see [`departure`].
pub fn move_entity(world: &mut World, id: EntityId, dt: i64) -> (report: Option<Departure>)
    requires
        old(world).wf(),
    ensures
        final(world)@ == moved(old(world)@, id, dt),
        report == departure(old(world)@, id, dt),
        final(world).wf(),
{
    let from = match world.positions().get(id) {
        Some(p) => p,
        None => { return None; },
    };
    let shape = match world.shapes().get(id) {
        Some(s) => s,
        None => { return None; },
    };
    let v = match world.velocities().get(id) {
        Some(v) => v,
        None => { return None; },
    };
    let policy = match world.clamps().get(id) {
        Some(c) => c.variant,
        None => { return None; },
    };
    let reach = extent(shape.variant);
    let x: i64 = plus(from.x, times(v.x, dt));
    let y: i64 = plus(from.y, times(v.y, dt));
    let across = clamped(policy, x, v.x, reach.0, VIEW_W);
    let down = clamped(policy, y, v.y, reach.1, VIEW_H);
    world.set_position(id, Position { x: across.0, y: down.0 });
    world.set_velocity(id, Velocity { x: across.1, y: down.1 });
    line(world, [from.x, from.y, across.0, down.0], TRAIL_FADE);
    if policy == ClampVariant::Remove {
        let horizontal = departed(x, reach.0, VIEW_W);
        let vertical = departed(y, reach.1, VIEW_H);
        if horizontal || vertical {
            return Some(Departure { entity: id, horizontal, vertical });
        }
    }
    None
}

impl MoveSystem {
    /// What the system works on: entities with a position, a shape, a
    /// velocity and an edge policy.
    pub open spec fn spec_aspect() -> Aspect {
        Aspect { positions: true, shapes: true, velocities: true, clamps: true, ..Aspect::empty() }
    }

    /// What the system works on, see [`MoveSystem::spec_aspect`].
    #[verifier::when_used_as_spec(spec_aspect)]
    pub fn aspect() -> (aspect: Aspect)
        ensures
            aspect == Self::spec_aspect(),
    {
        let mut aspect = Aspect::new();
        aspect.positions = true;
        aspect.shapes = true;
        aspect.velocities = true;
        aspect.clamps = true;
        aspect
    }

    /// Runs the system's pass for one tick, see [`move_pass`], and returns the
    /// reports of the entities that have left the playfield, see
    /// [`move_reports`].
    pub fn process(&mut self, event: Event, world: &mut World) -> (reports: Vec<Departure>)
        requires
            old(world).wf(),
        ensures
            final(world)@ == move_pass(old(world)@, event),
            reports@ == move_reports(old(world)@, event),
            final(world).wf(),
    {
        let mut reports: Vec<Departure> = Vec::new();
        let dt = match event.update_args() {
            Some(dt) => dt,
            None => { return reports; },
        };
        let ids = world.matching(Self::aspect());
        let mut i: usize = 0;
        while i < ids.len()
            invariant
                i <= ids@.len(),
                world.wf(),
                world@ == moved_all(old(world)@, ids@.take(i as int), dt),
                reports@ == departures(old(world)@, ids@.take(i as int), dt),
            decreases ids@.len() - i,
        {
            proof {
                assert(ids@.take(i + 1).drop_last() == ids@.take(i as int));
            }
            if let Some(report) = move_entity(world, ids[i], dt) {
                reports.push(report);
            }
            i += 1;
        }
        proof {
            assert(ids@.take(i as int) == ids@);
        }
        reports
    }
}

/// An entity that reached an edge and was put back reaches no edge. This
/// holds of an entity that fits into the playfield with room to spare: one
/// that does not reach behind its position, and twice whose reach and
/// `DISP_FUDGE` are no more than `limit`.
pub proof fn lemma_clamp_settles(policy: ClampVariant, at: i64, speed: i64, reach: i64, limit: i64)
    requires
        0 <= reach,
        2 * reach + DISP_FUDGE <= limit,
    ensures
        ({
            let once = spec_clamped(policy, at, speed, reach, limit);
            spec_clamped(policy, once.0, once.1, reach, limit) == once
        }),
{
}

/// A circle that bounces and would reach beyond the far edge is put
/// `DISP_FUDGE` inside of it and has its speed reversed; applying the edge
/// policy once more corrects nothing.
pub proof fn lemma_bounce_settles(at: i64, speed: i64, radius: i64, limit: i64)
    requires
        0 <= radius,
        2 * radius + DISP_FUDGE <= limit,
        at + radius > limit,
    ensures
        ({
            let once = spec_clamped(ClampVariant::Bounce, at, speed, radius, limit);
            &&& once.0 == limit - radius - DISP_FUDGE
            &&& once.1 == negated(speed)
            &&& speed > i64::MIN ==> once.1 == -speed
            &&& spec_clamped(ClampVariant::Bounce, once.0, once.1, radius, limit) == once
        }),
{
}

/// Running the move once more within the same tick, when no more time has
/// passed, corrects nothing: the entity keeps its position and its velocity.
/// This holds of an entity that fits into the playfield with room to spare on
/// both axes.
pub proof fn lemma_move_settles(w: WorldView, id: EntityId, dt: i64)
    requires
        w.holds(id, MoveSystem::spec_aspect()),
        ({
            let reach = spec_extent(w.shapes[id].variant);
            &&& 0 <= reach.0
            &&& 2 * reach.0 + DISP_FUDGE <= VIEW_W
            &&& 0 <= reach.1
            &&& 2 * reach.1 + DISP_FUDGE <= VIEW_H
        }),
    ensures
        ({
            let once = moved(w, id, dt);
            let twice = moved(once, id, 0);
            &&& twice.positions[id] == once.positions[id]
            &&& twice.velocities[id] == once.velocities[id]
        }),
{
    let once = moved(w, id, dt);
    let reach = spec_extent(w.shapes[id].variant);
    let policy = w.clamps[id].variant;
    let at = once.positions[id];
    let v = once.velocities[id];
    assert(once.holds(id, MoveSystem::spec_aspect()));
    assert(product(v.x as int, 0) == 0);
    assert(product(v.y as int, 0) == 0);
    assert(plus(at.x, times(v.x, 0)) == at.x);
    assert(plus(at.y, times(v.y, 0)) == at.y);
    let from = w.positions[id];
    let u = w.velocities[id];
    lemma_clamp_settles(policy, plus(from.x, times(u.x, dt)), u.x, reach.0, VIEW_W);
    lemma_clamp_settles(policy, plus(from.y, times(u.y, dt)), u.y, reach.1, VIEW_H);
}

/// An entity that moves replaces its position and its velocity and asks for
/// its trail, nothing else: it removes nothing.
pub proof fn lemma_moved_only_asks(w: WorldView, id: EntityId, dt: i64)
    ensures
        only_created(w, moved(w, id, dt)),
        moved(w, id, dt) == (WorldView {
            positions: moved(w, id, dt).positions,
            velocities: moved(w, id, dt).velocities,
            last_id: moved(w, id, dt).last_id,
            queue: moved(w, id, dt).queue,
            ..w
        }),
{
    if w.holds(id, MoveSystem::spec_aspect()) {
        assert(moved(w, id, dt).positions.dom() =~= w.positions.dom());
        assert(moved(w, id, dt).velocities.dom() =~= w.velocities.dom());
    }
}

/// The move system's pass leaves the population as it is: the trails that it
/// asks for wait. It replaces positions and velocities and nothing else.
pub proof fn lemma_move_pass_only_asks(w: WorldView, event: Event)
    ensures
        only_created(w, move_pass(w, event)),
        move_pass(w, event) == (WorldView {
            positions: move_pass(w, event).positions,
            velocities: move_pass(w, event).velocities,
            last_id: move_pass(w, event).last_id,
            queue: move_pass(w, event).queue,
            ..w
        }),
{
    if let Event::Update { dt } = event {
        lemma_moved_all_only_asks(w, w.matching(MoveSystem::spec_aspect()), dt);
    }
}

/// What [`lemma_moved_only_asks`] says of one entity holds of many.
proof fn lemma_moved_all_only_asks(w: WorldView, ids: Seq<EntityId>, dt: i64)
    ensures
        only_created(w, moved_all(w, ids, dt)),
        moved_all(w, ids, dt) == (WorldView {
            positions: moved_all(w, ids, dt).positions,
            velocities: moved_all(w, ids, dt).velocities,
            last_id: moved_all(w, ids, dt).last_id,
            queue: moved_all(w, ids, dt).queue,
            ..w
        }),
    decreases ids.len(),
{
    if ids.len() > 0 {
        let before = moved_all(w, ids.drop_last(), dt);
        lemma_moved_all_only_asks(w, ids.drop_last(), dt);
        lemma_moved_only_asks(before, ids.last(), dt);
        lemma_only_created_chains(w, before, moved(before, ids.last(), dt));
    }
}

/// What an entity's move does to the components of an entity: nothing to
/// those of any other, and to its own what it would do in any world in which
/// it holds the same.
pub proof fn lemma_moved_by_entity(a: WorldView, w: WorldView, it: EntityId, id: EntityId, dt: i64)
    ensures
        id != it ==> moved(a, it, dt).blueprint_of(id) == a.blueprint_of(id),
        a.blueprint_of(it) == w.blueprint_of(it) ==> moved(a, it, dt).blueprint_of(it)
            == moved(w, it, dt).blueprint_of(it),
{
    if a.blueprint_of(it) == w.blueprint_of(it) {
        assert(a.clamps.get(it) == w.clamps.get(it));
        assert(a.colors.get(it) == w.colors.get(it));
        assert(a.fades.get(it) == w.fades.get(it));
        assert(a.hit_counts.get(it) == w.hit_counts.get(it));
        assert(a.player_controllers.get(it) == w.player_controllers.get(it));
        assert(a.positions.get(it) == w.positions.get(it));
        assert(a.shapes.get(it) == w.shapes.get(it));
        assert(a.shimmers.get(it) == w.shimmers.get(it));
        assert(a.velocities.get(it) == w.velocities.get(it));
    }
}

/// Among distinct entities that move, each ends with what its own move
/// gives it, and every other entity keeps what it has.
proof fn lemma_moved_all_by_entity(w: WorldView, ids: Seq<EntityId>, id: EntityId, dt: i64)
    requires
        ids.no_duplicates(),
    ensures
        moved_all(w, ids, dt).blueprint_of(id) == if ids.contains(id) {
            moved(w, id, dt).blueprint_of(id)
        } else {
            w.blueprint_of(id)
        },
    decreases ids.len(),
{
    if ids.len() > 0 {
        let front = ids.drop_last();
        let it = ids.last();
        let before = moved_all(w, front, dt);
        lemma_moved_all_by_entity(w, front, id, dt);
        lemma_moved_all_by_entity(w, front, it, dt);
        lemma_moved_by_entity(before, w, it, id, dt);
        assert(ids[ids.len() - 1] == it);
        if front.contains(it) {
            let k = choose|k: int| 0 <= k < front.len() && front[k] == it;
            assert(ids[k] == it);
        }
        if front.contains(id) {
            let k = choose|k: int| 0 <= k < front.len() && front[k] == id;
            assert(ids[k] == id);
        }
        if ids.contains(id) && id != it {
            let k = choose|k: int| 0 <= k < ids.len() && ids[k] == id;
            assert(front[k] == id);
        }
    }
}

/// In the move system's pass over a consistent world every entity moves by
/// itself: one that matches ends with the components that its own move gives
/// it, whatever the others do, and one that does not keeps its own.
pub proof fn lemma_move_pass_by_entity(w: WorldView, dt: i64, id: EntityId)
    requires
        w.wf(),
    ensures
        move_pass(w, Event::Update { dt }).blueprint_of(id) == if w.matching(
            MoveSystem::spec_aspect(),
        ).contains(id) {
            moved(w, id, dt).blueprint_of(id)
        } else {
            w.blueprint_of(id)
        },
{
    lemma_matching_distinct(w, MoveSystem::spec_aspect());
    lemma_moved_all_by_entity(w, w.matching(MoveSystem::spec_aspect()), id, dt);
}

/// A circle that bounces and would reach beyond the right edge after its
/// move ends the move system's pass `DISP_FUDGE` inside of that edge, with
/// its speed across reversed, whatever else is in the world. This holds where
/// the arithmetic stays in range: the radius is not so far below zero that
/// the place inside the edge leaves the range of a scalar, and the speed is
/// not the least scalar, which has no opposite.
pub proof fn lemma_bounces_off_right_edge(w: WorldView, dt: i64, id: EntityId)
    requires
        w.wf(),
        w.holds(id, MoveSystem::spec_aspect()),
        w.shapes[id].variant is Circle,
        w.clamps[id].variant == ClampVariant::Bounce,
        plus(w.positions[id].x, times(w.velocities[id].x, dt)) + w.shapes[id].variant->Circle_0
            > VIEW_W,
        VIEW_W - w.shapes[id].variant->Circle_0 - DISP_FUDGE <= i64::MAX,
        w.velocities[id].x > i64::MIN,
    ensures
        ({
            let after = move_pass(w, Event::Update { dt });
            &&& after.positions.contains_key(id)
            &&& after.velocities.contains_key(id)
            &&& after.positions[id].x == VIEW_W - w.shapes[id].variant->Circle_0 - DISP_FUDGE
            &&& after.velocities[id].x == -w.velocities[id].x
        }),
{
    let after = move_pass(w, Event::Update { dt });
    lemma_matching_by_components(w, MoveSystem::spec_aspect(), id);
    lemma_move_pass_by_entity(w, dt, id);
    assert(after.positions.get(id) == moved(w, id, dt).positions.get(id));
    assert(after.velocities.get(id) == moved(w, id, dt).velocities.get(id));
}

} // verus!
