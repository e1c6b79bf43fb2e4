//! The tick: every system runs once, in a fixed order, between two flushes.

use crate::deferral::{
    gone, lemma_asking_keeps_wf, lemma_flush_wf, lemma_gone_survives_asking,
    lemma_gone_survives_flush, lemma_only_asked_chains, only_asked,
};
use crate::event::Event;
use crate::store::{EntityId, World, WorldView};
use crate::systems::collision::{collision_pass, lemma_collision_pass_only_asks, CollisionSystem};
use crate::systems::control::{control_pass, lemma_control_pass_only_asks, ControlSystem};
use crate::systems::draw::{scene, spec_viewport, DrawSystem, Frame};
use crate::systems::fade::{fade_pass, lemma_fade_pass_only_asks, FadeSystem};
use crate::systems::game::{game_pass, lemma_game_pass_only_asks, GameSystem};
use crate::systems::mv::{lemma_move_pass_only_asks, move_pass, move_reports, Departure, MoveSystem};
use crate::systems::shimmer::{lemma_shimmer_pass_only_asks, shimmer_passed, ShimmerSystem};
use vstd::prelude::*;

verus! {

/// The systems, in the order in which a tick runs them, and the draw system
/// after them.
pub struct Systems {
    pub fade: FadeSystem,
    pub control: ControlSystem,
    pub collisions: CollisionSystem,
    pub moves: MoveSystem,
    pub shimmer: ShimmerSystem,
    pub game: GameSystem,
    pub draw: DrawSystem,
}

/// What a tick hands back to the platform.
#[derive(Debug)]
pub struct Tick {
    /// The entities that have left the playfield and are to be removed.
    pub reports: Vec<Departure>,
    /// What there is to draw, after a render event.
    pub frame: Option<Frame>,
}

/// The world of a tick once the waiting changes have taken effect and the
/// fade, control and collision systems have run, in this order.
pub open spec fn collided_world(w: WorldView, event: Event) -> WorldView {
    collision_pass(control_pass(fade_pass(w.flush(), event), event), event)
}

/// The world of a tick once the move system has run as well.
pub open spec fn moved_world(w: WorldView, event: Event) -> WorldView {
    move_pass(collided_world(w, event), event)
}

/// The world after a tick, given the world `lit` that the shimmer system has
/// made of [`moved_world`]: the game system has run, and the changes that the
/// systems asked for have taken effect.
pub open spec fn finished_world(lit: WorldView) -> WorldView {
    game_pass(lit).flush()
}

impl Systems {
    /// The systems of the game.
    pub fn new() -> (systems: Systems) {
        Systems {
            fade: FadeSystem,
            control: ControlSystem,
            collisions: CollisionSystem,
            moves: MoveSystem,
            shimmer: ShimmerSystem,
            game: GameSystem,
            draw: DrawSystem,
        }
    }

    /// Runs one tick. The changes that wait take effect; the fade, control,
    /// collision, move, shimmer and game systems run, in this order; the draw
    /// system lists the scene; and the changes that the systems asked for
    /// take effect. Only a render event lets the shimmer system change
    /// anything, and only then is there a scene.
    pub fn update(&mut self, world: &mut World, event: Event) -> (tick: Tick)
        requires
            old(world).wf(),
        ensures
            tick.reports@ == move_reports(collided_world(old(world)@, event), event),
            match event {
                Event::Render { width, height } => exists|lit: WorldView|
                    {
                        &&& #[trigger] shimmer_passed(moved_world(old(world)@, event), lit, event)
                        &&& final(world)@ == finished_world(lit)
                        &&& tick.frame matches Some(f) && f.viewport == spec_viewport(
                            width,
                            height,
                        ) && f.drawings@ == scene(game_pass(lit), width, height)
                    },
                _ => final(world)@ == finished_world(moved_world(old(world)@, event))
                    && tick.frame is None,
            },
            final(world).wf(),
    {
        world.flush();
        self.fade.process(event, world);
        self.control.process(event, world);
        self.collisions.process(event, world);
        let reports = self.moves.process(event, world);
        self.shimmer.process(event, world);
        let ghost lit = world@;
        self.game.process(world);
        let frame = self.draw.process(event, world);
        world.flush();
        proof {
            if event is Render {
                assert(shimmer_passed(moved_world(old(world)@, event), lit, event));
                assert(world@ == finished_world(lit));
            }
        }
        Tick { reports, frame }
    }
}

/// Throughout a tick the systems see one population, the one that the flush
/// at its start has left: what they ask for waits for the flush at its end.
/// This holds whatever the shimmer system makes of [`moved_world`].
pub proof fn lemma_tick_sees_one_population(w: WorldView, event: Event, lit: WorldView)
    requires
        shimmer_passed(moved_world(w, event), lit, event),
    ensures
        only_asked(w.flush(), fade_pass(w.flush(), event)),
        only_asked(w.flush(), control_pass(fade_pass(w.flush(), event), event)),
        only_asked(w.flush(), collided_world(w, event)),
        only_asked(w.flush(), moved_world(w, event)),
        only_asked(w.flush(), lit),
        only_asked(w.flush(), game_pass(lit)),
{
    let start = w.flush();
    let faded = fade_pass(start, event);
    let steered = control_pass(faded, event);
    let collided = collision_pass(steered, event);
    let moved = move_pass(collided, event);
    lemma_fade_pass_only_asks(start, event);
    lemma_control_pass_only_asks(faded, event);
    lemma_collision_pass_only_asks(steered, event);
    lemma_move_pass_only_asks(collided, event);
    lemma_shimmer_pass_only_asks(moved, lit, event);
    lemma_game_pass_only_asks(lit);
    lemma_only_asked_chains(start, faded, steered);
    lemma_only_asked_chains(start, steered, collided);
    lemma_only_asked_chains(start, collided, moved);
    lemma_only_asked_chains(start, moved, lit);
    lemma_only_asked_chains(start, lit, game_pass(lit));
}

/// A tick leaves a consistent world consistent, whatever the event and
/// whatever the shimmer system draws.
pub proof fn lemma_tick_keeps_wf(w: WorldView, event: Event, lit: WorldView)
    requires
        w.wf(),
        shimmer_passed(moved_world(w, event), lit, event),
    ensures
        finished_world(lit).wf(),
{
    lemma_flush_wf(w);
    lemma_tick_sees_one_population(w, event, lit);
    lemma_asking_keeps_wf(w.flush(), game_pass(lit));
    lemma_flush_wf(game_pass(lit));
}

/// An entity that is gone before a tick is gone after it, whatever the event
/// and whatever the shimmer system draws.
pub proof fn lemma_tick_revives_nothing(w: WorldView, event: Event, lit: WorldView, id: EntityId)
    requires
        gone(w, id),
        shimmer_passed(moved_world(w, event), lit, event),
    ensures
        gone(finished_world(lit), id),
{
    lemma_gone_survives_flush(w, id);
    lemma_tick_sees_one_population(w, event, lit);
    lemma_gone_survives_asking(w.flush(), game_pass(lit), id);
    lemma_gone_survives_flush(game_pass(lit), id);
}

/// Between the two flushes of a tick no hit counter counts down, whatever the
/// event and whatever the shimmer system draws: only the collision system
/// replaces hit counters, and the game system reads them.
pub proof fn lemma_tick_never_uncounts(w: WorldView, event: Event, lit: WorldView, id: EntityId)
    requires
        w.flush().hit_counts.contains_key(id),
        shimmer_passed(moved_world(w, event), lit, event),
    ensures
        game_pass(lit).hit_counts.contains_key(id),
        game_pass(lit).hit_counts[id].count >= w.flush().hit_counts[id].count,
        game_pass(lit).hit_counts == collided_world(w, event).hit_counts,
{
    let start = w.flush();
    let faded = fade_pass(start, event);
    let steered = control_pass(faded, event);
    let collided = collision_pass(steered, event);
    lemma_fade_pass_only_asks(start, event);
    lemma_control_pass_only_asks(faded, event);
    lemma_collision_pass_only_asks(steered, event);
    lemma_move_pass_only_asks(collided, event);
    lemma_game_pass_only_asks(lit);
    assert(steered.hit_counts.contains_key(id));
    assert(collided.hit_counts.dom().contains(id));
}

} // verus!
