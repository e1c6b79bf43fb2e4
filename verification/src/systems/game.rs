//! The score, shown in the color of the entities that count hits.

use crate::components::Color;
use crate::deferral::{lemma_matching_distinct, lemma_only_asked_chains, only_asked};
use crate::store::{Aspect, EntityId, World, WorldView};
use vstd::prelude::*;

verus! {

/// How much red one hit adds: a tenth.
pub const SCORE_TINT: i64 = 100_000;

/// Shows how often an entity was hit by how red it is.
pub struct GameSystem;

/// The red of an entity that was hit `count` times.
pub open spec fn spec_score_tint(count: u32) -> i64 {
    (count * SCORE_TINT) as i64
}

/// The red of an entity that was hit `count` times.
#[verifier::when_used_as_spec(spec_score_tint)]
pub fn score_tint(count: u32) -> (red: i64)
    ensures
        red == count * SCORE_TINT,
{
    (count as i64) * SCORE_TINT
}

/// The world once the score of `id` shows. Only the red of an entity with a
/// hit counter and a color can differ; the hit counter stays as it is.
pub open spec fn scored(w: WorldView, id: EntityId) -> WorldView {
    if w.hit_counts.contains_key(id) && w.colors.contains_key(id) {
        WorldView {
            colors: w.colors.insert(
                id,
                Color { red: spec_score_tint(w.hit_counts[id].count), ..w.colors[id] },
            ),
            ..w
        }
    } else {
        w
    }
}

/// The world once the score of each of `ids` shows.
pub open spec fn scored_all(w: WorldView, ids: Seq<EntityId>) -> WorldView
    decreases ids.len(),
{
    if ids.len() == 0 {
        w
    } else {
        scored(scored_all(w, ids.drop_last()), ids.last())
    }
}

/// The world after the game system's pass, which runs on every event: the
/// score of every entity with a hit counter shows.
pub open spec fn game_pass(w: WorldView) -> WorldView {
    scored_all(w, w.matching(GameSystem::spec_aspect()))
}

/// Shows the score of `id`, see [`scored`].
pub fn score(world: &mut World, id: EntityId)
    requires
        old(world).wf(),
    ensures
        final(world)@ == scored(old(world)@, id),
        final(world).wf(),
{
    let hits = match world.hit_counts().get(id) {
        Some(hits) => hits,
        None => { return ; },
    };
    let color = match world.colors().get(id) {
        Some(color) => color,
        None => { return ; },
    };
    world.set_color(id, Color { red: score_tint(hits.count), ..color });
}

impl GameSystem {
    /// What the system works on: entities with a hit counter.
    pub open spec fn spec_aspect() -> Aspect {
        Aspect { hit_counts: true, ..Aspect::empty() }
    }

    /// What the system works on, see [`GameSystem::spec_aspect`].
    #[verifier::when_used_as_spec(spec_aspect)]
    pub fn aspect() -> (aspect: Aspect)
        ensures
            aspect == Self::spec_aspect(),
    {
        let mut aspect = Aspect::new();
        aspect.hit_counts = true;
        aspect
    }

    /// Runs the system's pass for one tick, see [`game_pass`].
    pub fn process(&mut self, world: &mut World)
        requires
            old(world).wf(),
        ensures
            final(world)@ == game_pass(old(world)@),
            final(world).wf(),
    {
        let ids = world.matching(Self::aspect());
        let mut i: usize = 0;
        while i < ids.len()
            invariant
                i <= ids@.len(),
                world.wf(),
                world@ == scored_all(old(world)@, ids@.take(i as int)),
            decreases ids@.len() - i,
        {
            proof {
                assert(ids@.take(i + 1).drop_last() == ids@.take(i as int));
            }
            score(world, ids[i]);
            i += 1;
        }
        proof {
            assert(ids@.take(i as int) == ids@);
        }
    }
}

/// An entity whose score shows replaces its color, nothing else: every hit
/// counter stays as it is.
pub proof fn lemma_scored_only_asks(w: WorldView, id: EntityId)
    ensures
        only_asked(w, scored(w, id)),
        scored(w, id) == (WorldView { colors: scored(w, id).colors, ..w }),
{
    if w.colors.contains_key(id) {
        assert(scored(w, id).colors.dom() =~= w.colors.dom());
    }
}

/// The game system's pass leaves the population as it is and asks for no
/// change. It replaces colors and nothing else: every hit counter stays as it
/// is.
pub proof fn lemma_game_pass_only_asks(w: WorldView)
    ensures
        only_asked(w, game_pass(w)),
        game_pass(w) == (WorldView { colors: game_pass(w).colors, ..w }),
{
    lemma_scored_all_only_asks(w, w.matching(GameSystem::spec_aspect()));
}

/// What [`lemma_scored_only_asks`] says of one entity holds of many.
proof fn lemma_scored_all_only_asks(w: WorldView, ids: Seq<EntityId>)
    ensures
        only_asked(w, scored_all(w, ids)),
        scored_all(w, ids) == (WorldView { colors: scored_all(w, ids).colors, ..w }),
    decreases ids.len(),
{
    if ids.len() > 0 {
        let before = scored_all(w, ids.drop_last());
        lemma_scored_all_only_asks(w, ids.drop_last());
        lemma_scored_only_asks(before, ids.last());
        lemma_only_asked_chains(w, before, scored(before, ids.last()));
    }
}

/// What showing an entity's score does to the components of an entity:
/// nothing to those of any other, and to its own what it would do in any
/// world in which it holds the same.
pub proof fn lemma_scored_by_entity(a: WorldView, w: WorldView, it: EntityId, id: EntityId)
    ensures
        id != it ==> scored(a, it).blueprint_of(id) == a.blueprint_of(id),
        a.blueprint_of(it) == w.blueprint_of(it) ==> scored(a, it).blueprint_of(it)
            == scored(w, it).blueprint_of(it),
{
    if a.blueprint_of(it) == w.blueprint_of(it) {
        assert(a.clamps.get(it) == w.clamps.get(it));
        assert(a.colors.get(it) == w.colors.get(it));
        assert(a.fades.get(it) == w.fades.get(it));
        assert(a.hit_counts.get(it) == w.hit_counts.get(it));
        assert(a.player_controllers.get(it) == w.player_controllers.get(it));
        assert(a.positions.get(it) == w.positions.get(it));
        assert(a.shapes.get(it) == w.shapes.get(it));
        assert(a.shimmers.get(it) == w.shimmers.get(it));
        assert(a.velocities.get(it) == w.velocities.get(it));
    }
}

/// Among distinct entities whose score shows, each ends with what showing
/// its score gives it, and every other entity keeps what it has.
proof fn lemma_scored_all_by_entity(w: WorldView, ids: Seq<EntityId>, id: EntityId)
    requires
        ids.no_duplicates(),
    ensures
        scored_all(w, ids).blueprint_of(id) == if ids.contains(id) {
            scored(w, id).blueprint_of(id)
        } else {
            w.blueprint_of(id)
        },
    decreases ids.len(),
{
    if ids.len() > 0 {
        let front = ids.drop_last();
        let it = ids.last();
        let before = scored_all(w, front);
        lemma_scored_all_by_entity(w, front, id);
        lemma_scored_all_by_entity(w, front, it);
        lemma_scored_by_entity(before, w, it, id);
        assert(ids[ids.len() - 1] == it);
        if front.contains(it) {
            let k = choose|k: int| 0 <= k < front.len() && front[k] == it;
            assert(ids[k] == it);
        }
        if front.contains(id) {
            let k = choose|k: int| 0 <= k < front.len() && front[k] == id;
            assert(ids[k] == id);
        }
        if ids.contains(id) && id != it {
            let k = choose|k: int| 0 <= k < ids.len() && ids[k] == id;
            assert(front[k] == id);
        }
    }
}

/// In the game system's pass over a consistent world every score shows by
/// itself: an entity that matches ends with the components that showing its
/// score gives it, and one that does not keeps its own.
pub proof fn lemma_game_pass_by_entity(w: WorldView, id: EntityId)
    requires
        w.wf(),
    ensures
        game_pass(w).blueprint_of(id) == if w.matching(GameSystem::spec_aspect()).contains(id) {
            scored(w, id).blueprint_of(id)
        } else {
            w.blueprint_of(id)
        },
{
    lemma_matching_distinct(w, GameSystem::spec_aspect());
    lemma_scored_all_by_entity(w, w.matching(GameSystem::spec_aspect()), id);
}

/// The game system's pass replaces nothing of a color but its red.
pub proof fn lemma_game_pass_keeps_opacity(w: WorldView, id: EntityId)
    requires
        w.colors.contains_key(id),
    ensures
        game_pass(w).colors.contains_key(id),
        game_pass(w).colors[id].green == w.colors[id].green,
        game_pass(w).colors[id].blue == w.colors[id].blue,
        game_pass(w).colors[id].alpha == w.colors[id].alpha,
{
    lemma_scored_all_keeps_opacity(w, w.matching(GameSystem::spec_aspect()), id);
}

/// Showing the scores of entities replaces nothing of a color but its red.
proof fn lemma_scored_all_keeps_opacity(w: WorldView, ids: Seq<EntityId>, id: EntityId)
    requires
        w.colors.contains_key(id),
    ensures
        scored_all(w, ids).colors.contains_key(id),
        scored_all(w, ids).colors[id].green == w.colors[id].green,
        scored_all(w, ids).colors[id].blue == w.colors[id].blue,
        scored_all(w, ids).colors[id].alpha == w.colors[id].alpha,
    decreases ids.len(),
{
    if ids.len() > 0 {
        lemma_scored_all_keeps_opacity(w, ids.drop_last(), id);
    }
}

} // verus!
