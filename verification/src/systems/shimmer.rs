//! Entities that change their color at random.

use crate::components::Color;
use crate::deferral::only_asked;
use crate::event::Event;
use crate::random::random_between;
use crate::store::{Aspect, EntityId, World, WorldView};
use vstd::prelude::*;

verus! {

/// The least that a channel of a shimmering color can be: three tenths.
pub const SHIMMER_LOW: i64 = 300_000;

/// The bound below which a channel of a shimmering color stays: one.
pub const SHIMMER_HIGH: i64 = 1_000_000;

/// Gives every shimmering entity a new color on every render tick.
pub struct ShimmerSystem;

/// The world once `id` has the given red, green and blue. Only the color of an
/// entity that has one differs, and its opacity stays.
pub open spec fn tinted(w: WorldView, id: EntityId, red: i64, green: i64, blue: i64) -> WorldView {
    if w.colors.contains_key(id) {
        WorldView {
            colors: w.colors.insert(id, Color { red, green, blue, alpha: w.colors[id].alpha }),
            ..w
        }
    } else {
        w
    }
}

/// Whether a channel is one that shimmering can give.
pub open spec fn shimmering(channel: i64) -> bool {
    SHIMMER_LOW <= channel < SHIMMER_HIGH
}

/// Whether `after` is what a shimmer of `ids` can make of `before`. Nothing
/// but colors differs and no entity gains or loses its color. Each of `ids`
/// that has a color has red, green and blue between `SHIMMER_LOW` and
/// `SHIMMER_HIGH` and the opacity that it had; every other color is as it
/// was.
pub open spec fn shimmered(before: WorldView, after: WorldView, ids: Seq<EntityId>) -> bool {
    &&& after == WorldView { colors: after.colors, ..before }
    &&& after.colors.dom() == before.colors.dom()
    &&& forall|id: EntityId| #[trigger]
        before.colors.contains_key(id) ==> if ids.contains(id) {
            &&& shimmering(after.colors[id].red)
            &&& shimmering(after.colors[id].green)
            &&& shimmering(after.colors[id].blue)
            &&& after.colors[id].alpha == before.colors[id].alpha
        } else {
            after.colors[id] == before.colors[id]
        }
}

/// Whether `after` is what the shimmer system's pass can make of `before`. On
/// a render event every entity with a color and the shimmer mark shimmers, see
/// [`shimmered`]; any other event changes nothing.
pub open spec fn shimmer_passed(before: WorldView, after: WorldView, event: Event) -> bool {
    match event {
        Event::Render { .. } => shimmered(
            before,
            after,
            before.matching(ShimmerSystem::spec_aspect()),
        ),
        _ => after == before,
    }
}

/// Gives `id` the red, green and blue that were drawn for it, see [`tinted`].
pub fn tint(world: &mut World, id: EntityId, red: i64, green: i64, blue: i64)
    requires
        old(world).wf(),
    ensures
        final(world)@ == tinted(old(world)@, id, red, green, blue),
        final(world).wf(),
{
    if let Some(color) = world.colors().get(id) {
        world.set_color(id, Color { red, green, blue, alpha: color.alpha });
    }
}

impl ShimmerSystem {
    /// What the system works on: entities with a color and the shimmer mark.
    pub open spec fn spec_aspect() -> Aspect {
        Aspect { colors: true, shimmers: true, ..Aspect::empty() }
    }

    /// What the system works on, see [`ShimmerSystem::spec_aspect`].
    #[verifier::when_used_as_spec(spec_aspect)]
    pub fn aspect() -> (aspect: Aspect)
        ensures
            aspect == Self::spec_aspect(),
    {
        let mut aspect = Aspect::new();
        aspect.colors = true;
        aspect.shimmers = true;
        aspect
    }

    /// Runs the system's pass for one tick. On a render event every entity
    /// with a color and the shimmer mark gets a red, a green and a blue that
    /// are drawn at random, each by itself; any other event changes nothing,
    /// see [`shimmer_passed`].
    pub fn process(&mut self, event: Event, world: &mut World)
        requires
            old(world).wf(),
        ensures
            shimmer_passed(old(world)@, final(world)@, event),
            final(world).wf(),
    {
        if event.render_args().is_none() {
            return ;
        }
        let ids = world.matching(Self::aspect());
        let mut i: usize = 0;
        while i < ids.len()
            invariant
                i <= ids@.len(),
                world.wf(),
                shimmered(old(world)@, world@, ids@.take(i as int)),
            decreases ids@.len() - i,
        {
            let red: i64 = random_between(SHIMMER_LOW, SHIMMER_HIGH);
            let green: i64 = random_between(SHIMMER_LOW, SHIMMER_HIGH);
            let blue: i64 = random_between(SHIMMER_LOW, SHIMMER_HIGH);
            let ghost before = world@;
            tint(world, ids[i], red, green, blue);
            proof {
                let now = ids@.take(i + 1);
                let then = ids@.take(i as int);
                assert forall|id: EntityId| now.contains(id) <==> then.contains(id) || id
                    == ids@[i as int] by {
                    if now.contains(id) {
                        let k = choose|k: int| 0 <= k < now.len() && now[k] == id;
                        if k < i {
                            assert(then[k] == id);
                        }
                    }
                    if then.contains(id) {
                        let k = choose|k: int| 0 <= k < then.len() && then[k] == id;
                        assert(now[k] == id);
                    }
                    if id == ids@[i as int] {
                        assert(now[i as int] == id);
                    }
                }
                assert(world@.colors.dom() =~= before.colors.dom());
            }
            i += 1;
        }
        proof {
            assert(ids@.take(i as int) == ids@);
        }
    }
}

/// Whatever is drawn, the shimmer system's pass leaves the population as it
/// is and asks for no change. It replaces colors and nothing else.
pub proof fn lemma_shimmer_pass_only_asks(before: WorldView, after: WorldView, event: Event)
    requires
        shimmer_passed(before, after, event),
    ensures
        only_asked(before, after),
        after == (WorldView { colors: after.colors, ..before }),
{
}

} // verus!
