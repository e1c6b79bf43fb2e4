//! Entities that fade away.

use crate::components::Color;
use crate::event::Event;
use crate::fixed::minus;
use crate::deferral::{
    lemma_matching_by_components, lemma_matching_distinct, lemma_only_asked_chains, only_asked,
    removes,
};
use crate::store::{Aspect, Change, EntityId, World, WorldView};
use vstd::prelude::*;

verus! {

/// Makes fading entities more transparent and asks for the removal of those
/// that can no longer be seen.
pub struct FadeSystem;

/// The world once `id` has faded for a tick. An entity that lacks a color or a
/// fade rate stays. Any other loses its fade rate in opacity, whatever time
/// the tick took, and has its removal asked for once its opacity is zero or
/// less.
pub open spec fn faded(w: WorldView, id: EntityId) -> WorldView {
    if w.colors.contains_key(id) && w.fades.contains_key(id) {
        let color = w.colors[id];
        let alpha = minus(color.alpha, w.fades[id].0);
        let paler = WorldView { colors: w.colors.insert(id, Color { alpha, ..color }), ..w };
        if alpha <= 0 {
            paler.remove(id)
        } else {
            paler
        }
    } else {
        w
    }
}

/// The world once each of `ids` has faded for a tick, the first of them first.
pub open spec fn faded_all(w: WorldView, ids: Seq<EntityId>) -> WorldView
    decreases ids.len(),
{
    if ids.len() == 0 {
        w
    } else {
        faded(faded_all(w, ids.drop_last()), ids.last())
    }
}

/// The world after the fade system's pass. On an update event every entity
/// with a color and a fade rate fades, in the order of the entities; any other
/// event changes nothing.
pub open spec fn fade_pass(w: WorldView, event: Event) -> WorldView {
    match event {
        Event::Update { .. } => faded_all(w, w.matching(FadeSystem::spec_aspect())),
        _ => w,
    }
}

/// Lets `id` fade for a tick, see [`faded`].
pub fn fade(world: &mut World, id: EntityId)
    requires
        old(world).wf(),
    ensures
        final(world)@ == faded(old(world)@, id),
        final(world).wf(),
{
    let color = match world.colors().get(id) {
        Some(color) => color,
        None => { return ; },
    };
    let rate = match world.fades().get(id) {
        Some(fade) => fade.0,
        None => { return ; },
    };
    let alpha: i64 = minus(color.alpha, rate);
    world.set_color(id, Color { alpha, ..color });
    if alpha <= 0 {
        world.remove(id);
    }
}

impl FadeSystem {
    /// What the system works on: entities with a color and a fade rate.
    pub open spec fn spec_aspect() -> Aspect {
        Aspect { colors: true, fades: true, ..Aspect::empty() }
    }

    /// What the system works on, see [`FadeSystem::spec_aspect`].
    #[verifier::when_used_as_spec(spec_aspect)]
    pub fn aspect() -> (aspect: Aspect)
        ensures
            aspect == Self::spec_aspect(),
    {
        let mut aspect = Aspect::new();
        aspect.colors = true;
        aspect.fades = true;
        aspect
    }

    /// Runs the system's pass for one tick, see [`fade_pass`].
    pub fn process(&mut self, event: Event, world: &mut World)
        requires
            old(world).wf(),
        ensures
            final(world)@ == fade_pass(old(world)@, event),
            final(world).wf(),
    {
        if event.update_args().is_none() {
            return ;
        }
        let ids = world.matching(Self::aspect());
        let mut i: usize = 0;
        while i < ids.len()
            invariant
                i <= ids@.len(),
                world.wf(),
                world@ == faded_all(old(world)@, ids@.take(i as int)),
            decreases ids@.len() - i,
        {
            proof {
                assert(ids@.take(i + 1).drop_last() == ids@.take(i as int));
            }
            fade(world, ids[i]);
            i += 1;
        }
        proof {
            assert(ids@.take(i as int) == ids@);
        }
    }
}

/// The world once `id` has faded for `ticks` ticks.
pub open spec fn faded_times(w: WorldView, id: EntityId, ticks: nat) -> WorldView
    decreases ticks,
{
    if ticks == 0 {
        w
    } else {
        faded(faded_times(w, id, (ticks - 1) as nat), id)
    }
}

/// How many ticks an entity with this opacity and this fade rate lasts: the
/// opacity divided by the rate, rounded up.
pub open spec fn ticks_to_fade(alpha: i64, rate: i64) -> int {
    (alpha + rate - 1) / (rate as int)
}

/// An entity that can be seen and fades at a positive rate has its removal
/// asked for in the tick in which its opacity has been used up, and in no
/// tick before: after as many ticks as the rate goes into the opacity,
/// rounded up. Until then its opacity goes down by the rate in each tick.
pub proof fn lemma_fades_on_time(w: WorldView, id: EntityId, ticks: nat)
    requires
        w.colors.contains_key(id),
        w.fades.contains_key(id),
        w.colors[id].alpha > 0,
        w.fades[id].0 > 0,
        ticks <= ticks_to_fade(w.colors[id].alpha, w.fades[id].0),
    ensures
        ({
            let after = faded_times(w, id, ticks);
            let last = ticks_to_fade(w.colors[id].alpha, w.fades[id].0);
            &&& after.colors.contains_key(id)
            &&& after.fades == w.fades
            &&& after.colors[id].alpha == w.colors[id].alpha - ticks * w.fades[id].0
            &&& ticks < last ==> after.colors[id].alpha > 0 && after.queue == w.queue
            &&& ticks == last ==> after.colors[id].alpha <= 0 && after.queue == w.queue.push(
                Change::Remove(id),
            )
        }),
    decreases ticks,
{
    let alpha = w.colors[id].alpha as int;
    let rate = w.fades[id].0 as int;
    let last = ticks_to_fade(w.colors[id].alpha, w.fades[id].0);
    lemma_rounded_up(alpha, rate);
    if ticks > 0 {
        lemma_fades_on_time(w, id, (ticks - 1) as nat);
        assert(ticks * rate == (ticks - 1) * rate + rate) by (nonlinear_arith);
        assert((ticks - 1) * rate <= (last - 1) * rate) by (nonlinear_arith)
            requires
                ticks <= last,
                rate > 0,
        ;
        if ticks < last {
            assert(ticks * rate <= (last - 1) * rate) by (nonlinear_arith)
                requires
                    ticks < last,
                    rate > 0,
            ;
        }
        assert(last * rate == (last - 1) * rate + rate) by (nonlinear_arith);
    } else {
        assert(ticks * rate == 0) by (nonlinear_arith)
            requires
                ticks == 0,
        ;
        assert(last > 0) by (nonlinear_arith)
            requires
                (last - 1) * rate < alpha <= last * rate,
                alpha > 0,
                rate > 0,
        ;
    }
}

/// The quotient of `alpha + rate - 1` by `rate` is `alpha` by `rate`, rounded
/// up.
pub proof fn lemma_rounded_up(alpha: int, rate: int)
    by (nonlinear_arith)
    requires
        alpha > 0,
        rate > 0,
    ensures
        ((alpha + rate - 1) / rate - 1) * rate < alpha <= ((alpha + rate - 1) / rate) * rate,
{
}

/// An entity that fades replaces its color and may ask for its removal,
/// nothing else.
pub proof fn lemma_faded_only_asks(w: WorldView, id: EntityId)
    ensures
        only_asked(w, faded(w, id)),
        faded(w, id) == (WorldView { colors: faded(w, id).colors, queue: faded(w, id).queue, ..w }),
{
    if w.colors.contains_key(id) {
        assert(faded(w, id).colors.dom() =~= w.colors.dom());
    }
}

/// The fade system's pass leaves the population as it is: the removals that
/// it asks for wait. It replaces colors and nothing else.
pub proof fn lemma_fade_pass_only_asks(w: WorldView, event: Event)
    ensures
        only_asked(w, fade_pass(w, event)),
        fade_pass(w, event) == (WorldView {
            colors: fade_pass(w, event).colors,
            queue: fade_pass(w, event).queue,
            ..w
        }),
{
    lemma_faded_all_only_asks(w, w.matching(FadeSystem::spec_aspect()));
}

/// What [`lemma_faded_only_asks`] says of one entity holds of many.
proof fn lemma_faded_all_only_asks(w: WorldView, ids: Seq<EntityId>)
    ensures
        only_asked(w, faded_all(w, ids)),
        faded_all(w, ids) == (WorldView {
            colors: faded_all(w, ids).colors,
            queue: faded_all(w, ids).queue,
            ..w
        }),
    decreases ids.len(),
{
    if ids.len() > 0 {
        let before = faded_all(w, ids.drop_last());
        lemma_faded_all_only_asks(w, ids.drop_last());
        lemma_faded_only_asks(before, ids.last());
        lemma_only_asked_chains(w, before, faded(before, ids.last()));
    }
}

/// What an entity's fading does to the components of an entity: nothing to
/// those of any other, and to its own what it would do in any world in which
/// it holds the same.
pub proof fn lemma_faded_by_entity(a: WorldView, w: WorldView, it: EntityId, id: EntityId)
    ensures
        id != it ==> faded(a, it).blueprint_of(id) == a.blueprint_of(id),
        a.blueprint_of(it) == w.blueprint_of(it) ==> faded(a, it).blueprint_of(it)
            == faded(w, it).blueprint_of(it),
{
    if a.blueprint_of(it) == w.blueprint_of(it) {
        assert(a.clamps.get(it) == w.clamps.get(it));
        assert(a.colors.get(it) == w.colors.get(it));
        assert(a.fades.get(it) == w.fades.get(it));
        assert(a.hit_counts.get(it) == w.hit_counts.get(it));
        assert(a.player_controllers.get(it) == w.player_controllers.get(it));
        assert(a.positions.get(it) == w.positions.get(it));
        assert(a.shapes.get(it) == w.shapes.get(it));
        assert(a.shimmers.get(it) == w.shimmers.get(it));
        assert(a.velocities.get(it) == w.velocities.get(it));
    }
}

/// Among distinct entities that fade, each ends with what its own fading
/// gives it, and every other entity keeps what it has.
proof fn lemma_faded_all_by_entity(w: WorldView, ids: Seq<EntityId>, id: EntityId)
    requires
        ids.no_duplicates(),
    ensures
        faded_all(w, ids).blueprint_of(id) == if ids.contains(id) {
            faded(w, id).blueprint_of(id)
        } else {
            w.blueprint_of(id)
        },
    decreases ids.len(),
{
    if ids.len() > 0 {
        let front = ids.drop_last();
        let it = ids.last();
        let before = faded_all(w, front);
        lemma_faded_all_by_entity(w, front, id);
        lemma_faded_all_by_entity(w, front, it);
        lemma_faded_by_entity(before, w, it, id);
        assert(ids[ids.len() - 1] == it);
        if front.contains(it) {
            let k = choose|k: int| 0 <= k < front.len() && front[k] == it;
            assert(ids[k] == it);
        }
        if front.contains(id) {
            let k = choose|k: int| 0 <= k < front.len() && front[k] == id;
            assert(ids[k] == id);
        }
        if ids.contains(id) && id != it {
            let k = choose|k: int| 0 <= k < ids.len() && ids[k] == id;
            assert(front[k] == id);
        }
    }
}

/// In the fade system's pass over a consistent world every entity fades by
/// itself: one that matches ends with the components that its own fading
/// gives it, whatever the others do, and one that does not keeps its own.
pub proof fn lemma_fade_pass_by_entity(w: WorldView, event: Event, id: EntityId)
    requires
        w.wf(),
    ensures
        fade_pass(w, event).blueprint_of(id) == if event is Update && w.matching(
            FadeSystem::spec_aspect(),
        ).contains(id) {
            faded(w, id).blueprint_of(id)
        } else {
            w.blueprint_of(id)
        },
{
    lemma_matching_distinct(w, FadeSystem::spec_aspect());
    if event is Update {
        lemma_faded_all_by_entity(w, w.matching(FadeSystem::spec_aspect()), id);
    }
}

/// Whether `id` fades out in its next tick: it has a color and a fade rate,
/// and the rate uses up its opacity.
pub open spec fn fades_out(w: WorldView, id: EntityId) -> bool {
    &&& w.colors.contains_key(id)
    &&& w.fades.contains_key(id)
    &&& minus(w.colors[id].alpha, w.fades[id].0) <= 0
}

/// Distinct entities that fade ask for removals only, and for the removal of
/// exactly those among them that fade out.
proof fn lemma_faded_all_removes(w: WorldView, ids: Seq<EntityId>, id: EntityId)
    requires
        ids.no_duplicates(),
    ensures
        ({
            let after = faded_all(w, ids);
            &&& forall|i: int|
                w.queue.len() <= i < after.queue.len() ==> #[trigger] after.queue[i] is Remove
            &&& removes(after.queue, id) <==> removes(w.queue, id) || (ids.contains(id)
                && fades_out(w, id))
        }),
    decreases ids.len(),
{
    lemma_faded_all_only_asks(w, ids);
    if ids.len() > 0 {
        let front = ids.drop_last();
        let it = ids.last();
        let before = faded_all(w, front);
        let after = faded(before, it);
        lemma_faded_all_removes(w, front, id);
        lemma_faded_all_only_asks(w, front);
        lemma_faded_all_by_entity(w, front, it);
        assert(ids[ids.len() - 1] == it);
        if front.contains(it) {
            let k = choose|k: int| 0 <= k < front.len() && front[k] == it;
            assert(ids[k] == it);
        }
        assert(before.colors.get(it) == w.colors.get(it));
        assert(before.fades.get(it) == w.fades.get(it));
        assert(fades_out(before, it) == fades_out(w, it));
        if front.contains(id) {
            let k = choose|k: int| 0 <= k < front.len() && front[k] == id;
            assert(ids[k] == id);
        }
        if ids.contains(id) && id != it {
            let k = choose|k: int| 0 <= k < ids.len() && ids[k] == id;
            assert(front[k] == id);
        }
        assert forall|i: int| w.queue.len() <= i < after.queue.len() implies #[trigger]
            after.queue[i] is Remove by {
            if i < before.queue.len() {
                assert(after.queue[i] == before.queue[i]);
            }
        }
        if removes(after.queue, id) {
            let i = choose|i: int|
                0 <= i < after.queue.len() && #[trigger] after.queue[i] == Change::Remove(id);
            if i < before.queue.len() {
                assert(before.queue[i] == Change::Remove(id));
            }
        }
        if removes(before.queue, id) {
            let i = choose|i: int|
                0 <= i < before.queue.len() && #[trigger] before.queue[i] == Change::Remove(id);
            assert(after.queue[i] == Change::Remove(id));
        }
        if id == it && fades_out(w, id) {
            assert(after.queue[before.queue.len() as int] == Change::Remove(id));
        }
    }
}

/// The fade system's pass over a consistent world asks for removals only, and
/// for the removal of exactly those matching entities whose opacity the tick
/// uses up.
pub proof fn lemma_fade_pass_removes(w: WorldView, event: Event, id: EntityId)
    requires
        w.wf(),
    ensures
        ({
            let after = fade_pass(w, event);
            &&& forall|i: int|
                w.queue.len() <= i < after.queue.len() ==> #[trigger] after.queue[i] is Remove
            &&& removes(after.queue, id) <==> removes(w.queue, id) || (event is Update
                && w.matching(FadeSystem::spec_aspect()).contains(id) && fades_out(w, id))
        }),
{
    lemma_matching_distinct(w, FadeSystem::spec_aspect());
    if event is Update {
        lemma_faded_all_removes(w, w.matching(FadeSystem::spec_aspect()), id);
    }
}

/// In the fade system's pass of an update event over a consistent world, the
/// opacity changes of exactly the entities that hold both a color and a fade
/// rate: an entity with a color and no fade rate keeps its opacity, and none
/// that holds both is left out. No entity gains or loses its color. This
/// holds of an entity whose fade rate, if it has one, is not zero and leaves
/// the opacity in the range of a scalar.
pub proof fn lemma_fade_pass_changes_opacity(w: WorldView, event: Event, id: EntityId)
    requires
        w.wf(),
        event is Update,
        w.colors.contains_key(id) && w.fades.contains_key(id) ==> w.fades[id].0 != 0 && i64::MIN
            <= w.colors[id].alpha - w.fades[id].0 <= i64::MAX,
    ensures
        fade_pass(w, event).colors.contains_key(id) == w.colors.contains_key(id),
        w.colors.contains_key(id) ==> (fade_pass(w, event).colors[id].alpha != w.colors[id].alpha
            <==> w.fades.contains_key(id)),
        w.colors.contains_key(id) && w.fades.contains_key(id) ==> fade_pass(
            w,
            event,
        ).colors[id].alpha == w.colors[id].alpha - w.fades[id].0,
{
    lemma_matching_by_components(w, FadeSystem::spec_aspect(), id);
    lemma_fade_pass_by_entity(w, event, id);
    lemma_fade_pass_only_asks(w, event);
    assert(fade_pass(w, event).colors.dom().contains(id) == w.colors.dom().contains(id));
    assert(fade_pass(w, event).colors.get(id) == if w.colors.contains_key(id)
        && w.fades.contains_key(id) {
        faded(w, id).colors.get(id)
    } else {
        w.colors.get(id)
    });
}

} // verus!
