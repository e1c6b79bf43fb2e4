//! What holds over the ticks of update events: an entity that fades goes on
//! time, and a contact that lasts counts once.

use crate::components::{counted, lemma_contact_counts_once, lemma_counted_in_contact, HitCount};
use crate::deferral::{
    gone, lemma_apply_all_keeps_unremoved, lemma_apply_all_removes, lemma_asking_creates_anew,
    lemma_asking_keeps_wf, lemma_flush_empties_queue, lemma_flush_of_nothing,
    lemma_matching_by_components, lemma_only_created_chains, lemma_only_created_keeps_removals,
    only_created, removes,
};
use crate::event::Event;
use crate::fixed::minus;
use crate::schedule::{
    finished_world, lemma_tick_keeps_wf, lemma_tick_revives_nothing,
    lemma_tick_sees_one_population, moved_world,
};
use crate::store::{EntityId, WorldView};
use crate::systems::collision::{
    collision_marks, collision_pass, lemma_collision_pass_counts,
    lemma_collision_pass_only_asks, lemma_pair_is_marked, meeting, pair_world, touching,
    CollisionSystem,
};
use crate::systems::control::{control_pass, lemma_control_pass_only_asks};
use crate::systems::fade::{
    fade_pass, faded, fades_out, lemma_fade_pass_by_entity, lemma_fade_pass_only_asks,
    lemma_fade_pass_removes, lemma_rounded_up, ticks_to_fade, FadeSystem,
};
use crate::systems::game::{game_pass, lemma_game_pass_keeps_opacity, lemma_game_pass_only_asks};
use crate::systems::mv::{lemma_move_pass_only_asks, move_pass};
use crate::systems::shimmer::shimmer_passed;
use vstd::prelude::*;

verus! {

/// The world after the tick of an update event.
pub open spec fn updated(w: WorldView, dt: i64) -> WorldView {
    finished_world(moved_world(w, Event::Update { dt }))
}

/// What the tick of an update event does to an entity with a color and a fade
/// rate, in a consistent world in which no change waits. Where the rate uses
/// up the opacity, the entity is gone after the tick. Where it does not, the
/// entity lives on with its fade rate, and with its opacity less the rate,
/// whatever the other systems do in the tick.
pub proof fn lemma_update_fades(w: WorldView, dt: i64, id: EntityId)
    requires
        w.wf(),
        w.queue.len() == 0,
        w.colors.contains_key(id),
        w.fades.contains_key(id),
    ensures
        updated(w, dt).wf(),
        updated(w, dt).queue.len() == 0,
        fades_out(w, id) ==> gone(updated(w, dt), id),
        !fades_out(w, id) ==> ({
            let after = updated(w, dt);
            &&& after.alive.contains(id)
            &&& after.colors.contains_key(id)
            &&& after.fades.contains_key(id)
            &&& after.colors[id].alpha == minus(w.colors[id].alpha, w.fades[id].0)
            &&& after.fades[id] == w.fades[id]
        }),
{
    let event = Event::Update { dt };
    let paled = fade_pass(w, event);
    let steered = control_pass(paled, event);
    let collided = collision_pass(steered, event);
    let moved = move_pass(collided, event);
    let end = game_pass(moved);
    let after = end.flush();
    lemma_flush_of_nothing(w);
    assert(shimmer_passed(moved, moved, event));
    lemma_tick_sees_one_population(w, event, moved);
    lemma_tick_keeps_wf(w, event, moved);
    lemma_flush_empties_queue(end);

    // The fade system lets the entity fade, and asks for its removal where
    // it fades out.
    lemma_matching_by_components(w, FadeSystem::spec_aspect(), id);
    lemma_fade_pass_by_entity(w, event, id);
    lemma_fade_pass_removes(w, event, id);
    lemma_fade_pass_only_asks(w, event);
    assert(paled.colors.get(id) == faded(w, id).colors.get(id));
    assert(paled.fades.get(id) == faded(w, id).fades.get(id));
    assert(!removes(w.queue, id));

    // No other system replaces the opacity or the fade rate, or asks for a
    // removal.
    lemma_control_pass_only_asks(paled, event);
    lemma_collision_pass_only_asks(steered, event);
    lemma_move_pass_only_asks(collided, event);
    lemma_game_pass_only_asks(moved);
    lemma_game_pass_keeps_opacity(moved, id);
    assert(only_created(paled, steered));
    assert(only_created(moved, end));
    lemma_only_created_chains(paled, steered, collided);
    lemma_only_created_chains(paled, collided, moved);
    lemma_only_created_chains(paled, moved, end);
    lemma_only_created_keeps_removals(paled, end, id);

    // Nor does any system ask for the creation of an entity that there is.
    assert(w.alive.contains(id));
    let k = choose|k: int| 0 <= k < w.alive.len() && w.alive[k] == id;
    assert(w.alive[k] <= w.last_id);
    lemma_asking_creates_anew(w, end, id);

    lemma_asking_keeps_wf(w, end);
    let base = WorldView { queue: Seq::empty(), ..end };
    if fades_out(w, id) {
        lemma_apply_all_removes(base, end.queue, id);
    } else {
        lemma_apply_all_keeps_unremoved(base, end.queue, id);
        assert(after.colors.get(id) == end.colors.get(id));
        assert(after.fades.get(id) == end.fades.get(id));
    }
}

/// The world after the ticks of as many update events as `dts` has members,
/// each with its member of `dts` as the time that has passed.
pub open spec fn updated_times(w: WorldView, dts: Seq<i64>) -> WorldView
    decreases dts.len(),
{
    if dts.len() == 0 {
        w
    } else {
        updated(updated_times(w, dts.drop_last()), dts.last())
    }
}

/// An entity that can be seen and fades at a positive rate is removed by the
/// tick with which its opacity is used up, by no tick before, and is gone
/// ever after: it lives through fewer update ticks than the rate goes into
/// the opacity, rounded up, losing the rate in opacity with each, and is gone
/// after that many and after any more. This holds whatever time passes in the
/// ticks and whatever else there is in the world, as long as it starts
/// consistent and with no change waiting.
pub proof fn lemma_fades_away_on_time(w: WorldView, id: EntityId, dts: Seq<i64>)
    requires
        w.wf(),
        w.queue.len() == 0,
        w.colors.contains_key(id),
        w.fades.contains_key(id),
        w.colors[id].alpha > 0,
        w.fades[id].0 > 0,
    ensures
        ({
            let after = updated_times(w, dts);
            let last = ticks_to_fade(w.colors[id].alpha, w.fades[id].0);
            &&& after.wf()
            &&& after.queue.len() == 0
            &&& dts.len() < last ==> {
                &&& after.alive.contains(id)
                &&& after.colors.contains_key(id)
                &&& after.fades.contains_key(id)
                &&& after.fades[id] == w.fades[id]
                &&& after.colors[id].alpha == w.colors[id].alpha - dts.len() * w.fades[id].0
                &&& after.colors[id].alpha > 0
            }
            &&& dts.len() >= last ==> gone(after, id)
        }),
    decreases dts.len(),
{
    let alpha = w.colors[id].alpha as int;
    let rate = w.fades[id].0 as int;
    let last = ticks_to_fade(w.colors[id].alpha, w.fades[id].0);
    lemma_rounded_up(alpha, rate);
    assert(last > 0) by (nonlinear_arith)
        requires
            alpha <= last * rate,
            alpha > 0,
            rate > 0,
    ;
    if dts.len() == 0 {
        assert(dts.len() * rate == 0) by (nonlinear_arith)
            requires
                dts.len() == 0,
        ;
    } else {
        let ticks = dts.len() as int;
        let before = updated_times(w, dts.drop_last());
        let after = updated(before, dts.last());
        lemma_fades_away_on_time(w, id, dts.drop_last());
        if ticks - 1 < last {
            assert(ticks * rate == (ticks - 1) * rate + rate) by (nonlinear_arith);
            assert((ticks - 1) * rate <= (last - 1) * rate) by (nonlinear_arith)
                requires
                    ticks <= last,
                    rate > 0,
            ;
            if ticks < last {
                assert(ticks * rate <= (last - 1) * rate) by (nonlinear_arith)
                    requires
                        ticks < last,
                        rate > 0,
                ;
            }
            assert(last * rate == (last - 1) * rate + rate) by (nonlinear_arith);
            lemma_update_fades(before, dts.last(), id);
        } else {
            let event = Event::Update { dt: dts.last() };
            assert(shimmer_passed(moved_world(before, event), moved_world(before, event), event));
            lemma_tick_keeps_wf(before, event, moved_world(before, event));
            lemma_tick_revives_nothing(before, event, moved_world(before, event), id);
            lemma_flush_empties_queue(game_pass(moved_world(before, event)));
        }
    }
}


/// What the tick of an update event tells the hit counter of `id`: what the
/// collision system's pass of that tick sees of `id`.
pub open spec fn tick_contact(w: WorldView, dt: i64, id: EntityId) -> Option<bool> {
    let event = Event::Update { dt };
    collision_marks(control_pass(fade_pass(w.flush(), event), event), event).contact(id)
}

/// What the tick of an update event does to the hit counter of an entity
/// that lives through the tick, in a consistent world in which no change
/// waits: the counter is told what the collision system's pass has seen of
/// the entity, and nothing else touches it.
pub proof fn lemma_update_counts(w: WorldView, dt: i64, id: EntityId)
    requires
        w.wf(),
        w.queue.len() == 0,
        w.hit_counts.contains_key(id),
        updated(w, dt).alive.contains(id),
    ensures
        updated(w, dt).hit_counts.contains_key(id),
        updated(w, dt).hit_counts[id] == w.hit_counts[id].told(tick_contact(w, dt, id)),
{
    let event = Event::Update { dt };
    let paled = fade_pass(w, event);
    let steered = control_pass(paled, event);
    let crashed = collision_pass(steered, event);
    let moved = move_pass(crashed, event);
    let end = game_pass(moved);
    let after = end.flush();
    lemma_flush_of_nothing(w);
    assert(shimmer_passed(moved, moved, event));
    lemma_tick_sees_one_population(w, event, moved);
    lemma_fade_pass_only_asks(w, event);
    lemma_control_pass_only_asks(paled, event);
    lemma_collision_pass_only_asks(steered, event);
    lemma_move_pass_only_asks(crashed, event);
    lemma_game_pass_only_asks(moved);
    lemma_collision_pass_counts(steered, event, id);

    // The entity lives through the tick: no removal of it was asked for, and
    // the flush leaves it as it is.
    lemma_asking_keeps_wf(w, end);
    assert(w.alive.contains(id));
    let k = choose|k: int| 0 <= k < w.alive.len() && w.alive[k] == id;
    assert(w.alive[k] <= w.last_id);
    lemma_asking_creates_anew(w, end, id);
    let base = WorldView { queue: Seq::empty(), ..end };
    if removes(end.queue, id) {
        lemma_apply_all_removes(base, end.queue, id);
    }
    lemma_apply_all_keeps_unremoved(base, end.queue, id);
    assert(after.hit_counts.get(id) == end.hit_counts.get(id));
}

/// Whether `id` is alive before, between and after the ticks of update
/// events with the times `dts`.
pub open spec fn lives_through(w: WorldView, id: EntityId, dts: Seq<i64>) -> bool
    decreases dts.len(),
{
    if dts.len() == 0 {
        w.alive.contains(id)
    } else {
        &&& lives_through(w, id, dts.drop_last())
        &&& updated_times(w, dts).alive.contains(id)
    }
}

/// What the ticks of update events with the times `dts` tell the hit counter
/// of `id`, tick by tick.
pub open spec fn contacts(w: WorldView, id: EntityId, dts: Seq<i64>) -> Seq<Option<bool>>
    decreases dts.len(),
{
    if dts.len() == 0 {
        Seq::empty()
    } else {
        contacts(w, id, dts.drop_last()).push(
            tick_contact(updated_times(w, dts.drop_last()), dts.last(), id),
        )
    }
}

/// The hit counter of an entity follows its contacts tick by tick, in any
/// world and whatever else is in it: it is struck by every tick in which the
/// entity is in contact, parted by every tick in which it is apart from all
/// that it meets, and left as it is by every other tick, so that it counts
/// each contact once, when it starts.
pub proof fn lemma_contacts_count(w: WorldView, id: EntityId, dts: Seq<i64>)
    requires
        w.wf(),
        w.queue.len() == 0,
        w.hit_counts.contains_key(id),
        lives_through(w, id, dts),
    ensures
        updated_times(w, dts).wf(),
        updated_times(w, dts).queue.len() == 0,
        updated_times(w, dts).hit_counts.contains_key(id),
        contacts(w, id, dts).len() == dts.len(),
        updated_times(w, dts).hit_counts[id] == counted(w.hit_counts[id], contacts(w, id, dts)),
    decreases dts.len(),
{
    if dts.len() > 0 {
        let before = updated_times(w, dts.drop_last());
        let event = Event::Update { dt: dts.last() };
        let so_far = contacts(w, id, dts.drop_last());
        let now = tick_contact(before, dts.last(), id);
        lemma_contacts_count(w, id, dts.drop_last());
        assert(shimmer_passed(moved_world(before, event), moved_world(before, event), event));
        lemma_tick_keeps_wf(before, event, moved_world(before, event));
        lemma_flush_empties_queue(game_pass(moved_world(before, event)));
        lemma_update_counts(before, dts.last(), id);
        assert(so_far.push(now).drop_last() == so_far);
        assert(so_far.push(now).last() == now);
    }
}

/// A body that stays in contact through one tick or more counts the contact
/// once, in any world and whatever else is in it: a hit counter that was not
/// in contact before counts one more after the first of the ticks, and the
/// same after each that follows.
pub proof fn lemma_lasting_contact_counts_once(w: WorldView, id: EntityId, dts: Seq<i64>)
    requires
        w.wf(),
        w.queue.len() == 0,
        w.hit_counts.contains_key(id),
        !w.hit_counts[id].recent,
        w.hit_counts[id].count < u32::MAX,
        lives_through(w, id, dts),
        dts.len() >= 1,
        forall|k: int| 0 <= k < dts.len() ==> contacts(w, id, dts)[k] == Some(true),
    ensures
        updated_times(w, dts).hit_counts[id] == (HitCount {
            recent: true,
            count: (w.hit_counts[id].count + 1) as u32,
        }),
{
    lemma_contacts_count(w, id, dts);
    lemma_counted_in_contact(w.hit_counts[id], contacts(w, id, dts));
    lemma_contact_counts_once(w.hit_counts[id], dts.len());
}

/// A circle and a rectangle that are in contact when the collision system
/// looks at them in the tick of an update event have that tick tell both
/// their hit counters of a contact, whatever else the tick looks at.
pub proof fn lemma_touching_pair_is_told(w: WorldView, dt: i64, i: int, j: int)
    requires
        ({
            let event = Event::Update { dt };
            let steered = control_pass(fade_pass(w.flush(), event), event);
            let ids = steered.matching(CollisionSystem::spec_aspect());
            let seen = pair_world(steered, ids, i, j);
            &&& 0 <= i < j < ids.len()
            &&& meeting(seen, ids[i], ids[j]) matches Some(pair) && touching(seen, pair)
        }),
    ensures
        ({
            let event = Event::Update { dt };
            let steered = control_pass(fade_pass(w.flush(), event), event);
            let ids = steered.matching(CollisionSystem::spec_aspect());
            &&& tick_contact(w, dt, ids[i]) == Some(true)
            &&& tick_contact(w, dt, ids[j]) == Some(true)
        }),
{
    let event = Event::Update { dt };
    let steered = control_pass(fade_pass(w.flush(), event), event);
    let ids = steered.matching(CollisionSystem::spec_aspect());
    lemma_pair_is_marked(steered, ids, i, j);
}

} // verus!
