//! What holds of the entity store: who matches an aspect, and that structural
//! changes wait for the flush.

use crate::store::{
    lemma_despawn_wf, lemma_matching_among, lemma_matching_is_exact, lemma_spawn_wf, within,
    Aspect, Blueprint, Change, EntityId, WorldView,
};
use vstd::prelude::*;

verus! {

/// Whether two worlds have the same living entities, in the same order, and
/// the same entities hold each type of component.
pub open spec fn same_population(a: WorldView, b: WorldView) -> bool {
    &&& a.alive == b.alive
    &&& a.clamps.dom() == b.clamps.dom()
    &&& a.colors.dom() == b.colors.dom()
    &&& a.fades.dom() == b.fades.dom()
    &&& a.hit_counts.dom() == b.hit_counts.dom()
    &&& a.player_controllers.dom() == b.player_controllers.dom()
    &&& a.positions.dom() == b.positions.dom()
    &&& a.shapes.dom() == b.shapes.dom()
    &&& a.shimmers.dom() == b.shimmers.dom()
    &&& a.velocities.dom() == b.velocities.dom()
}

/// In a consistent world, an entity matches an aspect that asks for at least
/// one component exactly if it holds every component that the aspect asks
/// for. Every living entity matches the aspect that asks for nothing.
pub proof fn lemma_matching_by_components(w: WorldView, aspect: Aspect, id: EntityId)
    requires
        w.wf(),
    ensures
        aspect != Aspect::empty() ==> (w.matching(aspect).contains(id) <==> w.holds(id, aspect)),
        aspect == Aspect::empty() ==> (w.matching(aspect).contains(id) <==> w.alive.contains(id)),
{
    lemma_matching_is_exact(w, aspect);
    if aspect != Aspect::empty() && w.holds(id, aspect) {
        if aspect.clamps {
            assert(w.clamps.contains_key(id));
        } else if aspect.colors {
            assert(w.colors.contains_key(id));
        } else if aspect.fades {
            assert(w.fades.contains_key(id));
        } else if aspect.hit_counts {
            assert(w.hit_counts.contains_key(id));
        } else if aspect.player_controllers {
            assert(w.player_controllers.contains_key(id));
        } else if aspect.positions {
            assert(w.positions.contains_key(id));
        } else if aspect.shapes {
            assert(w.shapes.contains_key(id));
        } else if aspect.shimmers {
            assert(w.shimmers.contains_key(id));
        } else {
            assert(aspect.velocities);
            assert(w.velocities.contains_key(id));
        }
    }
}

/// Two worlds in which each of `ids` holds `aspect` in both or in neither
/// have the same matching ones among `ids`.
pub proof fn lemma_matching_among_agrees(
    a: WorldView,
    b: WorldView,
    ids: Seq<EntityId>,
    aspect: Aspect,
)
    requires
        forall|k: int| 0 <= k < ids.len() ==> a.holds(#[trigger] ids[k], aspect) == b.holds(
            ids[k],
            aspect,
        ),
    ensures
        a.matching_among(ids, aspect) == b.matching_among(ids, aspect),
    decreases ids.len(),
{
    if ids.len() > 0 {
        let front = ids.drop_last();
        assert forall|k: int| 0 <= k < front.len() implies a.holds(#[trigger] front[k], aspect)
            == b.holds(front[k], aspect) by {
            assert(front[k] == ids[k]);
        }
        lemma_matching_among_agrees(a, b, front, aspect);
        assert(ids.last() == ids[ids.len() - 1]);
    }
}

/// Two worlds with the same population show the same entities to every
/// aspect, in the same order.
pub proof fn lemma_population_decides_matching(a: WorldView, b: WorldView, aspect: Aspect)
    requires
        same_population(a, b),
    ensures
        a.matching(aspect) == b.matching(aspect),
{
    assert forall|id: EntityId| a.holds(id, aspect) == b.holds(id, aspect) by {
        assert(a.clamps.contains_key(id) == a.clamps.dom().contains(id));
        assert(a.colors.contains_key(id) == a.colors.dom().contains(id));
        assert(a.fades.contains_key(id) == a.fades.dom().contains(id));
        assert(a.hit_counts.contains_key(id) == a.hit_counts.dom().contains(id));
        assert(a.player_controllers.contains_key(id) == a.player_controllers.dom().contains(id));
        assert(a.positions.contains_key(id) == a.positions.dom().contains(id));
        assert(a.shapes.contains_key(id) == a.shapes.dom().contains(id));
        assert(a.shimmers.contains_key(id) == a.shimmers.dom().contains(id));
        assert(a.velocities.contains_key(id) == a.velocities.dom().contains(id));
    }
    lemma_matching_among_agrees(a, b, a.alive, aspect);
}

/// Among distinct entities the matching ones are distinct.
pub proof fn lemma_matching_among_distinct(w: WorldView, ids: Seq<EntityId>, aspect: Aspect)
    requires
        ids.no_duplicates(),
    ensures
        w.matching_among(ids, aspect).no_duplicates(),
    decreases ids.len(),
{
    if ids.len() > 0 {
        let front = ids.drop_last();
        lemma_matching_among_distinct(w, front, aspect);
        lemma_matching_among(w, front, aspect, ids.last());
        if front.contains(ids.last()) {
            let k = choose|k: int| 0 <= k < front.len() && front[k] == ids.last();
            assert(ids[k] == ids[ids.len() - 1]);
        }
    }
}

/// In a consistent world no entity matches an aspect twice.
pub proof fn lemma_matching_distinct(w: WorldView, aspect: Aspect)
    requires
        w.wf(),
    ensures
        w.matching(aspect).no_duplicates(),
{
    lemma_matching_among_distinct(w, w.alive, aspect);
}

/// A flush with nothing in the queue changes nothing.
pub proof fn lemma_flush_of_nothing(w: WorldView)
    requires
        w.queue.len() == 0,
    ensures
        w.flush() == w,
{
    assert(w.queue == Seq::<Change>::empty());
}

/// A change that is not the creation of `id` does not bring `id` to life.
pub proof fn lemma_apply_never_revives(w: WorldView, change: Change, id: EntityId)
    requires
        !w.alive.contains(id),
        !(change matches Change::Create(made, _) && made == id),
    ensures
        !w.apply(change).alive.contains(id),
{
    let after = w.apply(change);
    if after.alive.contains(id) {
        let k = choose|k: int| 0 <= k < after.alive.len() && after.alive[k] == id;
        match change {
            Change::Create(made, _) => {
                if !w.alive.contains(made) {
                    if k < w.alive.len() {
                        assert(w.alive[k] == id);
                    }
                }
            },
            Change::Remove(left) => {
                if w.alive.contains(left) {
                    let at = w.alive.index_of(left);
                    if k < at {
                        assert(w.alive[k] == id);
                    } else {
                        assert(w.alive[k + 1] == id);
                    }
                }
            },
        }
    }
}

/// A change that is not the removal of `id` leaves `id` alive, with the
/// components that it has.
pub proof fn lemma_apply_keeps_unremoved(w: WorldView, change: Change, id: EntityId)
    requires
        w.alive.contains(id),
        change != Change::Remove(id),
    ensures
        w.apply(change).alive.contains(id),
        w.apply(change).blueprint_of(id) == w.blueprint_of(id),
{
    let after = w.apply(change);
    let k = choose|k: int| 0 <= k < w.alive.len() && w.alive[k] == id;
    match change {
        Change::Create(made, _) => {
            if !w.alive.contains(made) {
                assert(after.alive[k] == id);
            }
        },
        Change::Remove(left) => {
            if w.alive.contains(left) {
                let at = w.alive.index_of(left);
                if k < at {
                    assert(after.alive[k] == id);
                } else {
                    assert(after.alive[k - 1] == id);
                }
            }
        },
    }
}

/// Changes without the removal of `id` leave `id` alive, with the components
/// that it has.
pub proof fn lemma_apply_all_keeps_unremoved(w: WorldView, changes: Seq<Change>, id: EntityId)
    requires
        w.alive.contains(id),
        !removes(changes, id),
    ensures
        w.apply_all(changes).alive.contains(id),
        w.apply_all(changes).blueprint_of(id) == w.blueprint_of(id),
    decreases changes.len(),
{
    if changes.len() > 0 {
        let front = changes.drop_last();
        if removes(front, id) {
            let i = choose|i: int|
                0 <= i < front.len() && #[trigger] front[i] == Change::Remove(id);
            assert(changes[i] == Change::Remove(id));
        }
        lemma_apply_all_keeps_unremoved(w, front, id);
        assert(changes[changes.len() - 1] == changes.last());
        lemma_apply_keeps_unremoved(w.apply_all(front), changes.last(), id);
    }
}

/// Changes with the removal of `id` and without a creation of it leave `id`
/// not alive.
pub proof fn lemma_apply_all_removes(w: WorldView, changes: Seq<Change>, id: EntityId)
    requires
        w.wf(),
        forall|i: int|
            0 <= i < changes.len() ==> (#[trigger] changes[i] matches Change::Create(made, _)
                ==> made <= w.last_id),
        removes(changes, id),
        !creates(changes, id),
    ensures
        !w.apply_all(changes).alive.contains(id),
    decreases changes.len(),
{
    let front = changes.drop_last();
    let last = changes.last();
    assert(changes[changes.len() - 1] == last);
    assert forall|i: int| 0 <= i < front.len() implies (#[trigger] front[i] matches
        Change::Create(made, _) ==> made <= w.last_id) by {
        assert(front[i] == changes[i]);
    }
    lemma_apply_all_wf(w, front);
    let before = w.apply_all(front);
    if last == Change::Remove(id) {
        lemma_despawn_wf(before, id);
        if before.alive.contains(id) {
            let after = before.despawn(id);
            let at = before.alive.index_of(id);
            if after.alive.contains(id) {
                let k = choose|k: int| 0 <= k < after.alive.len() && after.alive[k] == id;
                if k < at {
                    assert(before.alive[k] == id);
                } else {
                    assert(before.alive[k + 1] == id);
                }
            }
        }
    } else {
        let i = choose|i: int|
            0 <= i < changes.len() && #[trigger] changes[i] == Change::Remove(id);
        assert(front[i] == Change::Remove(id));
        if creates(front, id) {
            let j = choose|j: int|
                0 <= j < front.len() && (#[trigger] front[j] matches Change::Create(made, _)
                    && made == id);
            assert(changes[j] == front[j]);
        }
        lemma_apply_all_removes(w, front, id);
        lemma_apply_never_revives(before, last, id);
    }
}

/// Asking for a creation or a removal changes the population no more than it
/// changes what any aspect shows: not at all.
pub proof fn lemma_changes_wait(w: WorldView, blueprint: Blueprint, id: EntityId, aspect: Aspect)
    ensures
        same_population(w, w.create(blueprint)),
        same_population(w, w.remove(id)),
        w.create(blueprint).matching(aspect) == w.matching(aspect),
        w.remove(id).matching(aspect) == w.matching(aspect),
{
    lemma_population_decides_matching(w.create(blueprint), w, aspect);
    lemma_population_decides_matching(w.remove(id), w, aspect);
}

/// Changes that take effect touch neither the queue nor the last identifier.
pub proof fn lemma_apply_all_keeps_queue(w: WorldView, changes: Seq<Change>)
    ensures
        w.apply_all(changes).last_id == w.last_id,
        w.apply_all(changes).queue == w.queue,
    decreases changes.len(),
{
    if changes.len() > 0 {
        lemma_apply_all_keeps_queue(w, changes.drop_last());
    }
}

/// Changes that name no identifier beyond the last one leave a consistent
/// world consistent.
pub proof fn lemma_apply_all_wf(w: WorldView, changes: Seq<Change>)
    requires
        w.wf(),
        forall|i: int|
            0 <= i < changes.len() ==> (#[trigger] changes[i] matches Change::Create(id, _) ==> id
                <= w.last_id),
    ensures
        w.apply_all(changes).wf(),
    decreases changes.len(),
{
    if changes.len() > 0 {
        let front = changes.drop_last();
        assert forall|i: int| 0 <= i < front.len() implies (#[trigger] front[i] matches
            Change::Create(id, _) ==> id <= w.last_id) by {
            assert(front[i] == changes[i]);
        }
        lemma_apply_all_wf(w, front);
        lemma_apply_all_keeps_queue(w, front);
        let before = w.apply_all(front);
        assert(changes.last() == changes[changes.len() - 1]);
        match changes.last() {
            Change::Create(id, blueprint) => {
                lemma_spawn_wf(before, id, blueprint);
            },
            Change::Remove(id) => {
                lemma_despawn_wf(before, id);
            },
        }
    }
}

/// A flush empties the queue and hands out no identifier.
pub proof fn lemma_flush_empties_queue(w: WorldView)
    ensures
        w.flush().queue == Seq::<Change>::empty(),
        w.flush().last_id == w.last_id,
{
    lemma_apply_all_keeps_queue(WorldView { queue: Seq::empty(), ..w }, w.queue);
}

/// A flush leaves a consistent world consistent.
pub proof fn lemma_flush_wf(w: WorldView)
    requires
        w.wf(),
    ensures
        w.flush().wf(),
{
    let base = WorldView { queue: Seq::empty(), ..w };
    lemma_apply_all_wf(base, w.queue);
}

/// What changes do to a world does not depend on its last identifier.
pub proof fn lemma_apply_all_ignores_last_id(w: WorldView, changes: Seq<Change>, last_id: EntityId)
    ensures
        (WorldView { last_id, ..w }).apply_all(changes) == (WorldView {
            last_id,
            ..w.apply_all(changes)
        }),
    decreases changes.len(),
{
    if changes.len() > 0 {
        lemma_apply_all_ignores_last_id(w, changes.drop_last(), last_id);
    }
}

/// The last of some changes takes effect after all that were asked for
/// before it.
pub proof fn lemma_apply_all_push(w: WorldView, changes: Seq<Change>, change: Change)
    ensures
        w.apply_all(changes.push(change)) == w.apply_all(changes).apply(change),
{
    assert(changes.push(change).drop_last() == changes);
}

/// A creation shows at the next flush, after all that was asked for before
/// it: the new entity is the last of the living, holds what its blueprint
/// gives it, and matches the aspects that its blueprint satisfies. What every
/// aspect shows of the others is as it would have been without the creation.
pub proof fn lemma_creation_shows_after_flush(w: WorldView, blueprint: Blueprint, aspect: Aspect)
    requires
        w.wf(),
        w.next_id() is Some,
    ensures
        ({
            let id = w.next_id()->0;
            let without = w.flush();
            let after = w.create(blueprint).flush();
            &&& !without.alive.contains(id)
            &&& after == WorldView { last_id: id, ..without.spawn(id, blueprint) }
            &&& after.alive == without.alive.push(id)
            &&& after.blueprint_of(id) == blueprint
            &&& after.matching(aspect) == if blueprint.satisfies(aspect) {
                without.matching(aspect).push(id)
            } else {
                without.matching(aspect)
            }
        }),
{
    let id = w.next_id()->0;
    let without = w.flush();
    let with = w.create(blueprint);
    let after = with.flush();
    let change = Change::Create(id, blueprint);
    let base = WorldView { queue: Seq::empty(), ..w };
    lemma_flush_wf(w);
    lemma_flush_empties_queue(w);
    lemma_apply_all_push(WorldView { queue: Seq::empty(), ..with }, w.queue, change);
    lemma_apply_all_ignores_last_id(base, w.queue, id);
    assert((WorldView { queue: Seq::empty(), ..with }) == (WorldView { last_id: id, ..base }));
    if without.alive.contains(id) {
        let k = choose|k: int| 0 <= k < without.alive.len() && without.alive[k] == id;
        assert(without.alive[k] <= without.last_id);
    }
    let grown = without.spawn(id, blueprint);
    assert(after == WorldView { last_id: id, ..grown });
    // The newcomer held nothing before.
    assert(!without.clamps.contains_key(id));
    assert(!without.colors.contains_key(id));
    assert(!without.fades.contains_key(id));
    assert(!without.hit_counts.contains_key(id));
    assert(!without.player_controllers.contains_key(id));
    assert(!without.positions.contains_key(id));
    assert(!without.shapes.contains_key(id));
    assert(!without.shimmers.contains_key(id));
    assert(!without.velocities.contains_key(id));
    assert(after.blueprint_of(id) == blueprint);
    assert(after.holds(id, aspect) == blueprint.satisfies(aspect));
    assert(after.alive.drop_last() == without.alive);
    assert forall|k: int| 0 <= k < without.alive.len() implies after.holds(
        #[trigger] without.alive[k],
        aspect,
    ) == without.holds(without.alive[k], aspect) by {
        assert(without.alive.contains(without.alive[k]));
    }
    lemma_matching_among_agrees(after, without, without.alive, aspect);
}

/// A removal shows at the next flush, after all that was asked for before
/// it: the entity is no longer alive, holds nothing and matches no aspect.
/// Every other entity matches what it would have matched without the removal.
pub proof fn lemma_removal_shows_after_flush(w: WorldView, id: EntityId, aspect: Aspect)
    requires
        w.wf(),
    ensures
        ({
            let without = w.flush();
            let after = w.remove(id).flush();
            &&& after == without.despawn(id)
            &&& !after.alive.contains(id)
            &&& after.blueprint_of(id) == Blueprint::empty()
            &&& !after.matching(aspect).contains(id)
            &&& forall|other: EntityId|
                other != id ==> (after.matching(aspect).contains(other)
                    <==> without.matching(aspect).contains(other))
        }),
{
    let without = w.flush();
    let with = w.remove(id);
    let after = with.flush();
    let base = WorldView { queue: Seq::empty(), ..w };
    lemma_flush_wf(w);
    lemma_flush_empties_queue(w);
    lemma_apply_all_push(base, w.queue, Change::Remove(id));
    assert((WorldView { queue: Seq::empty(), ..with }) == base);
    assert(after == without.despawn(id));
    lemma_despawn_wf(without, id);
    lemma_matching_is_exact(after, aspect);
    lemma_matching_is_exact(without, aspect);
    if without.alive.contains(id) {
        let at = without.alive.index_of(id);
        if after.alive.contains(id) {
            let k = choose|k: int| 0 <= k < after.alive.len() && after.alive[k] == id;
            if k < at {
                assert(without.alive[k] == id);
            } else {
                assert(without.alive[k + 1] == id);
            }
        }
        assert forall|other: EntityId| other != id implies (after.alive.contains(other)
            <==> without.alive.contains(other)) by {
            if after.alive.contains(other) {
                let k = choose|k: int| 0 <= k < after.alive.len() && after.alive[k] == other;
                if k < at {
                    assert(without.alive[k] == other);
                } else {
                    assert(without.alive[k + 1] == other);
                }
            }
            if without.alive.contains(other) {
                let k = choose|k: int| 0 <= k < without.alive.len() && without.alive[k] == other;
                if k < at {
                    assert(after.alive[k] == other);
                } else {
                    assert(after.alive[k - 1] == other);
                }
            }
        }
    }
    assert(!after.clamps.contains_key(id));
    assert(!after.colors.contains_key(id));
    assert(!after.fades.contains_key(id));
    assert(!after.hit_counts.contains_key(id));
    assert(!after.player_controllers.contains_key(id));
    assert(!after.positions.contains_key(id));
    assert(!after.shapes.contains_key(id));
    assert(!after.shimmers.contains_key(id));
    assert(!after.velocities.contains_key(id));
    assert(after.blueprint_of(id) == Blueprint::empty());
    assert(!after.alive.contains(id));
    assert(!after.matching(aspect).contains(id));
    assert forall|other: EntityId| other != id implies (after.matching(aspect).contains(other)
        <==> without.matching(aspect).contains(other)) by {
        assert(after.holds(other, aspect) == without.holds(other, aspect));
        assert(after.alive.contains(other) <==> without.alive.contains(other));
    }
}

/// Whether `after` can come from `before` by what a system does in its pass:
/// it replaces components and asks for changes. The population is the same,
/// the queue has grown at its end, and what it has grown by creates only
/// entities whose identifiers were handed out in between.
pub open spec fn only_asked(before: WorldView, after: WorldView) -> bool {
    &&& same_population(before, after)
    &&& before.last_id <= after.last_id
    &&& before.queue.len() <= after.queue.len()
    &&& forall|i: int| 0 <= i < before.queue.len() ==> after.queue[i] == before.queue[i]
    &&& forall|i: int|
        before.queue.len() <= i < after.queue.len() ==> (#[trigger] after.queue[i] matches
            Change::Create(id, _) ==> before.last_id < id <= after.last_id)
}

/// What two passes do one after the other, one pass could have done.
pub proof fn lemma_only_asked_chains(a: WorldView, b: WorldView, c: WorldView)
    requires
        only_asked(a, b),
        only_asked(b, c),
    ensures
        only_asked(a, c),
{
    assert forall|i: int| a.queue.len() <= i < c.queue.len() implies (#[trigger] c.queue[i] matches
        Change::Create(id, _) ==> a.last_id < id <= c.last_id) by {
        if i < b.queue.len() {
            assert(c.queue[i] == b.queue[i]);
        }
    }
}

/// A table with the keys of a table that only the living have entries in
/// has entries of the living only.
proof fn lemma_within_by_keys<T>(
    before: Map<EntityId, T>,
    after: Map<EntityId, T>,
    alive: Seq<EntityId>,
)
    requires
        within(before, alive),
        before.dom() == after.dom(),
    ensures
        within(after, alive),
{
    assert forall|id: EntityId| #[trigger] after.contains_key(id) implies alive.contains(id) by {
        assert(before.dom().contains(id));
    }
}

/// What a pass may do leaves a consistent world consistent.
pub proof fn lemma_asking_keeps_wf(before: WorldView, after: WorldView)
    requires
        before.wf(),
        only_asked(before, after),
    ensures
        after.wf(),
{
    lemma_within_by_keys(before.clamps, after.clamps, after.alive);
    lemma_within_by_keys(before.colors, after.colors, after.alive);
    lemma_within_by_keys(before.fades, after.fades, after.alive);
    lemma_within_by_keys(before.hit_counts, after.hit_counts, after.alive);
    lemma_within_by_keys(before.player_controllers, after.player_controllers, after.alive);
    lemma_within_by_keys(before.positions, after.positions, after.alive);
    lemma_within_by_keys(before.shapes, after.shapes, after.alive);
    lemma_within_by_keys(before.shimmers, after.shimmers, after.alive);
    lemma_within_by_keys(before.velocities, after.velocities, after.alive);
    assert forall|i: int| 0 <= i < after.queue.len() implies (#[trigger] after.queue[i] matches
        Change::Create(id, _) ==> id <= after.last_id) by {
        if i < before.queue.len() {
            assert(after.queue[i] == before.queue[i]);
        }
    }
}

/// Asking for a creation or for a removal is what a pass may do, and so is
/// doing nothing.
pub proof fn lemma_asking_only_asks(w: WorldView, blueprint: Blueprint, id: EntityId)
    ensures
        only_asked(w, w),
        only_asked(w, w.create(blueprint)),
        only_asked(w, w.remove(id)),
{
}

/// Whether the removal of `id` is among `changes`.
pub open spec fn removes(changes: Seq<Change>, id: EntityId) -> bool {
    exists|i: int| 0 <= i < changes.len() && #[trigger] changes[i] == Change::Remove(id)
}

/// Whether a creation of `id` is among `changes`.
pub open spec fn creates(changes: Seq<Change>, id: EntityId) -> bool {
    exists|i: int|
        0 <= i < changes.len() && (#[trigger] changes[i] matches Change::Create(made, _) && made
            == id)
}

/// Whether `id` was an entity once and is none any more: the identifier has
/// been handed out, it is not alive, and no creation of it waits.
pub open spec fn gone(w: WorldView, id: EntityId) -> bool {
    &&& id <= w.last_id
    &&& !w.alive.contains(id)
    &&& !creates(w.queue, id)
}

/// An entity that is gone matches no aspect.
pub proof fn lemma_gone_matches_nothing(w: WorldView, id: EntityId, aspect: Aspect)
    requires
        gone(w, id),
    ensures
        !w.matching(aspect).contains(id),
{
    lemma_matching_is_exact(w, aspect);
}

/// In a consistent world, an entity that is gone holds nothing.
pub proof fn lemma_gone_holds_nothing(w: WorldView, id: EntityId)
    requires
        w.wf(),
        gone(w, id),
    ensures
        w.blueprint_of(id) == Blueprint::empty(),
{
    assert(!w.clamps.contains_key(id));
    assert(!w.colors.contains_key(id));
    assert(!w.fades.contains_key(id));
    assert(!w.hit_counts.contains_key(id));
    assert(!w.player_controllers.contains_key(id));
    assert(!w.positions.contains_key(id));
    assert(!w.shapes.contains_key(id));
    assert(!w.shimmers.contains_key(id));
    assert(!w.velocities.contains_key(id));
}

/// No pass brings back an entity that is gone.
pub proof fn lemma_gone_survives_asking(before: WorldView, after: WorldView, id: EntityId)
    requires
        gone(before, id),
        only_asked(before, after),
    ensures
        gone(after, id),
{
    if creates(after.queue, id) {
        let i = choose|i: int|
            0 <= i < after.queue.len() && (#[trigger] after.queue[i] matches Change::Create(
                made,
                _,
            ) && made == id);
        if i < before.queue.len() {
            assert(after.queue[i] == before.queue[i]);
        }
    }
}

/// Changes that do not create `id` do not bring it to life.
pub proof fn lemma_apply_all_never_revives(w: WorldView, changes: Seq<Change>, id: EntityId)
    requires
        !w.alive.contains(id),
        !creates(changes, id),
    ensures
        !w.apply_all(changes).alive.contains(id),
    decreases changes.len(),
{
    if changes.len() > 0 {
        let front = changes.drop_last();
        if creates(front, id) {
            let j = choose|j: int|
                0 <= j < front.len() && (#[trigger] front[j] matches Change::Create(made, _)
                    && made == id);
            assert(changes[j] == front[j]);
        }
        lemma_apply_all_never_revives(w, front, id);
        assert(changes[changes.len() - 1] == changes.last());
        lemma_apply_never_revives(w.apply_all(front), changes.last(), id);
    }
}

/// No flush brings back an entity that is gone.
pub proof fn lemma_gone_survives_flush(w: WorldView, id: EntityId)
    requires
        gone(w, id),
    ensures
        gone(w.flush(), id),
{
    lemma_flush_empties_queue(w);
    lemma_apply_all_never_revives(WorldView { queue: Seq::empty(), ..w }, w.queue, id);
}

/// An entity whose removal was asked for is gone after the next flush, and
/// stays gone as the two lemmas before this one say.
pub proof fn lemma_removed_is_gone(w: WorldView, id: EntityId)
    requires
        w.wf(),
        id <= w.last_id,
    ensures
        gone(w.remove(id).flush(), id),
{
    lemma_removal_shows_after_flush(w, id, Aspect::empty());
    lemma_flush_empties_queue(w.remove(id));
}

/// Whether `after` can come from `before` by what a system does that removes
/// nothing: it replaces components and asks for creations.
pub open spec fn only_created(before: WorldView, after: WorldView) -> bool {
    &&& only_asked(before, after)
    &&& forall|i: int|
        before.queue.len() <= i < after.queue.len() ==> #[trigger] after.queue[i] is Create
}

/// What two passes that remove nothing do one after the other removes
/// nothing.
pub proof fn lemma_only_created_chains(a: WorldView, b: WorldView, c: WorldView)
    requires
        only_created(a, b),
        only_created(b, c),
    ensures
        only_created(a, c),
{
    lemma_only_asked_chains(a, b, c);
    assert forall|i: int| a.queue.len() <= i < c.queue.len() implies #[trigger]
        c.queue[i] is Create by {
        if i < b.queue.len() {
            assert(c.queue[i] == b.queue[i]);
        }
    }
}

/// A pass that removes nothing leaves the removals that wait as they are.
pub proof fn lemma_only_created_keeps_removals(before: WorldView, after: WorldView, id: EntityId)
    requires
        only_created(before, after),
    ensures
        removes(after.queue, id) <==> removes(before.queue, id),
{
    if removes(after.queue, id) {
        let i = choose|i: int|
            0 <= i < after.queue.len() && #[trigger] after.queue[i] == Change::Remove(id);
        assert(after.queue[i] == before.queue[i]);
    }
    if removes(before.queue, id) {
        let i = choose|i: int|
            0 <= i < before.queue.len() && #[trigger] before.queue[i] == Change::Remove(id);
        assert(after.queue[i] == before.queue[i]);
    }
}

/// What a pass asks for creates no entity whose identifier was handed out
/// before the pass.
pub proof fn lemma_asking_creates_anew(before: WorldView, after: WorldView, id: EntityId)
    requires
        only_asked(before, after),
        id <= before.last_id,
        !creates(before.queue, id),
    ensures
        !creates(after.queue, id),
{
    if creates(after.queue, id) {
        let i = choose|i: int|
            0 <= i < after.queue.len() && (#[trigger] after.queue[i] matches Change::Create(
                made,
                _,
            ) && made == id);
        if i < before.queue.len() {
            assert(after.queue[i] == before.queue[i]);
        }
    }
}

} // verus!
