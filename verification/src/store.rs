//! The entity store: entity identifiers, the component tables, aspect
//! matching, and structural changes that wait in a queue until the next
//! flush.

use crate::components::{
    Color, Fade, HitCount, PlayerController, Position, Shape, Shimmer, Velocity, WindowClamp,
};
use crate::table::Table;
use vstd::prelude::*;

verus! {

/// An entity: an identifier that keys the component tables.
pub type EntityId = u64;

/// The components that a new entity starts with.
#[derive(Clone, Copy, PartialEq, Eq, Structural, Debug)]
pub struct Blueprint {
    pub clamp: Option<WindowClamp>,
    pub color: Option<Color>,
    pub fade: Option<Fade>,
    pub hit_count: Option<HitCount>,
    pub player_controller: Option<PlayerController>,
    pub position: Option<Position>,
    pub shape: Option<Shape>,
    pub shimmer: Option<Shimmer>,
    pub velocity: Option<Velocity>,
}

impl Blueprint {
    /// The blueprint of an entity without components.
    pub open spec fn empty() -> Blueprint {
        Blueprint {
            clamp: None,
            color: None,
            fade: None,
            hit_count: None,
            player_controller: None,
            position: None,
            shape: None,
            shimmer: None,
            velocity: None,
        }
    }

    /// Whether an entity made from this blueprint holds every component that
    /// `aspect` asks for.
    pub open spec fn satisfies(self, aspect: Aspect) -> bool {
        &&& aspect.clamps ==> self.clamp is Some
        &&& aspect.colors ==> self.color is Some
        &&& aspect.fades ==> self.fade is Some
        &&& aspect.hit_counts ==> self.hit_count is Some
        &&& aspect.player_controllers ==> self.player_controller is Some
        &&& aspect.positions ==> self.position is Some
        &&& aspect.shapes ==> self.shape is Some
        &&& aspect.shimmers ==> self.shimmer is Some
        &&& aspect.velocities ==> self.velocity is Some
    }

    /// A blueprint without components, to be filled in field by field.
    pub fn new() -> (blueprint: Blueprint)
        ensures
            blueprint == Blueprint::empty(),
    {
        Blueprint {
            clamp: None,
            color: None,
            fade: None,
            hit_count: None,
            player_controller: None,
            position: None,
            shape: None,
            shimmer: None,
            velocity: None,
        }
    }
}

/// A set of component types. A system declares one and works on the entities
/// that hold all of them.
#[derive(Clone, Copy, PartialEq, Eq, Structural, Debug)]
pub struct Aspect {
    pub clamps: bool,
    pub colors: bool,
    pub fades: bool,
    pub hit_counts: bool,
    pub player_controllers: bool,
    pub positions: bool,
    pub shapes: bool,
    pub shimmers: bool,
    pub velocities: bool,
}

impl Aspect {
    /// The aspect that asks for nothing. Every living entity holds it.
    pub open spec fn empty() -> Aspect {
        Aspect {
            clamps: false,
            colors: false,
            fades: false,
            hit_counts: false,
            player_controllers: false,
            positions: false,
            shapes: false,
            shimmers: false,
            velocities: false,
        }
    }

    /// The aspect that asks for nothing, to be filled in field by field.
    pub fn new() -> (aspect: Aspect)
        ensures
            aspect == Aspect::empty(),
    {
        Aspect {
            clamps: false,
            colors: false,
            fades: false,
            hit_counts: false,
            player_controllers: false,
            positions: false,
            shapes: false,
            shimmers: false,
            velocities: false,
        }
    }
}

/// A structural change that waits for the next flush.
#[derive(Clone, Copy, PartialEq, Eq, Structural, Debug)]
pub enum Change {
    /// The entity with this id comes to life with these components.
    Create(EntityId, Blueprint),
    /// The entity with this id goes, and all its components with it.
    Remove(EntityId),
}

/// Whether every key of `table` is one of `alive`.
pub open spec fn within<T>(table: Map<EntityId, T>, alive: Seq<EntityId>) -> bool {
    forall|id: EntityId| #[trigger] table.contains_key(id) ==> alive.contains(id)
}

/// `table` once `id` has the component `value`, where there is one.
pub open spec fn given<T>(table: Map<EntityId, T>, id: EntityId, value: Option<T>) -> Map<
    EntityId,
    T,
> {
    match value {
        Some(v) => table.insert(id, v),
        None => table,
    }
}

/// The mathematical content of a [`World`].
pub struct WorldView {
    /// The identifier that was handed out last; zero before the first.
    pub last_id: EntityId,
    /// The living entities, in the order in which they came to life.
    pub alive: Seq<EntityId>,
    pub clamps: Map<EntityId, WindowClamp>,
    pub colors: Map<EntityId, Color>,
    pub fades: Map<EntityId, Fade>,
    pub hit_counts: Map<EntityId, HitCount>,
    pub player_controllers: Map<EntityId, PlayerController>,
    pub positions: Map<EntityId, Position>,
    pub shapes: Map<EntityId, Shape>,
    pub shimmers: Map<EntityId, Shimmer>,
    pub velocities: Map<EntityId, Velocity>,
    /// The structural changes asked for since the last flush, oldest first.
    pub queue: Seq<Change>,
}

impl WorldView {
    /// The world before anything was created.
    pub open spec fn empty() -> WorldView {
        WorldView {
            last_id: 0,
            alive: Seq::empty(),
            clamps: Map::empty(),
            colors: Map::empty(),
            fades: Map::empty(),
            hit_counts: Map::empty(),
            player_controllers: Map::empty(),
            positions: Map::empty(),
            shapes: Map::empty(),
            shimmers: Map::empty(),
            velocities: Map::empty(),
            queue: Seq::empty(),
        }
    }

    /// The living entities are distinct, only they have components, and no
    /// identifier is in use that was not handed out.
    pub open spec fn wf(self) -> bool {
        &&& self.alive.no_duplicates()
        &&& within(self.clamps, self.alive)
        &&& within(self.colors, self.alive)
        &&& within(self.fades, self.alive)
        &&& within(self.hit_counts, self.alive)
        &&& within(self.player_controllers, self.alive)
        &&& within(self.positions, self.alive)
        &&& within(self.shapes, self.alive)
        &&& within(self.shimmers, self.alive)
        &&& within(self.velocities, self.alive)
        &&& forall|i: int| 0 <= i < self.alive.len() ==> #[trigger] self.alive[i] <= self.last_id
        &&& forall|i: int|
            0 <= i < self.queue.len() ==> (#[trigger] self.queue[i] matches Change::Create(id, _)
                ==> id <= self.last_id)
    }

    /// Whether `id` holds every component that `aspect` asks for.
    pub open spec fn holds(self, id: EntityId, aspect: Aspect) -> bool {
        &&& aspect.clamps ==> self.clamps.contains_key(id)
        &&& aspect.colors ==> self.colors.contains_key(id)
        &&& aspect.fades ==> self.fades.contains_key(id)
        &&& aspect.hit_counts ==> self.hit_counts.contains_key(id)
        &&& aspect.player_controllers ==> self.player_controllers.contains_key(id)
        &&& aspect.positions ==> self.positions.contains_key(id)
        &&& aspect.shapes ==> self.shapes.contains_key(id)
        &&& aspect.shimmers ==> self.shimmers.contains_key(id)
        &&& aspect.velocities ==> self.velocities.contains_key(id)
    }

    /// Those of `ids` that hold `aspect`, in the order of `ids`.
    pub open spec fn matching_among(self, ids: Seq<EntityId>, aspect: Aspect) -> Seq<EntityId>
        decreases ids.len(),
    {
        if ids.len() == 0 {
            Seq::empty()
        } else {
            let rest = self.matching_among(ids.drop_last(), aspect);
            if self.holds(ids.last(), aspect) {
                rest.push(ids.last())
            } else {
                rest
            }
        }
    }

    /// The living entities that hold `aspect`, in the order in which they came
    /// to life.
    pub open spec fn matching(self, aspect: Aspect) -> Seq<EntityId> {
        self.matching_among(self.alive, aspect)
    }

    /// The components that `id` holds.
    pub open spec fn blueprint_of(self, id: EntityId) -> Blueprint {
        Blueprint {
            clamp: self.clamps.get(id),
            color: self.colors.get(id),
            fade: self.fades.get(id),
            hit_count: self.hit_counts.get(id),
            player_controller: self.player_controllers.get(id),
            position: self.positions.get(id),
            shape: self.shapes.get(id),
            shimmer: self.shimmers.get(id),
            velocity: self.velocities.get(id),
        }
    }

    /// The identifier that the next creation hands out, if one is left.
    pub open spec fn next_id(self) -> Option<EntityId> {
        if self.last_id < u64::MAX {
            Some((self.last_id + 1) as u64)
        } else {
            None
        }
    }

    /// The world once the creation of an entity from `blueprint` has been
    /// asked for. Only the queue and the last identifier differ.
    pub open spec fn create(self, blueprint: Blueprint) -> WorldView {
        match self.next_id() {
            Some(id) => WorldView {
                last_id: id,
                queue: self.queue.push(Change::Create(id, blueprint)),
                ..self
            },
            None => self,
        }
    }

    /// The world once the removal of `id` has been asked for. Only the queue
    /// differs.
    pub open spec fn remove(self, id: EntityId) -> WorldView {
        WorldView { queue: self.queue.push(Change::Remove(id)), ..self }
    }

    /// The world once `id` has come to life with the components of
    /// `blueprint`. An identifier that is alive already changes nothing.
    pub open spec fn spawn(self, id: EntityId, blueprint: Blueprint) -> WorldView {
        if self.alive.contains(id) {
            self
        } else {
            WorldView {
                alive: self.alive.push(id),
                clamps: given(self.clamps, id, blueprint.clamp),
                colors: given(self.colors, id, blueprint.color),
                fades: given(self.fades, id, blueprint.fade),
                hit_counts: given(self.hit_counts, id, blueprint.hit_count),
                player_controllers: given(
                    self.player_controllers,
                    id,
                    blueprint.player_controller,
                ),
                positions: given(self.positions, id, blueprint.position),
                shapes: given(self.shapes, id, blueprint.shape),
                shimmers: given(self.shimmers, id, blueprint.shimmer),
                velocities: given(self.velocities, id, blueprint.velocity),
                ..self
            }
        }
    }

    /// The world once `id` and all its components are gone. An identifier that
    /// is not alive changes nothing.
    pub open spec fn despawn(self, id: EntityId) -> WorldView {
        if self.alive.contains(id) {
            WorldView {
                alive: self.alive.remove(self.alive.index_of(id)),
                clamps: self.clamps.remove(id),
                colors: self.colors.remove(id),
                fades: self.fades.remove(id),
                hit_counts: self.hit_counts.remove(id),
                player_controllers: self.player_controllers.remove(id),
                positions: self.positions.remove(id),
                shapes: self.shapes.remove(id),
                shimmers: self.shimmers.remove(id),
                velocities: self.velocities.remove(id),
                ..self
            }
        } else {
            self
        }
    }

    /// The world once `change` has taken effect.
    pub open spec fn apply(self, change: Change) -> WorldView {
        match change {
            Change::Create(id, blueprint) => self.spawn(id, blueprint),
            Change::Remove(id) => self.despawn(id),
        }
    }

    /// The world once `changes` have taken effect, the first of them first.
    pub open spec fn apply_all(self, changes: Seq<Change>) -> WorldView
        decreases changes.len(),
    {
        if changes.len() == 0 {
            self
        } else {
            self.apply_all(changes.drop_last()).apply(changes.last())
        }
    }

    /// The world once every queued change has taken effect, in the order in
    /// which they were asked for.
    pub open spec fn flush(self) -> WorldView {
        (WorldView { queue: Seq::empty(), ..self }).apply_all(self.queue)
    }
}

/// The entity store. It hands out identifiers, owns one table per component
/// type, and keeps the structural changes that were asked for until the next
/// flush.
pub struct World {
    last_id: EntityId,
    alive: Vec<EntityId>,
    clamps: Table<WindowClamp>,
    colors: Table<Color>,
    fades: Table<Fade>,
    hit_counts: Table<HitCount>,
    player_controllers: Table<PlayerController>,
    positions: Table<Position>,
    shapes: Table<Shape>,
    shimmers: Table<Shimmer>,
    velocities: Table<Velocity>,
    queue: Vec<Change>,
}

impl View for World {
    type V = WorldView;

    /// The content of the store.
    closed spec fn view(&self) -> WorldView {
        WorldView {
            last_id: self.last_id,
            alive: self.alive@,
            clamps: self.clamps@,
            colors: self.colors@,
            fades: self.fades@,
            hit_counts: self.hit_counts@,
            player_controllers: self.player_controllers@,
            positions: self.positions@,
            shapes: self.shapes@,
            shimmers: self.shimmers@,
            velocities: self.velocities@,
            queue: self.queue@,
        }
    }
}

impl World {
    /// Whether the store is consistent, see [`WorldView::wf`].
    pub open spec fn wf(&self) -> bool {
        self@.wf()
    }

    /// A store without entities.
    pub fn new() -> (world: World)
        ensures
            world@ == WorldView::empty(),
            world.wf(),
    {
        World {
            last_id: 0,
            alive: Vec::new(),
            clamps: Table::new(),
            colors: Table::new(),
            fades: Table::new(),
            hit_counts: Table::new(),
            player_controllers: Table::new(),
            positions: Table::new(),
            shapes: Table::new(),
            shimmers: Table::new(),
            velocities: Table::new(),
            queue: Vec::new(),
        }
    }

    /// Asks for a new entity with the components of `blueprint` and returns
    /// its identifier. The entity comes to life at the next flush. Once every
    /// identifier has been handed out, nothing is queued and the answer is
    /// `None`.
    pub fn create(&mut self, blueprint: Blueprint) -> (id: Option<EntityId>)
        requires
            old(self).wf(),
        ensures
            id == old(self)@.next_id(),
            final(self)@ == old(self)@.create(blueprint),
            final(self).wf(),
    {
        if self.last_id == u64::MAX {
            return None;
        }
        let id: EntityId = self.last_id + 1;
        self.last_id = id;
        self.queue.push(Change::Create(id, blueprint));
        Some(id)
    }

    /// Asks for the removal of `id` and all its components. The entity goes
    /// at the next flush; if it is not alive then, nothing happens.
    pub fn remove(&mut self, id: EntityId)
        requires
            old(self).wf(),
        ensures
            final(self)@ == old(self)@.remove(id),
            final(self).wf(),
    {
        self.queue.push(Change::Remove(id));
    }

    /// Where `id` stands among the living.
    fn index_of(&self, id: EntityId) -> (found: Option<usize>)
        ensures
            match found {
                Some(i) => i < self@.alive.len() && self@.alive[i as int] == id,
                None => !self@.alive.contains(id),
            },
    {
        let mut i: usize = 0;
        while i < self.alive.len()
            invariant
                i <= self.alive@.len(),
                forall|k: int| 0 <= k < i ==> self.alive@[k] != id,
            decreases self.alive@.len() - i,
        {
            if self.alive[i] == id {
                return Some(i);
            }
            i += 1;
        }
        None
    }

    /// Whether `id` is alive.
    pub fn is_alive(&self, id: EntityId) -> (alive: bool)
        ensures
            alive == self@.alive.contains(id),
    {
        self.index_of(id).is_some()
    }

    /// Brings `id` to life with the components of `blueprint`, see
    /// [`WorldView::spawn`].
    fn spawn(&mut self, id: EntityId, blueprint: Blueprint)
        requires
            old(self).wf(),
            id <= old(self)@.last_id,
        ensures
            final(self)@ == old(self)@.spawn(id, blueprint),
            final(self).wf(),
    {
        if self.index_of(id).is_some() {
            return ;
        }
        self.alive.push(id);
        if let Some(value) = blueprint.clamp {
            self.clamps.insert(id, value);
        }
        if let Some(value) = blueprint.color {
            self.colors.insert(id, value);
        }
        if let Some(value) = blueprint.fade {
            self.fades.insert(id, value);
        }
        if let Some(value) = blueprint.hit_count {
            self.hit_counts.insert(id, value);
        }
        if let Some(value) = blueprint.player_controller {
            self.player_controllers.insert(id, value);
        }
        if let Some(value) = blueprint.position {
            self.positions.insert(id, value);
        }
        if let Some(value) = blueprint.shape {
            self.shapes.insert(id, value);
        }
        if let Some(value) = blueprint.shimmer {
            self.shimmers.insert(id, value);
        }
        if let Some(value) = blueprint.velocity {
            self.velocities.insert(id, value);
        }
        proof {
            lemma_spawn_wf(old(self)@, id, blueprint);
        }
    }

    /// Takes `id` and all its components away, see [`WorldView::despawn`].
    fn despawn(&mut self, id: EntityId)
        requires
            old(self).wf(),
        ensures
            final(self)@ == old(self)@.despawn(id),
            final(self).wf(),
    {
        match self.index_of(id) {
            None => {},
            Some(i) => {
                proof {
                    lemma_despawn_wf(old(self)@, id);
                    assert(old(self)@.alive.index_of(id) == i);
                }
                self.alive.remove(i);
                self.clamps.remove(id);
                self.colors.remove(id);
                self.fades.remove(id);
                self.hit_counts.remove(id);
                self.player_controllers.remove(id);
                self.positions.remove(id);
                self.shapes.remove(id);
                self.shimmers.remove(id);
                self.velocities.remove(id);
            },
        }
    }

    /// Lets every queued change take effect, in the order in which they were
    /// asked for, and empties the queue.
    pub fn flush(&mut self)
        requires
            old(self).wf(),
        ensures
            final(self)@ == old(self)@.flush(),
            final(self).wf(),
    {
        let mut queue: Vec<Change> = Vec::new();
        std::mem::swap(&mut self.queue, &mut queue);
        let ghost base = self@;
        let mut i: usize = 0;
        while i < queue.len()
            invariant
                i <= queue@.len(),
                queue@ == old(self)@.queue,
                base == (WorldView { queue: Seq::empty(), ..old(self)@ }),
                self@ == base.apply_all(queue@.take(i as int)),
                self.wf(),
                self@.last_id == base.last_id,
                forall|k: int|
                    0 <= k < queue@.len() ==> (#[trigger] queue@[k] matches Change::Create(id, _)
                        ==> id <= base.last_id),
            decreases queue@.len() - i,
        {
            let change = queue[i];
            proof {
                assert(queue@.take(i + 1).drop_last() == queue@.take(i as int));
                assert(queue@.take(i + 1).last() == change);
            }
            match change {
                Change::Create(id, blueprint) => {
                    self.spawn(id, blueprint);
                },
                Change::Remove(id) => {
                    self.despawn(id);
                },
            }
            i += 1;
        }
        proof {
            assert(queue@.take(i as int) == queue@);
        }
    }

    /// The living entities, in the order in which they came to life.
    pub fn entities(&self) -> (ids: Vec<EntityId>)
        ensures
            ids@ == self@.alive,
    {
        self.alive.clone()
    }

    /// Whether `id` holds every component that `aspect` asks for.
    pub fn holds(&self, id: EntityId, aspect: Aspect) -> (held: bool)
        ensures
            held == self@.holds(id, aspect),
    {
        (!aspect.clamps || self.clamps.has(id)) && (!aspect.colors || self.colors.has(id)) && (
        !aspect.fades || self.fades.has(id)) && (!aspect.hit_counts || self.hit_counts.has(id))
            && (!aspect.player_controllers || self.player_controllers.has(id)) && (
        !aspect.positions || self.positions.has(id)) && (!aspect.shapes || self.shapes.has(id))
            && (!aspect.shimmers || self.shimmers.has(id)) && (!aspect.velocities
            || self.velocities.has(id))
    }

    /// The living entities that hold every component that `aspect` asks for,
    /// in the order in which they came to life. Changes that still wait in
    /// the queue do not count.
    pub fn matching(&self, aspect: Aspect) -> (ids: Vec<EntityId>)
        ensures
            ids@ == self@.matching(aspect),
            forall|id: EntityId|
                ids@.contains(id) <==> self@.alive.contains(id) && self@.holds(id, aspect),
    {
        let mut ids: Vec<EntityId> = Vec::new();
        let mut i: usize = 0;
        while i < self.alive.len()
            invariant
                i <= self.alive@.len(),
                ids@ == self@.matching_among(self@.alive.take(i as int), aspect),
            decreases self.alive@.len() - i,
        {
            let id = self.alive[i];
            proof {
                assert(self@.alive.take(i + 1).drop_last() == self@.alive.take(i as int));
            }
            if self.holds(id, aspect) {
                ids.push(id);
            }
            i += 1;
        }
        proof {
            assert(self@.alive.take(i as int) == self@.alive);
            lemma_matching_is_exact(self@, aspect);
        }
        ids
    }

    /// The components that `id` holds.
    pub fn blueprint_of(&self, id: EntityId) -> (blueprint: Blueprint)
        ensures
            blueprint == self@.blueprint_of(id),
    {
        Blueprint {
            clamp: self.clamps.get(id),
            color: self.colors.get(id),
            fade: self.fades.get(id),
            hit_count: self.hit_counts.get(id),
            player_controller: self.player_controllers.get(id),
            position: self.positions.get(id),
            shape: self.shapes.get(id),
            shimmer: self.shimmers.get(id),
            velocity: self.velocities.get(id),
        }
    }

    /// The table of edge policies.
    pub fn clamps(&self) -> (table: &Table<WindowClamp>)
        ensures
            table@ == self@.clamps,
    {
        &self.clamps
    }

    /// Replaces the edge policy of `id`. An entity without one gets none: the
    /// store is left as it was and the answer is `false`.
    pub fn set_clamp(&mut self, id: EntityId, value: WindowClamp) -> (found: bool)
        requires
            old(self).wf(),
        ensures
            found == old(self)@.clamps.contains_key(id),
            final(self)@ == (if found {
                WorldView { clamps: old(self)@.clamps.insert(id, value), ..old(self)@ }
            } else {
                old(self)@
            }),
            final(self).wf(),
    {
        self.clamps.set(id, value)
    }

    /// The table of colors.
    pub fn colors(&self) -> (table: &Table<Color>)
        ensures
            table@ == self@.colors,
    {
        &self.colors
    }

    /// Replaces the color of `id`. An entity without one gets none: the
    /// store is left as it was and the answer is `false`.
    pub fn set_color(&mut self, id: EntityId, value: Color) -> (found: bool)
        requires
            old(self).wf(),
        ensures
            found == old(self)@.colors.contains_key(id),
            final(self)@ == (if found {
                WorldView { colors: old(self)@.colors.insert(id, value), ..old(self)@ }
            } else {
                old(self)@
            }),
            final(self).wf(),
    {
        self.colors.set(id, value)
    }

    /// The table of fade rates.
    pub fn fades(&self) -> (table: &Table<Fade>)
        ensures
            table@ == self@.fades,
    {
        &self.fades
    }

    /// Replaces the fade rate of `id`. An entity without one gets none: the
    /// store is left as it was and the answer is `false`.
    pub fn set_fade(&mut self, id: EntityId, value: Fade) -> (found: bool)
        requires
            old(self).wf(),
        ensures
            found == old(self)@.fades.contains_key(id),
            final(self)@ == (if found {
                WorldView { fades: old(self)@.fades.insert(id, value), ..old(self)@ }
            } else {
                old(self)@
            }),
            final(self).wf(),
    {
        self.fades.set(id, value)
    }

    /// The table of hit counters.
    pub fn hit_counts(&self) -> (table: &Table<HitCount>)
        ensures
            table@ == self@.hit_counts,
    {
        &self.hit_counts
    }

    /// Replaces the hit counter of `id`. An entity without one gets none: the
    /// store is left as it was and the answer is `false`.
    pub fn set_hit_count(&mut self, id: EntityId, value: HitCount) -> (found: bool)
        requires
            old(self).wf(),
        ensures
            found == old(self)@.hit_counts.contains_key(id),
            final(self)@ == (if found {
                WorldView { hit_counts: old(self)@.hit_counts.insert(id, value), ..old(self)@ }
            } else {
                old(self)@
            }),
            final(self).wf(),
    {
        self.hit_counts.set(id, value)
    }

    /// The table of player controllers.
    pub fn player_controllers(&self) -> (table: &Table<PlayerController>)
        ensures
            table@ == self@.player_controllers,
    {
        &self.player_controllers
    }

    /// Replaces the player controller of `id`. An entity without one gets none: the
    /// store is left as it was and the answer is `false`.
    pub fn set_player_controller(&mut self, id: EntityId, value: PlayerController) -> (found: bool)
        requires
            old(self).wf(),
        ensures
            found == old(self)@.player_controllers.contains_key(id),
            final(self)@ == (if found {
                WorldView {
                    player_controllers: old(self)@.player_controllers.insert(id, value),
                    ..old(self)@
                }
            } else {
                old(self)@
            }),
            final(self).wf(),
    {
        self.player_controllers.set(id, value)
    }

    /// The table of positions.
    pub fn positions(&self) -> (table: &Table<Position>)
        ensures
            table@ == self@.positions,
    {
        &self.positions
    }

    /// Replaces the position of `id`. An entity without one gets none: the
    /// store is left as it was and the answer is `false`.
    pub fn set_position(&mut self, id: EntityId, value: Position) -> (found: bool)
        requires
            old(self).wf(),
        ensures
            found == old(self)@.positions.contains_key(id),
            final(self)@ == (if found {
                WorldView { positions: old(self)@.positions.insert(id, value), ..old(self)@ }
            } else {
                old(self)@
            }),
            final(self).wf(),
    {
        self.positions.set(id, value)
    }

    /// The table of shapes.
    pub fn shapes(&self) -> (table: &Table<Shape>)
        ensures
            table@ == self@.shapes,
    {
        &self.shapes
    }

    /// Replaces the shape of `id`. An entity without one gets none: the
    /// store is left as it was and the answer is `false`.
    pub fn set_shape(&mut self, id: EntityId, value: Shape) -> (found: bool)
        requires
            old(self).wf(),
        ensures
            found == old(self)@.shapes.contains_key(id),
            final(self)@ == (if found {
                WorldView { shapes: old(self)@.shapes.insert(id, value), ..old(self)@ }
            } else {
                old(self)@
            }),
            final(self).wf(),
    {
        self.shapes.set(id, value)
    }

    /// The table of shimmer marks.
    pub fn shimmers(&self) -> (table: &Table<Shimmer>)
        ensures
            table@ == self@.shimmers,
    {
        &self.shimmers
    }

    /// Replaces the shimmer mark of `id`. An entity without one gets none: the
    /// store is left as it was and the answer is `false`.
    pub fn set_shimmer(&mut self, id: EntityId, value: Shimmer) -> (found: bool)
        requires
            old(self).wf(),
        ensures
            found == old(self)@.shimmers.contains_key(id),
            final(self)@ == (if found {
                WorldView { shimmers: old(self)@.shimmers.insert(id, value), ..old(self)@ }
            } else {
                old(self)@
            }),
            final(self).wf(),
    {
        self.shimmers.set(id, value)
    }

    /// The table of velocities.
    pub fn velocities(&self) -> (table: &Table<Velocity>)
        ensures
            table@ == self@.velocities,
    {
        &self.velocities
    }

    /// Replaces the velocity of `id`. An entity without one gets none: the
    /// store is left as it was and the answer is `false`.
    pub fn set_velocity(&mut self, id: EntityId, value: Velocity) -> (found: bool)
        requires
            old(self).wf(),
        ensures
            found == old(self)@.velocities.contains_key(id),
            final(self)@ == (if found {
                WorldView { velocities: old(self)@.velocities.insert(id, value), ..old(self)@ }
            } else {
                old(self)@
            }),
            final(self).wf(),
    {
        self.velocities.set(id, value)
    }
}

/// An entity is among the matching ones exactly if it is alive and holds the
/// aspect.
pub proof fn lemma_matching_is_exact(w: WorldView, aspect: Aspect)
    ensures
        forall|id: EntityId|
            w.matching(aspect).contains(id) <==> w.alive.contains(id) && w.holds(id, aspect),
{
    assert forall|id: EntityId|
        w.matching(aspect).contains(id) <==> w.alive.contains(id) && w.holds(id, aspect) by {
        lemma_matching_among(w, w.alive, aspect, id);
    }
}

/// Of `ids`, the matching ones are exactly those that hold the aspect.
pub proof fn lemma_matching_among(w: WorldView, ids: Seq<EntityId>, aspect: Aspect, id: EntityId)
    ensures
        w.matching_among(ids, aspect).contains(id) <==> ids.contains(id) && w.holds(id, aspect),
    decreases ids.len(),
{
    let found = w.matching_among(ids, aspect);
    if ids.len() > 0 {
        let front = ids.drop_last();
        let rest = w.matching_among(front, aspect);
        lemma_matching_among(w, front, aspect, id);
        if found.contains(id) {
            let i = choose|i: int| 0 <= i < found.len() && found[i] == id;
            if i < rest.len() {
                assert(rest[i] == id);
                let k = choose|k: int| 0 <= k < front.len() && front[k] == id;
                assert(ids[k] == id);
            } else {
                assert(ids[ids.len() - 1] == id);
            }
        }
        if ids.contains(id) && w.holds(id, aspect) {
            let k = choose|k: int| 0 <= k < ids.len() && ids[k] == id;
            if k < ids.len() - 1 {
                assert(front[k] == id);
                let i = choose|i: int| 0 <= i < rest.len() && rest[i] == id;
                assert(found[i] == id);
            } else {
                assert(found[found.len() - 1] == id);
            }
        }
    }
}

/// An entity that comes to life leaves the world consistent.
pub proof fn lemma_spawn_wf(w: WorldView, id: EntityId, blueprint: Blueprint)
    requires
        w.wf(),
        id <= w.last_id,
    ensures
        w.spawn(id, blueprint).wf(),
{
    if !w.alive.contains(id) {
        let after = w.spawn(id, blueprint);
        assert forall|x: EntityId| w.alive.contains(x) || x == id implies after.alive.contains(
            x,
        ) by {
            if x == id {
                assert(after.alive[w.alive.len() as int] == id);
            } else {
                let i = choose|i: int| 0 <= i < w.alive.len() && w.alive[i] == x;
                assert(after.alive[i] == x);
            }
        }
    }
}

/// An entity that goes leaves the world consistent.
pub proof fn lemma_despawn_wf(w: WorldView, id: EntityId)
    requires
        w.wf(),
    ensures
        w.despawn(id).wf(),
{
    if w.alive.contains(id) {
        let after = w.despawn(id);
        let at = w.alive.index_of(id);
        assert forall|x: EntityId| w.alive.contains(x) && x != id implies after.alive.contains(
            x,
        ) by {
            let i = choose|i: int| 0 <= i < w.alive.len() && w.alive[i] == x;
            if i < at {
                assert(after.alive[i] == x);
            } else {
                assert(after.alive[i - 1] == x);
            }
        }
    }
}

} // verus!
