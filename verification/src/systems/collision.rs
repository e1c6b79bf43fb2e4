//! Contacts between circles and rectangles.

use crate::components::{HitCount, Position, ShapeVariant, Velocity};
use crate::contact::{contact, contact_of};
use crate::debug::{ghost, ghost_blueprint, line, line_blueprint};
use crate::deferral::{lemma_only_created_chains, only_created};
use crate::event::Event;
use crate::fixed::{halved, negated, saturate, saturated};
use crate::store::{Aspect, EntityId, World, WorldView};
use std::collections::HashSet;
use vstd::prelude::*;

verus! {

/// How fast the line fades that shows a push.
pub const PUSH_FADE: i64 = 10_000;

/// Finds the pairs of entities that touch and lets them respond.
pub struct CollisionSystem;

/// A circle and a rectangle that the collision system looks at as a pair.
#[derive(Clone, Copy, PartialEq, Eq, Structural, Debug)]
pub struct Meeting {
    pub circle: EntityId,
    pub radius: i64,
    pub square: EntityId,
    pub half_w: i64,
    pub half_h: i64,
}

/// What a pass has seen of the entities so far.
pub struct MarksView {
    /// The entities that were part of a pair of a circle and a rectangle.
    pub met: Set<EntityId>,
    /// Those of them that were in contact in at least one such pair.
    pub touched: Set<EntityId>,
}

/// What a pass has seen of the entities so far, see [`MarksView`].
pub struct Marks {
    met: HashSet<EntityId>,
    touched: HashSet<EntityId>,
}

impl View for Marks {
    type V = MarksView;

    /// What the marks hold.
    closed spec fn view(&self) -> MarksView {
        MarksView { met: self.met@, touched: self.touched@ }
    }
}

impl MarksView {
    /// The marks of a pass that has seen nothing.
    pub open spec fn empty() -> MarksView {
        MarksView { met: Set::empty(), touched: Set::empty() }
    }

    /// What a pass tells the hit counter of `id`: that it was in contact,
    /// that it was apart from all that it met, or nothing where it met
    /// nothing.
    pub open spec fn contact(self, id: EntityId) -> Option<bool> {
        if self.touched.contains(id) {
            Some(true)
        } else if self.met.contains(id) {
            Some(false)
        } else {
            None
        }
    }
}

impl Marks {
    /// The marks of a pass that has seen nothing.
    pub fn new() -> (marks: Marks)
        ensures
            marks@ == MarksView::empty(),
    {
        Marks { met: HashSet::new(), touched: HashSet::new() }
    }

    /// What the pass tells the hit counter of `id`, see
    /// [`MarksView::contact`].
    pub fn contact(&self, id: EntityId) -> (contact: Option<bool>)
        ensures
            contact == self@.contact(id),
    {
        if self.touched.contains(&id) {
            Some(true)
        } else if self.met.contains(&id) {
            Some(false)
        } else {
            None
        }
    }

    /// Notes that `circle` and `square` were looked at as a pair, and whether
    /// they were in contact.
    fn note(&mut self, circle: EntityId, square: EntityId, touching: bool)
        ensures
            final(self)@ == noted(old(self)@, circle, square, touching),
    {
        self.met.insert(circle);
        self.met.insert(square);
        if touching {
            self.touched.insert(circle);
            self.touched.insert(square);
        }
    }
}

/// The marks once a pair of a circle and a rectangle has been looked at.
pub open spec fn noted(
    marks: MarksView,
    circle: EntityId,
    square: EntityId,
    touching: bool,
) -> MarksView {
    MarksView {
        met: marks.met.insert(circle).insert(square),
        touched: if touching {
            marks.touched.insert(circle).insert(square)
        } else {
            marks.touched
        },
    }
}

/// The world once `id` has been in contact for a tick. Only its hit counter
/// differs, if it has one.
pub open spec fn struck(w: WorldView, id: EntityId) -> WorldView {
    if w.hit_counts.contains_key(id) {
        WorldView { hit_counts: w.hit_counts.insert(id, w.hit_counts[id].struck()), ..w }
    } else {
        w
    }
}

/// The world once `id` has been out of contact for a tick. Only its hit
/// counter differs, if it has one.
pub open spec fn parted(w: WorldView, id: EntityId) -> WorldView {
    if w.hit_counts.contains_key(id) {
        WorldView { hit_counts: w.hit_counts.insert(id, w.hit_counts[id].parted()), ..w }
    } else {
        w
    }
}

/// The world once `id` has lost half its speed on both axes.
pub open spec fn slowed(w: WorldView, id: EntityId) -> WorldView {
    if w.velocities.contains_key(id) {
        let v = w.velocities[id];
        WorldView {
            velocities: w.velocities.insert(id, Velocity { x: halved(v.x), y: halved(v.y) }),
            ..w
        }
    } else {
        w
    }
}

/// A speed after a push along its axis: reversed where it ran against the
/// push, else as it was.
pub open spec fn deflected(speed: i64, push: int) -> i64 {
    if push > 0 && speed < 0 {
        negated(speed)
    } else if push < 0 && speed > 0 {
        negated(speed)
    } else {
        speed
    }
}

/// A speed after a push along its axis, see [`deflected`].
pub fn deflect(speed: i64, push: i128) -> (after: i64)
    ensures
        after == deflected(speed, push as int),
{
    if push > 0 && speed < 0 {
        negated(speed)
    } else if push < 0 && speed > 0 {
        negated(speed)
    } else {
        speed
    }
}

/// The world once the speed of `id` has been deflected by `push` on each axis.
pub open spec fn turned(w: WorldView, id: EntityId, push: (int, int)) -> WorldView {
    if w.velocities.contains_key(id) {
        let v = w.velocities[id];
        WorldView {
            velocities: w.velocities.insert(
                id,
                Velocity { x: deflected(v.x, push.0), y: deflected(v.y, push.1) },
            ),
            ..w
        }
    } else {
        w
    }
}

/// The pair of a circle and a rectangle that `first` and `second` are, in
/// either order, where both have a shape and a position. No other two
/// entities are such a pair.
pub open spec fn meeting(w: WorldView, first: EntityId, second: EntityId) -> Option<Meeting> {
    if w.shapes.contains_key(first) && w.shapes.contains_key(second) && w.positions.contains_key(
        first,
    ) && w.positions.contains_key(second) {
        match (w.shapes[first].variant, w.shapes[second].variant) {
            (ShapeVariant::Square(half_w, half_h), ShapeVariant::Circle(radius)) => Some(
                Meeting { circle: second, radius, square: first, half_w, half_h },
            ),
            (ShapeVariant::Circle(radius), ShapeVariant::Square(half_w, half_h)) => Some(
                Meeting { circle: first, radius, square: second, half_w, half_h },
            ),
            _ => None,
        }
    } else {
        None
    }
}

/// Whether the circle of a pair reaches its rectangle.
pub open spec fn touching(w: WorldView, pair: Meeting) -> bool {
    contact_of(
        w.positions[pair.circle],
        pair.radius,
        w.positions[pair.square],
        pair.half_w,
        pair.half_h,
    ) is Some
}

/// The world once a circle and a rectangle have met. Where either has no
/// position, or the circle does not reach the rectangle, nothing happens.
/// Where it does, the circle is pushed back, the rectangle loses half its
/// speed, a ghost of the pushed circle and a line along the push are asked
/// for, and the circle's speed is deflected by the push. The hit counters
/// wait for the end of the pass.
pub open spec fn bounced(
    w: WorldView,
    circle: EntityId,
    radius: i64,
    square: EntityId,
    half_w: i64,
    half_h: i64,
) -> WorldView {
    if w.positions.contains_key(circle) && w.positions.contains_key(square) {
        let center = w.positions[circle];
        match contact_of(center, radius, w.positions[square], half_w, half_h) {
            None => w,
            Some(push) => {
                let to = Position {
                    x: saturate(center.x + push.0),
                    y: saturate(center.y + push.1),
                };
                let pushed = WorldView { positions: w.positions.insert(circle, to), ..w };
                let damped = slowed(pushed, square);
                let haunted = damped.create(ghost_blueprint(damped, circle));
                let traced = haunted.create(
                    line_blueprint(center.x, center.y, to.x, to.y, PUSH_FADE),
                );
                turned(traced, circle, push)
            },
        }
    } else {
        w
    }
}

/// The world once the pair of `first` and `second` has been looked at. A
/// circle and a rectangle, in either order, meet as [`bounced`] says. Two
/// circles do not respond to each other, and no other pair does.
pub open spec fn collided(w: WorldView, first: EntityId, second: EntityId) -> WorldView {
    match meeting(w, first, second) {
        Some(pair) => bounced(
            w,
            pair.circle,
            pair.radius,
            pair.square,
            pair.half_w,
            pair.half_h,
        ),
        None => w,
    }
}

/// The marks once the pair of `first` and `second` has been looked at in the
/// world `w`: a circle and a rectangle are noted as met, and as touched where
/// the circle reaches the rectangle.
pub open spec fn marked(
    w: WorldView,
    marks: MarksView,
    first: EntityId,
    second: EntityId,
) -> MarksView {
    match meeting(w, first, second) {
        Some(pair) => noted(marks, pair.circle, pair.square, touching(w, pair)),
        None => marks,
    }
}

/// The world once `ids[i]` has been paired with each of `ids[i + 1]` to
/// `ids[upto - 1]`, in this order.
pub open spec fn collided_row(w: WorldView, ids: Seq<EntityId>, i: int, upto: int) -> WorldView
    decreases upto - i,
{
    if upto <= i + 1 {
        w
    } else {
        collided(collided_row(w, ids, i, upto - 1), ids[i], ids[upto - 1])
    }
}

/// The marks once `ids[i]` has been paired with each of `ids[i + 1]` to
/// `ids[upto - 1]`, in this order, starting from the world `w`.
pub open spec fn marked_row(
    w: WorldView,
    marks: MarksView,
    ids: Seq<EntityId>,
    i: int,
    upto: int,
) -> MarksView
    decreases upto - i,
{
    if upto <= i + 1 {
        marks
    } else {
        marked(
            collided_row(w, ids, i, upto - 1),
            marked_row(w, marks, ids, i, upto - 1),
            ids[i],
            ids[upto - 1],
        )
    }
}

/// The world once each of the first `rows` of `ids` has been paired with all
/// that follow it in `ids`.
pub open spec fn collided_rows(w: WorldView, ids: Seq<EntityId>, rows: int) -> WorldView
    decreases rows,
{
    if rows <= 0 {
        w
    } else {
        collided_row(collided_rows(w, ids, rows - 1), ids, rows - 1, ids.len() as int)
    }
}

/// The marks once each of the first `rows` of `ids` has been paired with all
/// that follow it in `ids`, starting from the world `w` and from no marks.
pub open spec fn marked_rows(w: WorldView, ids: Seq<EntityId>, rows: int) -> MarksView
    decreases rows,
{
    if rows <= 0 {
        MarksView::empty()
    } else {
        marked_row(
            collided_rows(w, ids, rows - 1),
            marked_rows(w, ids, rows - 1),
            ids,
            rows - 1,
            ids.len() as int,
        )
    }
}

/// The world once the hit counter of `id` has been told what the pass has
/// seen of `id`: it is struck where `id` was in contact in any of its pairs,
/// parted where `id` was part of such pairs and in contact in none, and left
/// as it is where `id` was part of no such pair.
pub open spec fn settled(w: WorldView, id: EntityId, marks: MarksView) -> WorldView {
    match marks.contact(id) {
        Some(true) => struck(w, id),
        Some(false) => parted(w, id),
        None => w,
    }
}

/// The world once the hit counter of each of `ids` has been told what the
/// pass has seen.
pub open spec fn settled_all(w: WorldView, ids: Seq<EntityId>, marks: MarksView) -> WorldView
    decreases ids.len(),
{
    if ids.len() == 0 {
        w
    } else {
        settled(settled_all(w, ids.drop_last(), marks), ids.last(), marks)
    }
}

/// What the collision system's pass sees of the entities: which of them are
/// part of a pair of a circle and a rectangle, and which are in contact in
/// such a pair when the pair is looked at.
pub open spec fn collision_marks(w: WorldView, event: Event) -> MarksView {
    match event {
        Event::Update { .. } => {
            let ids = w.matching(CollisionSystem::spec_aspect());
            marked_rows(w, ids, ids.len() as int)
        },
        _ => MarksView::empty(),
    }
}

/// The world after the collision system's pass. On an update event every
/// unordered pair of the entities with a position, a shape and a velocity is
/// looked at once, in the order of the entities, and then every hit counter
/// is told what the pass has seen of its entity; any other event changes
/// nothing.
pub open spec fn collision_pass(w: WorldView, event: Event) -> WorldView {
    match event {
        Event::Update { .. } => {
            let ids = w.matching(CollisionSystem::spec_aspect());
            settled_all(
                collided_rows(w, ids, ids.len() as int),
                ids,
                marked_rows(w, ids, ids.len() as int),
            )
        },
        _ => w,
    }
}

/// Lets the hit counter of `id` know of a tick in contact, see [`struck`].
fn strike(world: &mut World, id: EntityId)
    requires
        old(world).wf(),
    ensures
        final(world)@ == struck(old(world)@, id),
        final(world).wf(),
{
    if let Some(hits) = world.hit_counts().get(id) {
        world.set_hit_count(id, hits.struck());
    }
}

/// Lets the hit counter of `id` know of a tick out of contact, see
/// [`parted`].
fn part(world: &mut World, id: EntityId)
    requires
        old(world).wf(),
    ensures
        final(world)@ == parted(old(world)@, id),
        final(world).wf(),
{
    if let Some(hits) = world.hit_counts().get(id) {
        world.set_hit_count(id, hits.parted());
    }
}

/// Takes half the speed of `id` away, see [`slowed`].
fn slow(world: &mut World, id: EntityId)
    requires
        old(world).wf(),
    ensures
        final(world)@ == slowed(old(world)@, id),
        final(world).wf(),
{
    if let Some(v) = world.velocities().get(id) {
        world.set_velocity(id, Velocity { x: halved(v.x), y: halved(v.y) });
    }
}

/// Deflects the speed of `id` by `push`, see [`turned`].
fn turn(world: &mut World, id: EntityId, push: [i128; 2])
    requires
        old(world).wf(),
    ensures
        final(world)@ == turned(old(world)@, id, (push[0] as int, push[1] as int)),
        final(world).wf(),
{
    if let Some(v) = world.velocities().get(id) {
        world.set_velocity(
            id,
            Velocity { x: deflect(v.x, push[0]), y: deflect(v.y, push[1]) },
        );
    }
}

/// Finds the pair of a circle and a rectangle that `first` and `second` are,
/// see [`meeting`].
pub fn meet(world: &World, first: EntityId, second: EntityId) -> (pair: Option<Meeting>)
    ensures
        pair == meeting(world@, first, second),
{
    let one = match world.shapes().get(first) {
        Some(shape) => shape,
        None => { return None; },
    };
    let other = match world.shapes().get(second) {
        Some(shape) => shape,
        None => { return None; },
    };
    if !world.positions().has(first) || !world.positions().has(second) {
        return None;
    }
    match (one.variant, other.variant) {
        (ShapeVariant::Square(half_w, half_h), ShapeVariant::Circle(radius)) => Some(
            Meeting { circle: second, radius, square: first, half_w, half_h },
        ),
        (ShapeVariant::Circle(radius), ShapeVariant::Square(half_w, half_h)) => Some(
            Meeting { circle: first, radius, square: second, half_w, half_h },
        ),
        _ => None,
    }
}

/// Lets a circle and a rectangle meet, see [`bounced`], and tells whether the
/// circle reached the rectangle.
pub fn bounce(
    world: &mut World,
    circle: EntityId,
    radius: i64,
    square: EntityId,
    half_w: i64,
    half_h: i64,
) -> (reached: bool)
    requires
        old(world).wf(),
    ensures
        final(world)@ == bounced(old(world)@, circle, radius, square, half_w, half_h),
        reached == (old(world)@.positions.contains_key(circle) && old(
            world,
        )@.positions.contains_key(square) && contact_of(
            old(world)@.positions[circle],
            radius,
            old(world)@.positions[square],
            half_w,
            half_h,
        ) is Some),
        final(world).wf(),
{
    let center = match world.positions().get(circle) {
        Some(p) => p,
        None => { return false; },
    };
    let corner = match world.positions().get(square) {
        Some(p) => p,
        None => { return false; },
    };
    match contact(center, radius, corner, half_w, half_h) {
        None => false,
        Some(push) => {
            let to = Position {
                x: saturated(center.x as i128 + push[0]),
                y: saturated(center.y as i128 + push[1]),
            };
            world.set_position(circle, to);
            slow(world, square);
            ghost(world, circle);
            line(world, [center.x, center.y, to.x, to.y], PUSH_FADE);
            turn(world, circle, push);
            true
        },
    }
}

/// Looks at the pair of `first` and `second`, see [`collided`], and notes
/// what it saw, see [`marked`].
pub fn collide(world: &mut World, marks: &mut Marks, first: EntityId, second: EntityId)
    requires
        old(world).wf(),
    ensures
        final(world)@ == collided(old(world)@, first, second),
        final(marks)@ == marked(old(world)@, old(marks)@, first, second),
        final(world).wf(),
{
    if let Some(pair) = meet(world, first, second) {
        let reached = bounce(
            world,
            pair.circle,
            pair.radius,
            pair.square,
            pair.half_w,
            pair.half_h,
        );
        marks.note(pair.circle, pair.square, reached);
    }
}

/// Tells the hit counter of `id` what the pass has seen of `id`, see
/// [`settled`].
pub fn settle(world: &mut World, marks: &Marks, id: EntityId)
    requires
        old(world).wf(),
    ensures
        final(world)@ == settled(old(world)@, id, marks@),
        final(world).wf(),
{
    match marks.contact(id) {
        Some(true) => strike(world, id),
        Some(false) => part(world, id),
        None => {},
    }
}

/// Pairs `ids[i]` with all that follow it in `ids`, see [`collided_row`] and
/// [`marked_row`].
fn collide_row(world: &mut World, marks: &mut Marks, ids: &Vec<EntityId>, i: usize)
    requires
        old(world).wf(),
        i < ids.len(),
    ensures
        final(world)@ == collided_row(old(world)@, ids@, i as int, ids@.len() as int),
        final(marks)@ == marked_row(
            old(world)@,
            old(marks)@,
            ids@,
            i as int,
            ids@.len() as int,
        ),
        final(world).wf(),
{
    let mut j: usize = i + 1;
    while j < ids.len()
        invariant
            i < j <= ids@.len(),
            world.wf(),
            world@ == collided_row(old(world)@, ids@, i as int, j as int),
            marks@ == marked_row(old(world)@, old(marks)@, ids@, i as int, j as int),
        decreases ids@.len() - j,
    {
        collide(world, marks, ids[i], ids[j]);
        j += 1;
    }
}

/// Tells every hit counter what the pass has seen, see [`settled_all`].
fn settle_all(world: &mut World, marks: &Marks, ids: &Vec<EntityId>)
    requires
        old(world).wf(),
    ensures
        final(world)@ == settled_all(old(world)@, ids@, marks@),
        final(world).wf(),
{
    let mut k: usize = 0;
    while k < ids.len()
        invariant
            k <= ids@.len(),
            world.wf(),
            world@ == settled_all(old(world)@, ids@.take(k as int), marks@),
        decreases ids@.len() - k,
    {
        proof {
            assert(ids@.take(k + 1).drop_last() == ids@.take(k as int));
        }
        settle(world, marks, ids[k]);
        k += 1;
    }
    proof {
        assert(ids@.take(k as int) == ids@);
    }
}

impl CollisionSystem {
    /// What the system works on: entities with a position, a shape and a
    /// velocity.
    pub open spec fn spec_aspect() -> Aspect {
        Aspect { positions: true, shapes: true, velocities: true, ..Aspect::empty() }
    }

    /// What the system works on, see [`CollisionSystem::spec_aspect`].
    #[verifier::when_used_as_spec(spec_aspect)]
    pub fn aspect() -> (aspect: Aspect)
        ensures
            aspect == Self::spec_aspect(),
    {
        let mut aspect = Aspect::new();
        aspect.positions = true;
        aspect.shapes = true;
        aspect.velocities = true;
        aspect
    }

    /// Runs the system's pass for one tick, see [`collision_pass`]. Every hit
    /// counter ends as what the pass has seen of its entity makes it, see
    /// [`collision_marks`]: struck where the entity was in contact in any of
    /// its pairs, parted where it was part of pairs and in contact in none,
    /// and as it was where it was part of no pair.
    pub fn process(&mut self, event: Event, world: &mut World)
        requires
            old(world).wf(),
        ensures
            final(world)@ == collision_pass(old(world)@, event),
            forall|id: EntityId| #[trigger]
                old(world)@.hit_counts.contains_key(id) ==> final(world)@.hit_counts.contains_key(
                    id,
                ) && final(world)@.hit_counts[id] == old(world)@.hit_counts[id].told(
                    collision_marks(old(world)@, event).contact(id),
                ),
            final(world).wf(),
    {
        proof {
            assert forall|id: EntityId| #[trigger]
                old(world)@.hit_counts.contains_key(id) implies collision_pass(
                old(world)@,
                event,
            ).hit_counts.contains_key(id) && collision_pass(old(world)@, event).hit_counts[id]
                == old(world)@.hit_counts[id].told(
                collision_marks(old(world)@, event).contact(id),
            ) by {
                lemma_collision_pass_counts(old(world)@, event, id);
            }
        }
        if event.update_args().is_none() {
            return ;
        }
        let ids = world.matching(Self::aspect());
        let mut marks = Marks::new();
        let mut i: usize = 0;
        while i < ids.len()
            invariant
                i <= ids@.len(),
                world.wf(),
                world@ == collided_rows(old(world)@, ids@, i as int),
                marks@ == marked_rows(old(world)@, ids@, i as int),
            decreases ids@.len() - i,
        {
            collide_row(world, &mut marks, &ids, i);
            i += 1;
        }
        settle_all(world, &marks, &ids);
    }
}

/// Whether `after` can come from `before` by what the collision system does:
/// it replaces hit counters, positions and velocities and asks for creations,
/// and no hit counter counts less than it did.
pub open spec fn only_collided(before: WorldView, after: WorldView) -> bool {
    &&& only_created(before, after)
    &&& after == WorldView {
        hit_counts: after.hit_counts,
        positions: after.positions,
        velocities: after.velocities,
        last_id: after.last_id,
        queue: after.queue,
        ..before
    }
    &&& forall|id: EntityId| #[trigger]
        before.hit_counts.contains_key(id) ==> after.hit_counts[id].count
            >= before.hit_counts[id].count
}

/// What two steps of the collision system do one after the other, the
/// collision system may do.
pub proof fn lemma_only_collided_chains(a: WorldView, b: WorldView, c: WorldView)
    requires
        only_collided(a, b),
        only_collided(b, c),
    ensures
        only_collided(a, c),
{
    lemma_only_created_chains(a, b, c);
    assert forall|id: EntityId| #[trigger]
        a.hit_counts.contains_key(id) implies c.hit_counts[id].count >= a.hit_counts[id].count by {
        assert(a.hit_counts.dom().contains(id));
        assert(b.hit_counts.contains_key(id));
    }
}

/// A circle and a rectangle that meet replace positions and velocities and
/// ask for a ghost and a line, nothing else: every hit counter stays as it
/// is.
pub proof fn lemma_bounced_only_collides(
    w: WorldView,
    circle: EntityId,
    radius: i64,
    square: EntityId,
    half_w: i64,
    half_h: i64,
)
    ensures
        only_collided(w, bounced(w, circle, radius, square, half_w, half_h)),
        bounced(w, circle, radius, square, half_w, half_h).hit_counts == w.hit_counts,
{
    if w.positions.contains_key(circle) && w.positions.contains_key(square) {
        let center = w.positions[circle];
        match contact_of(center, radius, w.positions[square], half_w, half_h) {
            None => {},
            Some(push) => {
                let to = Position {
                    x: saturate(center.x + push.0),
                    y: saturate(center.y + push.1),
                };
                let pushed = WorldView { positions: w.positions.insert(circle, to), ..w };
                let damped = slowed(pushed, square);
                let haunted = damped.create(ghost_blueprint(damped, circle));
                let traced = haunted.create(
                    line_blueprint(center.x, center.y, to.x, to.y, PUSH_FADE),
                );
                let after = turned(traced, circle, push);
                assert(pushed.positions.dom() =~= w.positions.dom());
                assert(damped.velocities.dom() =~= pushed.velocities.dom());
                assert(after.velocities.dom() =~= traced.velocities.dom());
                assert(only_collided(w, damped));
                assert(only_collided(damped, haunted));
                assert(only_collided(haunted, traced));
                assert(only_collided(traced, after));
                lemma_only_collided_chains(w, damped, haunted);
                lemma_only_collided_chains(w, haunted, traced);
                lemma_only_collided_chains(w, traced, after);
            },
        }
    }
}

/// A pair that has been looked at has replaced positions and velocities and
/// asked for creations, nothing else: every hit counter stays as it is.
pub proof fn lemma_collided_only_collides(w: WorldView, first: EntityId, second: EntityId)
    ensures
        only_collided(w, collided(w, first, second)),
        collided(w, first, second).hit_counts == w.hit_counts,
{
    if let Some(pair) = meeting(w, first, second) {
        lemma_bounced_only_collides(
            w,
            pair.circle,
            pair.radius,
            pair.square,
            pair.half_w,
            pair.half_h,
        );
    }
}

/// What [`lemma_collided_only_collides`] says of a pair holds of a row of
/// pairs.
pub proof fn lemma_collided_row_only_collides(
    w: WorldView,
    ids: Seq<EntityId>,
    i: int,
    upto: int,
)
    ensures
        only_collided(w, collided_row(w, ids, i, upto)),
        collided_row(w, ids, i, upto).hit_counts == w.hit_counts,
    decreases upto - i,
{
    if upto > i + 1 {
        let before = collided_row(w, ids, i, upto - 1);
        lemma_collided_row_only_collides(w, ids, i, upto - 1);
        lemma_collided_only_collides(before, ids[i], ids[upto - 1]);
        lemma_only_collided_chains(w, before, collided(before, ids[i], ids[upto - 1]));
    }
}

/// What [`lemma_collided_only_collides`] says of a pair holds of rows of
/// pairs.
pub proof fn lemma_collided_rows_only_collide(w: WorldView, ids: Seq<EntityId>, rows: int)
    ensures
        only_collided(w, collided_rows(w, ids, rows)),
        collided_rows(w, ids, rows).hit_counts == w.hit_counts,
    decreases rows,
{
    if rows > 0 {
        let before = collided_rows(w, ids, rows - 1);
        lemma_collided_rows_only_collide(w, ids, rows - 1);
        lemma_collided_row_only_collides(before, ids, rows - 1, ids.len() as int);
        lemma_only_collided_chains(
            w,
            before,
            collided_row(before, ids, rows - 1, ids.len() as int),
        );
    }
}

/// Telling the hit counters of entities what the pass has seen replaces hit
/// counters and nothing else. The counter of each of the entities ends as
/// being told once makes it, and every other counter stays as it is.
pub proof fn lemma_settled_all_counts(
    w: WorldView,
    ids: Seq<EntityId>,
    marks: MarksView,
    id: EntityId,
)
    ensures
        only_collided(w, settled_all(w, ids, marks)),
        settled_all(w, ids, marks) == (WorldView {
            hit_counts: settled_all(w, ids, marks).hit_counts,
            ..w
        }),
        settled_all(w, ids, marks).hit_counts.get(id) == if ids.contains(id) {
            settled(w, id, marks).hit_counts.get(id)
        } else {
            w.hit_counts.get(id)
        },
    decreases ids.len(),
{
    if ids.len() > 0 {
        let front = ids.drop_last();
        let it = ids.last();
        let before = settled_all(w, front, marks);
        let after = settled(before, it, marks);
        lemma_settled_all_counts(w, front, marks, id);
        lemma_settled_all_counts(w, front, marks, it);
        assert(ids[ids.len() - 1] == it);
        if front.contains(id) {
            let k = choose|k: int| 0 <= k < front.len() && front[k] == id;
            assert(ids[k] == id);
        }
        if ids.contains(id) && id != it {
            let k = choose|k: int| 0 <= k < ids.len() && ids[k] == id;
            assert(front[k] == id);
        }
        assert(after.hit_counts.dom() =~= before.hit_counts.dom());
        assert(only_collided(before, after));
        lemma_only_collided_chains(w, before, after);
    }
}

/// A pass marks none but the entities that it pairs.
pub proof fn lemma_marked_row_of_ids(
    w: WorldView,
    marks: MarksView,
    ids: Seq<EntityId>,
    i: int,
    upto: int,
    id: EntityId,
)
    requires
        0 <= i,
        upto <= ids.len(),
        marks.met.contains(id) || marks.touched.contains(id) ==> ids.contains(id),
    ensures
        ({
            let after = marked_row(w, marks, ids, i, upto);
            after.met.contains(id) || after.touched.contains(id) ==> ids.contains(id)
        }),
    decreases upto - i,
{
    if upto > i + 1 {
        lemma_marked_row_of_ids(w, marks, ids, i, upto - 1, id);
        assert(ids.contains(ids[i]));
        assert(ids.contains(ids[upto - 1]));
    }
}

/// A pass marks none but the entities that it pairs.
pub proof fn lemma_marked_rows_of_ids(w: WorldView, ids: Seq<EntityId>, rows: int, id: EntityId)
    requires
        rows <= ids.len(),
    ensures
        ({
            let after = marked_rows(w, ids, rows);
            after.met.contains(id) || after.touched.contains(id) ==> ids.contains(id)
        }),
    decreases rows,
{
    if rows > 0 {
        lemma_marked_rows_of_ids(w, ids, rows - 1, id);
        lemma_marked_row_of_ids(
            collided_rows(w, ids, rows - 1),
            marked_rows(w, ids, rows - 1),
            ids,
            rows - 1,
            ids.len() as int,
            id,
        );
    }
}

/// What a pass has marked stays marked, whatever pairs it looks at after.
pub proof fn lemma_marked_row_keeps(
    w: WorldView,
    marks: MarksView,
    ids: Seq<EntityId>,
    i: int,
    upto: int,
    id: EntityId,
)
    ensures
        marks.met.contains(id) ==> marked_row(w, marks, ids, i, upto).met.contains(id),
        marks.touched.contains(id) ==> marked_row(w, marks, ids, i, upto).touched.contains(id),
    decreases upto - i,
{
    if upto > i + 1 {
        lemma_marked_row_keeps(w, marks, ids, i, upto - 1, id);
    }
}

/// What a row of pairs has marked stays marked as the row goes on.
pub proof fn lemma_marked_row_grows(
    w: WorldView,
    marks: MarksView,
    ids: Seq<EntityId>,
    i: int,
    upto: int,
    later: int,
    id: EntityId,
)
    requires
        upto <= later,
    ensures
        marked_row(w, marks, ids, i, upto).met.contains(id) ==> marked_row(
            w,
            marks,
            ids,
            i,
            later,
        ).met.contains(id),
        marked_row(w, marks, ids, i, upto).touched.contains(id) ==> marked_row(
            w,
            marks,
            ids,
            i,
            later,
        ).touched.contains(id),
    decreases later - upto,
{
    if upto < later {
        lemma_marked_row_grows(w, marks, ids, i, upto, later - 1, id);
    }
}

/// What rows of pairs have marked stays marked as more rows follow.
pub proof fn lemma_marked_rows_grow(
    w: WorldView,
    ids: Seq<EntityId>,
    rows: int,
    later: int,
    id: EntityId,
)
    requires
        rows <= later,
    ensures
        marked_rows(w, ids, rows).met.contains(id) ==> marked_rows(w, ids, later).met.contains(
            id,
        ),
        marked_rows(w, ids, rows).touched.contains(id) ==> marked_rows(
            w,
            ids,
            later,
        ).touched.contains(id),
    decreases later - rows,
{
    if rows < later {
        lemma_marked_rows_grow(w, ids, rows, later - 1, id);
        if later > 0 {
            lemma_marked_row_keeps(
                collided_rows(w, ids, later - 1),
                marked_rows(w, ids, later - 1),
                ids,
                later - 1,
                ids.len() as int,
                id,
            );
        }
    }
}

/// The world in which a pass over `ids` looks at the pair of `ids[i]` and
/// `ids[j]`: all pairs before it have been looked at.
pub open spec fn pair_world(w: WorldView, ids: Seq<EntityId>, i: int, j: int) -> WorldView {
    collided_row(collided_rows(w, ids, i), ids, i, j)
}

/// A circle and a rectangle that are in contact when the pass looks at them
/// are both marked as touched at the end of the pass, whatever else the pass
/// looks at; and a circle and a rectangle that the pass looks at are both
/// marked as met.
pub proof fn lemma_pair_is_marked(w: WorldView, ids: Seq<EntityId>, i: int, j: int)
    requires
        0 <= i < j < ids.len(),
        meeting(pair_world(w, ids, i, j), ids[i], ids[j]) is Some,
    ensures
        ({
            let marks = marked_rows(w, ids, ids.len() as int);
            let seen = pair_world(w, ids, i, j);
            let pair = meeting(seen, ids[i], ids[j])->0;
            &&& marks.met.contains(ids[i])
            &&& marks.met.contains(ids[j])
            &&& touching(seen, pair) ==> marks.touched.contains(ids[i]) && marks.touched.contains(
                ids[j],
            )
        }),
{
    let start = collided_rows(w, ids, i);
    let so_far = marked_rows(w, ids, i);
    let seen = pair_world(w, ids, i, j);
    let pair = meeting(seen, ids[i], ids[j])->0;
    let noted_here = marked_row(start, so_far, ids, i, j + 1);
    assert(noted_here == marked(seen, marked_row(start, so_far, ids, i, j), ids[i], ids[j]));
    assert(noted_here.met.contains(ids[i]) && noted_here.met.contains(ids[j]));
    lemma_marked_row_grows(start, so_far, ids, i, j + 1, ids.len() as int, ids[i]);
    lemma_marked_row_grows(start, so_far, ids, i, j + 1, ids.len() as int, ids[j]);
    assert(marked_rows(w, ids, i + 1) == marked_row(start, so_far, ids, i, ids.len() as int));
    lemma_marked_rows_grow(w, ids, i + 1, ids.len() as int, ids[i]);
    lemma_marked_rows_grow(w, ids, i + 1, ids.len() as int, ids[j]);
}

/// Whether a pass over `ids` looks at `ids[i]` and `ids[j]` as a pair of a
/// circle and a rectangle, and `id` is one of the two.
pub open spec fn pair_meets(
    w: WorldView,
    ids: Seq<EntityId>,
    i: int,
    j: int,
    id: EntityId,
) -> bool {
    &&& 0 <= i < j < ids.len()
    &&& ids[i] == id || ids[j] == id
    &&& meeting(pair_world(w, ids, i, j), ids[i], ids[j]) is Some
}

/// Whether a pass over `ids` finds `ids[i]` and `ids[j]` in contact as a pair
/// of a circle and a rectangle, and `id` is one of the two.
pub open spec fn pair_touches(
    w: WorldView,
    ids: Seq<EntityId>,
    i: int,
    j: int,
    id: EntityId,
) -> bool {
    &&& pair_meets(w, ids, i, j, id)
    &&& touching(pair_world(w, ids, i, j), meeting(pair_world(w, ids, i, j), ids[i], ids[j])->0)
}

/// Whether `id` is part of any pair of a circle and a rectangle that a pass
/// over `ids` looks at.
pub open spec fn meets_any(w: WorldView, ids: Seq<EntityId>, id: EntityId) -> bool {
    exists|i: int, j: int| #[trigger] pair_meets(w, ids, i, j, id)
}

/// Whether `id` is in contact in any pair of a circle and a rectangle that a
/// pass over `ids` looks at.
pub open spec fn touches_any(w: WorldView, ids: Seq<EntityId>, id: EntityId) -> bool {
    exists|i: int, j: int| #[trigger] pair_touches(w, ids, i, j, id)
}

/// What a row of pairs has marked beyond the rows before it comes from a
/// pair of the row.
proof fn lemma_marked_row_from_pairs(
    w: WorldView,
    ids: Seq<EntityId>,
    i: int,
    upto: int,
    id: EntityId,
)
    requires
        0 <= i,
        upto <= ids.len(),
    ensures
        ({
            let before = marked_rows(w, ids, i);
            let after = marked_row(collided_rows(w, ids, i), before, ids, i, upto);
            &&& after.met.contains(id) ==> before.met.contains(id) || meets_any(w, ids, id)
            &&& after.touched.contains(id) ==> before.touched.contains(id) || touches_any(
                w,
                ids,
                id,
            )
        }),
    decreases upto - i,
{
    if upto > i + 1 {
        let j = upto - 1;
        let start = collided_rows(w, ids, i);
        let before = marked_rows(w, ids, i);
        let so_far = marked_row(start, before, ids, i, j);
        let after = marked_row(start, before, ids, i, upto);
        let seen = pair_world(w, ids, i, j);
        lemma_marked_row_from_pairs(w, ids, i, j, id);
        assert(after == marked(seen, so_far, ids[i], ids[j]));
        if after.met.contains(id) && !so_far.met.contains(id) {
            assert(pair_meets(w, ids, i, j, id));
        }
        if after.touched.contains(id) && !so_far.touched.contains(id) {
            assert(pair_touches(w, ids, i, j, id));
        }
    }
}

/// What rows of pairs have marked comes from a pair of theirs.
proof fn lemma_marked_rows_from_pairs(w: WorldView, ids: Seq<EntityId>, rows: int, id: EntityId)
    requires
        rows <= ids.len(),
    ensures
        marked_rows(w, ids, rows).met.contains(id) ==> meets_any(w, ids, id),
        marked_rows(w, ids, rows).touched.contains(id) ==> touches_any(w, ids, id),
    decreases rows,
{
    if rows > 0 {
        lemma_marked_rows_from_pairs(w, ids, rows - 1, id);
        lemma_marked_row_from_pairs(w, ids, rows - 1, ids.len() as int, id);
    }
}

/// What a pass over `ids` tells the hit counter of `id`: of a contact exactly
/// if `id` is in contact in any pair of a circle and a rectangle that the
/// pass looks at, of being apart exactly if `id` is part of such pairs and
/// in contact in none, and nothing exactly if `id` is part of no such pair.
pub proof fn lemma_marks_are_of_pairs(w: WorldView, ids: Seq<EntityId>, id: EntityId)
    ensures
        marked_rows(w, ids, ids.len() as int).contact(id) == if touches_any(w, ids, id) {
            Some(true)
        } else if meets_any(w, ids, id) {
            Some(false)
        } else {
            None
        },
{
    lemma_marked_rows_from_pairs(w, ids, ids.len() as int, id);
    if touches_any(w, ids, id) {
        let (i, j) = choose|i: int, j: int| #[trigger] pair_touches(w, ids, i, j, id);
        lemma_pair_is_marked(w, ids, i, j);
    }
    if meets_any(w, ids, id) {
        let (i, j) = choose|i: int, j: int| #[trigger] pair_meets(w, ids, i, j, id);
        lemma_pair_is_marked(w, ids, i, j);
    }
}

/// The collision system's pass leaves the population as it is: the ghosts and
/// lines that it asks for wait. It replaces hit counters, positions and
/// velocities and nothing else, and no hit counter counts less after it than
/// before.
pub proof fn lemma_collision_pass_only_asks(w: WorldView, event: Event)
    ensures
        only_collided(w, collision_pass(w, event)),
{
    let ids = w.matching(CollisionSystem::spec_aspect());
    let crashed = collided_rows(w, ids, ids.len() as int);
    let marks = marked_rows(w, ids, ids.len() as int);
    lemma_collided_rows_only_collide(w, ids, ids.len() as int);
    lemma_settled_all_counts(crashed, ids, marks, 0);
    lemma_only_collided_chains(w, crashed, settled_all(crashed, ids, marks));
}

/// What the collision system's pass does to a hit counter. The counter of an
/// entity that was in contact in any pair of a circle and a rectangle that
/// the pass looked at is struck. The counter of an entity that was part of
/// such pairs and in contact in none is parted. Every other counter stays as
/// it is: what happens between others ends no contact.
pub proof fn lemma_collision_pass_counts(w: WorldView, event: Event, id: EntityId)
    requires
        w.hit_counts.contains_key(id),
    ensures
        collision_pass(w, event).hit_counts.contains_key(id),
        collision_pass(w, event).hit_counts[id] == w.hit_counts[id].told(
            collision_marks(w, event).contact(id),
        ),
{
    if event is Update {
        let ids = w.matching(CollisionSystem::spec_aspect());
        let crashed = collided_rows(w, ids, ids.len() as int);
        let marks = marked_rows(w, ids, ids.len() as int);
        lemma_collided_rows_only_collide(w, ids, ids.len() as int);
        lemma_settled_all_counts(crashed, ids, marks, id);
        lemma_marked_rows_of_ids(w, ids, ids.len() as int, id);
    }
}

} // verus!
