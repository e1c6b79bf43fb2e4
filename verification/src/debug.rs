//! Short-lived entities that make the simulation visible: ghosts of an entity
//! as it was, and line segments. Both fade away by themselves.

use crate::components::{Color, Fade, Position, Shape, ShapeVariant};
use crate::fixed::mean;
use crate::store::{Blueprint, EntityId, World, WorldView};
use vstd::prelude::*;

verus! {

/// How fast a ghost fades.
pub const GHOST_FADE: i64 = 10_000;

/// The color of a line segment: an opaque green.
pub open spec fn line_color() -> Color {
    Color { red: 0, green: 800_000, blue: 0, alpha: 1_000_000 }
}

/// What a ghost of `entity` is made of: the color, the shape and the position
/// that `entity` has, as far as it has them, and a slow fade.
pub open spec fn ghost_blueprint(w: WorldView, entity: EntityId) -> Blueprint {
    Blueprint {
        color: w.colors.get(entity),
        shape: w.shapes.get(entity),
        position: w.positions.get(entity),
        fade: Some(Fade(GHOST_FADE)),
        ..Blueprint::empty()
    }
}

/// What a line segment is made of: the segment as its shape, the middle of
/// the segment as its position, the line color, and a fade at `speed`.
pub open spec fn line_blueprint(x1: i64, y1: i64, x2: i64, y2: i64, speed: i64) -> Blueprint {
    Blueprint {
        position: Some(Position { x: mean(x1, x2), y: mean(y1, y2) }),
        shape: Some(Shape { variant: ShapeVariant::Line(x1, y1, x2, y2), border: None }),
        color: Some(line_color()),
        fade: Some(Fade(speed)),
        ..Blueprint::empty()
    }
}

/// Asks for a ghost of `entity`, see [`ghost_blueprint`]. The ghost comes to
/// life at the next flush.
pub fn ghost(world: &mut World, entity: EntityId) -> (id: Option<EntityId>)
    requires
        old(world).wf(),
    ensures
        id == old(world)@.next_id(),
        final(world)@ == old(world)@.create(ghost_blueprint(old(world)@, entity)),
        final(world).wf(),
{
    let mut blueprint = Blueprint::new();
    blueprint.color = world.colors().get(entity);
    blueprint.shape = world.shapes().get(entity);
    blueprint.position = world.positions().get(entity);
    blueprint.fade = Some(Fade(GHOST_FADE));
    world.create(blueprint)
}

/// Asks for a line segment from (`segment[0]`, `segment[1]`) to (`segment[2]`,
/// `segment[3]`) that fades at `speed`, see [`line_blueprint`]. The segment comes
/// to life at the next flush.
pub fn line(world: &mut World, segment: [i64; 4], speed: i64) -> (id: Option<EntityId>)
    requires
        old(world).wf(),
    ensures
        id == old(world)@.next_id(),
        final(world)@ == old(world)@.create(
            line_blueprint(segment[0], segment[1], segment[2], segment[3], speed),
        ),
        final(world).wf(),
{
    let mut blueprint = Blueprint::new();
    blueprint.position = Some(
        Position { x: mean(segment[0], segment[2]), y: mean(segment[1], segment[3]) },
    );
    blueprint.shape = Some(
        Shape {
            variant: ShapeVariant::Line(segment[0], segment[1], segment[2], segment[3]),
            border: None,
        },
    );
    blueprint.color = Some(Color { red: 0, green: 800_000, blue: 0, alpha: 1_000_000 });
    blueprint.fade = Some(Fade(speed));
    world.create(blueprint)
}

} // verus!
