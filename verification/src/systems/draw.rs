//! What there is to draw. The system lists it; putting it on a screen is left
//! to the caller.

use crate::components::{Color, Position, Shape, ShapeVariant};
use crate::event::Event;
use crate::fixed::{minus, plus, ONE};
use crate::playfield::WINDOW_PADDING;
use crate::store::{Aspect, EntityId, World, WorldView};
use vstd::prelude::*;

verus! {

/// Lists what a render tick has to draw.
pub struct DrawSystem;

/// One thing to draw.
#[derive(Clone, Copy, PartialEq, Eq, Structural, Debug)]
pub enum Drawing {
    /// Fill everything with one color.
    Clear(Color),
    /// A filled rectangle with its upper left corner at (`x`, `y`).
    Rectangle { color: Color, x: i64, y: i64, w: i64, h: i64 },
    /// A filled ellipse in the rectangle with its upper left corner at (`x`,
    /// `y`).
    Ellipse { color: Color, x: i64, y: i64, w: i64, h: i64 },
    /// A segment from (`x1`, `y1`) to (`x2`, `y2`).
    Line { color: Color, width: i64, x1: i64, y1: i64, x2: i64, y2: i64 },
}

/// All that one render tick has to draw.
#[derive(Debug)]
pub struct Frame {
    /// The part of the window to draw into: the left and upper edge, the
    /// width and the height.
    pub viewport: (i64, i64, i64, i64),
    /// The drawings, the first of them at the bottom.
    pub drawings: Vec<Drawing>,
}

/// The color behind everything.
pub open spec fn spec_backdrop() -> Color {
    Color { red: 200_000, green: 200_000, blue: 200_000, alpha: 1_000_000 }
}

/// The color behind everything.
#[verifier::when_used_as_spec(spec_backdrop)]
pub fn backdrop() -> (color: Color)
    ensures
        color == spec_backdrop(),
{
    Color { red: 200_000, green: 200_000, blue: 200_000, alpha: 1_000_000 }
}

/// The color of the playfield's rim.
pub open spec fn spec_rim() -> Color {
    Color { red: 0, green: 1_000_000, blue: 0, alpha: 1_000_000 }
}

/// The color of the playfield's rim.
#[verifier::when_used_as_spec(spec_rim)]
pub fn rim() -> (color: Color)
    ensures
        color == spec_rim(),
{
    Color { red: 0, green: 1_000_000, blue: 0, alpha: 1_000_000 }
}

/// The color of the playfield.
pub open spec fn spec_ground() -> Color {
    Color { red: 0, green: 0, blue: 0, alpha: 1_000_000 }
}

/// The color of the playfield.
#[verifier::when_used_as_spec(spec_ground)]
pub fn ground() -> (color: Color)
    ensures
        color == spec_ground(),
{
    Color { red: 0, green: 0, blue: 0, alpha: 1_000_000 }
}

/// The part of a window of the given size that is drawn into: the window
/// without its margins.
pub open spec fn spec_viewport(width: i64, height: i64) -> (i64, i64, i64, i64) {
    (
        WINDOW_PADDING,
        WINDOW_PADDING,
        minus(minus(width, WINDOW_PADDING), WINDOW_PADDING),
        minus(minus(height, WINDOW_PADDING), WINDOW_PADDING),
    )
}

/// The part of a window that is drawn into, see [`spec_viewport`].
#[verifier::when_used_as_spec(spec_viewport)]
pub fn viewport(width: i64, height: i64) -> (view: (i64, i64, i64, i64))
    ensures
        view == spec_viewport(width, height),
{
    (
        WINDOW_PADDING,
        WINDOW_PADDING,
        minus(minus(width, WINDOW_PADDING), WINDOW_PADDING),
        minus(minus(height, WINDOW_PADDING), WINDOW_PADDING),
    )
}

/// How a shape is drawn at a position: a circle as an ellipse around the
/// position that is two radii wide and high, a rectangle around the position
/// with twice its half width and half height, a point as a square of one unit
/// at the position, and a line as a segment that is one unit wide.
pub open spec fn spec_drawing_of(position: Position, shape: Shape, color: Color) -> Drawing {
    match shape.variant {
        ShapeVariant::Circle(radius) => Drawing::Ellipse {
            color,
            x: minus(position.x, radius),
            y: minus(position.y, radius),
            w: plus(radius, radius),
            h: plus(radius, radius),
        },
        ShapeVariant::Square(half_w, half_h) => Drawing::Rectangle {
            color,
            x: minus(position.x, half_w),
            y: minus(position.y, half_h),
            w: plus(half_w, half_w),
            h: plus(half_h, half_h),
        },
        ShapeVariant::Point => Drawing::Rectangle {
            color,
            x: position.x,
            y: position.y,
            w: ONE,
            h: ONE,
        },
        ShapeVariant::Line(x1, y1, x2, y2) => Drawing::Line { color, width: ONE, x1, y1, x2, y2 },
    }
}

/// How a shape is drawn at a position, see [`spec_drawing_of`].
#[verifier::when_used_as_spec(spec_drawing_of)]
pub fn drawing_of(position: Position, shape: Shape, color: Color) -> (drawing: Drawing)
    ensures
        drawing == spec_drawing_of(position, shape, color),
{
    match shape.variant {
        ShapeVariant::Circle(radius) => Drawing::Ellipse {
            color,
            x: minus(position.x, radius),
            y: minus(position.y, radius),
            w: plus(radius, radius),
            h: plus(radius, radius),
        },
        ShapeVariant::Square(half_w, half_h) => Drawing::Rectangle {
            color,
            x: minus(position.x, half_w),
            y: minus(position.y, half_h),
            w: plus(half_w, half_w),
            h: plus(half_h, half_h),
        },
        ShapeVariant::Point => Drawing::Rectangle {
            color,
            x: position.x,
            y: position.y,
            w: ONE,
            h: ONE,
        },
        ShapeVariant::Line(x1, y1, x2, y2) => Drawing::Line { color, width: ONE, x1, y1, x2, y2 },
    }
}

/// What is drawn before any entity, into a viewport of the given width and
/// height: the backdrop, the playfield's rim, and the playfield one unit
/// inside of it.
pub open spec fn background(width: i64, height: i64) -> Seq<Drawing> {
    seq![
        Drawing::Clear(spec_backdrop()),
        Drawing::Rectangle { color: spec_rim(), x: 0, y: 0, w: width, h: height },
        Drawing::Rectangle {
            color: spec_ground(),
            x: ONE,
            y: ONE,
            w: minus(minus(width, ONE), ONE),
            h: minus(minus(height, ONE), ONE),
        },
    ]
}

/// `drawings` and, after them, the drawings of those of `ids` that have a
/// position, a shape and a color, in the order of `ids`.
pub open spec fn drawn(w: WorldView, ids: Seq<EntityId>, drawings: Seq<Drawing>) -> Seq<Drawing>
    decreases ids.len(),
{
    if ids.len() == 0 {
        drawings
    } else {
        let before = drawn(w, ids.drop_last(), drawings);
        let id = ids.last();
        if w.holds(id, DrawSystem::spec_aspect()) {
            before.push(spec_drawing_of(w.positions[id], w.shapes[id], w.colors[id]))
        } else {
            before
        }
    }
}

/// The drawings of a render tick into a window of the given size: the
/// background, then the entities with a position, a shape and a color, in
/// their order.
pub open spec fn scene(w: WorldView, width: i64, height: i64) -> Seq<Drawing> {
    let view = spec_viewport(width, height);
    drawn(w, w.matching(DrawSystem::spec_aspect()), background(view.2, view.3))
}

impl DrawSystem {
    /// What the system works on: entities with a position, a shape and a
    /// color.
    pub open spec fn spec_aspect() -> Aspect {
        Aspect { positions: true, shapes: true, colors: true, ..Aspect::empty() }
    }

    /// What the system works on, see [`DrawSystem::spec_aspect`].
    #[verifier::when_used_as_spec(spec_aspect)]
    pub fn aspect() -> (aspect: Aspect)
        ensures
            aspect == Self::spec_aspect(),
    {
        let mut aspect = Aspect::new();
        aspect.positions = true;
        aspect.shapes = true;
        aspect.colors = true;
        aspect
    }

    /// Lists what a render event has to draw, see [`scene`]. Any other event
    /// has nothing drawn.
    pub fn process(&mut self, event: Event, world: &World) -> (frame: Option<Frame>)
        ensures
            match event {
                Event::Render { width, height } => frame matches Some(f) && f.viewport
                    == spec_viewport(width, height) && f.drawings@ == scene(world@, width, height),
                _ => frame is None,
            },
    {
        let (width, height) = match event.render_args() {
            Some(size) => size,
            None => { return None; },
        };
        let view = viewport(width, height);
        let mut drawings: Vec<Drawing> = Vec::new();
        drawings.push(Drawing::Clear(backdrop()));
        drawings.push(Drawing::Rectangle { color: rim(), x: 0, y: 0, w: view.2, h: view.3 });
        drawings.push(
            Drawing::Rectangle {
                color: ground(),
                x: ONE,
                y: ONE,
                w: minus(minus(view.2, ONE), ONE),
                h: minus(minus(view.3, ONE), ONE),
            },
        );
        assert(drawings@ == background(view.2, view.3));
        let ids = world.matching(Self::aspect());
        let mut i: usize = 0;
        while i < ids.len()
            invariant
                i <= ids@.len(),
                drawings@ == drawn(world@, ids@.take(i as int), background(view.2, view.3)),
            decreases ids@.len() - i,
        {
            proof {
                assert(ids@.take(i + 1).drop_last() == ids@.take(i as int));
            }
            let id = ids[i];
            match (world.positions().get(id), world.shapes().get(id), world.colors().get(id)) {
                (Some(position), Some(shape), Some(color)) => {
                    drawings.push(drawing_of(position, shape, color));
                },
                _ => {},
            }
            i += 1;
        }
        proof {
            assert(ids@.take(i as int) == ids@);
        }
        Some(Frame { viewport: view, drawings })
    }
}

} // verus!
