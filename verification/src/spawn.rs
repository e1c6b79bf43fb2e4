//! The cast of the game: one ball and two paddles.

use crate::components::{
    ClampVariant, Color, HitCount, Key, PlayerController, Position, Shape, ShapeVariant, Shimmer,
    Velocity, WindowClamp,
};
use crate::fixed::{minus, plus};
use crate::playfield::VIEW_W;
use crate::random::random_between;
use crate::store::{Blueprint, EntityId, World};
use vstd::prelude::*;

verus! {

/// The key W, which sends the left paddle up.
pub const KEY_W: Key = 0x77;

/// The key S, which sends the left paddle down.
pub const KEY_S: Key = 0x73;

/// The key I, which sends the right paddle up.
pub const KEY_I: Key = 0x69;

/// The key K, which sends the right paddle down.
pub const KEY_K: Key = 0x6B;

/// The radius of the ball.
pub const BALL_R: i64 = 10_000_000;

/// How far from the middle of the playfield the ball can start, on each axis.
pub const BALL_SCATTER: i64 = 100_000_000;

/// The least speed of the ball at its start, on each axis.
pub const BALL_SLOW: i64 = 400_000_000;

/// The bound below which the speed of the ball at its start stays, on each
/// axis.
pub const BALL_FAST: i64 = 500_000_000;

/// The middle of the playfield, across.
pub const MIDDLE_X: i64 = 360_000_000;

/// The middle of the playfield, down.
pub const MIDDLE_Y: i64 = 260_000_000;

/// How far a paddle is from its wall.
pub const FROM_WALL: i64 = 20_000_000;

/// Half the width of a paddle.
pub const PADDLE_W: i64 = 10_000_000;

/// Half the height of a paddle.
pub const PADDLE_H: i64 = 60_000_000;

/// What the ball is made of, given how far from the middle it starts and how
/// fast: an orange circle that shimmers and bounces off the edges.
pub open spec fn ball_blueprint(xoff: i64, yoff: i64, vx: i64, vy: i64) -> Blueprint {
    Blueprint {
        position: Some(Position { x: plus(MIDDLE_X, xoff), y: plus(MIDDLE_Y, yoff) }),
        velocity: Some(Velocity { x: vx, y: vy }),
        shimmer: Some(Shimmer),
        shape: Some(Shape { variant: ShapeVariant::Circle(BALL_R), border: None }),
        color: Some(Color { red: 1_000_000, green: 500_000, blue: 200_000, alpha: 1_000_000 }),
        clamp: Some(WindowClamp { variant: ClampVariant::Bounce }),
        ..Blueprint::empty()
    }
}

/// Whether a ball can start this far from the middle and this fast.
pub open spec fn ball_start(xoff: i64, yoff: i64, vx: i64, vy: i64) -> bool {
    &&& -BALL_SCATTER <= xoff < BALL_SCATTER
    &&& -BALL_SCATTER <= yoff < BALL_SCATTER
    &&& BALL_SLOW <= vx < BALL_FAST
    &&& BALL_SLOW <= vy < BALL_FAST
}

/// What a paddle is made of: a blue rectangle at half height near its wall,
/// the left one for the first player and the right one for the second, that
/// stands still, stops at the edges, counts hits and listens to its player's
/// two keys.
pub open spec fn player_blueprint(first: bool) -> Blueprint {
    Blueprint {
        position: Some(
            Position {
                x: if first {
                    FROM_WALL
                } else {
                    minus(VIEW_W, FROM_WALL)
                },
                y: MIDDLE_Y,
            },
        ),
        velocity: Some(Velocity { x: 0, y: 0 }),
        shape: Some(Shape { variant: ShapeVariant::Square(PADDLE_W, PADDLE_H), border: None }),
        color: Some(Color { red: 300_000, green: 400_000, blue: 1_000_000, alpha: 1_000_000 }),
        player_controller: Some(
            PlayerController {
                up: if first {
                    KEY_W
                } else {
                    KEY_I
                },
                down: if first {
                    KEY_S
                } else {
                    KEY_K
                },
            },
        ),
        clamp: Some(WindowClamp { variant: ClampVariant::Stop }),
        hit_count: Some(HitCount { recent: false, count: 0 }),
        ..Blueprint::empty()
    }
}

/// The blueprint of a ball that starts this far from the middle and this
/// fast, see [`ball_blueprint`].
pub fn ball(xoff: i64, yoff: i64, vx: i64, vy: i64) -> (blueprint: Blueprint)
    ensures
        blueprint == ball_blueprint(xoff, yoff, vx, vy),
{
    let mut blueprint = Blueprint::new();
    blueprint.position = Some(Position { x: plus(MIDDLE_X, xoff), y: plus(MIDDLE_Y, yoff) });
    blueprint.velocity = Some(Velocity { x: vx, y: vy });
    blueprint.shimmer = Some(Shimmer);
    blueprint.shape = Some(Shape { variant: ShapeVariant::Circle(BALL_R), border: None });
    blueprint.color = Some(
        Color { red: 1_000_000, green: 500_000, blue: 200_000, alpha: 1_000_000 },
    );
    blueprint.clamp = Some(WindowClamp { variant: ClampVariant::Bounce });
    blueprint
}

/// The blueprint of a paddle, see [`player_blueprint`].
pub fn player(first: bool) -> (blueprint: Blueprint)
    ensures
        blueprint == player_blueprint(first),
{
    let mut blueprint = Blueprint::new();
    blueprint.position = Some(
        Position {
            x: if first {
                FROM_WALL
            } else {
                minus(VIEW_W, FROM_WALL)
            },
            y: MIDDLE_Y,
        },
    );
    blueprint.velocity = Some(Velocity { x: 0, y: 0 });
    blueprint.shape = Some(
        Shape { variant: ShapeVariant::Square(PADDLE_W, PADDLE_H), border: None },
    );
    blueprint.color = Some(
        Color { red: 300_000, green: 400_000, blue: 1_000_000, alpha: 1_000_000 },
    );
    blueprint.player_controller = Some(
        PlayerController {
            up: if first {
                KEY_W
            } else {
                KEY_I
            },
            down: if first {
                KEY_S
            } else {
                KEY_K
            },
        },
    );
    blueprint.clamp = Some(WindowClamp { variant: ClampVariant::Stop });
    blueprint.hit_count = Some(HitCount { recent: false, count: 0 });
    blueprint
}

/// Asks for a ball that starts near the middle of the playfield, at a place
/// and with a speed that are drawn at random, see [`ball_start`] and
/// [`ball_blueprint`]. The ball comes to life at the next flush.
pub fn make_ball(world: &mut World) -> (id: Option<EntityId>)
    requires
        old(world).wf(),
    ensures
        id == old(world)@.next_id(),
        exists|xoff: i64, yoff: i64, vx: i64, vy: i64|
            ball_start(xoff, yoff, vx, vy) && final(world)@ == old(world)@.create(
                #[trigger] ball_blueprint(xoff, yoff, vx, vy),
            ),
        final(world).wf(),
{
    let xoff: i64 = random_between(-BALL_SCATTER, BALL_SCATTER);
    let yoff: i64 = random_between(-BALL_SCATTER, BALL_SCATTER);
    let vx: i64 = random_between(BALL_SLOW, BALL_FAST);
    let vy: i64 = random_between(BALL_SLOW, BALL_FAST);
    world.create(ball(xoff, yoff, vx, vy))
}

/// Asks for the paddle of the first player, or of the second, see
/// [`player_blueprint`]. The paddle comes to life at the next flush.
pub fn make_player(world: &mut World, first: bool) -> (id: Option<EntityId>)
    requires
        old(world).wf(),
    ensures
        id == old(world)@.next_id(),
        final(world)@ == old(world)@.create(player_blueprint(first)),
        final(world).wf(),
{
    world.create(player(first))
}

} // verus!
