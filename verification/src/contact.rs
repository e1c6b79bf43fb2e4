//! The geometry of a circle that meets an axis-aligned rectangle: the point of
//! the rectangle's boundary that is closest to the circle's center, whether
//! the circle reaches it, and how far the circle is pushed back.

use crate::components::Position;
use crate::fixed::{floor_sqrt, isqrt, lemma_floor_sqrt_bounds, product, quotient, ONE};
use crate::playfield::DISP_FUDGE;
use crate::vector::{vec2_add, vec2_scale, vec2_sub};
use vstd::prelude::*;

verus! {

/// The point of the boundary of a rectangle that is closest to `circle`. The
/// rectangle has its center at `square` and reaches `half_w` to either side
/// and `half_h` up and down. From outside this is the circle's center with
/// each coordinate brought into the rectangle's range. From inside, or from
/// the boundary, it is the center moved onto the nearest side; among equally
/// near sides the left one comes first, then the right, the upper and the
/// lower one.
pub open spec fn closest_boundary_point(
    circle: Position,
    square: Position,
    half_w: i64,
    half_h: i64,
) -> (int, int) {
    let left = square.x - half_w;
    let right = square.x + half_w;
    let upper = square.y - half_h;
    let lower = square.y + half_h;
    let x = if circle.x > right {
        right
    } else if circle.x < left {
        left
    } else {
        circle.x as int
    };
    let y = if circle.y > lower {
        lower
    } else if circle.y < upper {
        upper
    } else {
        circle.y as int
    };
    if x != circle.x || y != circle.y {
        (x, y)
    } else {
        let to_left = circle.x - left;
        let to_right = right - circle.x;
        let to_upper = circle.y - upper;
        let to_lower = lower - circle.y;
        if to_left <= to_right && to_left <= to_upper && to_left <= to_lower {
            (left, y)
        } else if to_right <= to_upper && to_right <= to_lower {
            (right, y)
        } else if to_upper <= to_lower {
            (x, upper)
        } else {
            (x, lower)
        }
    }
}

/// Whether a circle around `circle` with the given radius reaches beyond
/// `point`: the distance between the two is less than the radius.
pub open spec fn touches(circle: Position, radius: i64, point: (int, int)) -> bool {
    let dx = point.0 - circle.x;
    let dy = point.1 - circle.y;
    radius * radius > dx * dx + dy * dy
}

/// The vector of length `ONE` along `d`, and the zero vector where `d` is the
/// zero vector.
pub open spec fn unit(d: (int, int)) -> (int, int) {
    let length = floor_sqrt((d.0 * d.0 + d.1 * d.1) as nat) as int;
    if length == 0 {
        (0, 0)
    } else {
        (quotient(d.0 * ONE, length), quotient(d.1 * ONE, length))
    }
}

/// How far a circle that reaches beyond `point` is pushed: away from `point`,
/// by `DISP_FUDGE` times what the radius exceeds the distance by.
pub open spec fn displacement(circle: Position, radius: i64, point: (int, int)) -> (int, int) {
    let along = unit((point.0 - circle.x, point.1 - circle.y));
    let rim = (
        circle.x + product(along.0, radius as int),
        circle.y + product(along.1, radius as int),
    );
    (product(point.0 - rim.0, DISP_FUDGE as int), product(point.1 - rim.1, DISP_FUDGE as int))
}

/// What a circle and a rectangle do to each other: nothing where the circle
/// does not reach the rectangle's boundary, else the displacement of the
/// circle.
pub open spec fn contact_of(
    circle: Position,
    radius: i64,
    square: Position,
    half_w: i64,
    half_h: i64,
) -> Option<(int, int)> {
    let point = closest_boundary_point(circle, square, half_w, half_h);
    if touches(circle, radius, point) {
        Some(displacement(circle, radius, point))
    } else {
        None
    }
}

/// Of two numbers that are not negative, the larger has the larger square.
proof fn lemma_square_order(a: int, b: int)
    by (nonlinear_arith)
    requires
        0 <= a <= b,
    ensures
        a * a <= b * b,
{
}

/// A number and its opposite have the same square, which is not negative.
proof fn lemma_square_of_opposite(a: int)
    by (nonlinear_arith)
    ensures
        (-a) * (-a) == a * a,
        a * a >= 0,
{
}

/// The product of two bounded numbers is bounded by the product of the
/// bounds.
proof fn lemma_product_bound(a: int, b: int, bound_a: int, bound_b: int)
    by (nonlinear_arith)
    requires
        -bound_a <= a <= bound_a,
        -bound_b <= b <= bound_b,
    ensures
        -(bound_a * bound_b) <= a * b <= bound_a * bound_b,
{
}

/// A number within `bound` times a divisor has its quotient by that divisor
/// within `bound`.
proof fn lemma_quotient_bound(a: int, b: int, bound: int)
    by (nonlinear_arith)
    requires
        b > 0,
        bound >= 0,
        -(bound * b) <= a <= bound * b,
    ensures
        -bound <= quotient(a, b) <= bound,
{
}

/// The closest point of the rectangle's boundary, see
/// [`closest_boundary_point`].
pub fn nearest_boundary_point(
    circle: Position,
    square: Position,
    half_w: i64,
    half_h: i64,
) -> (point: [i128; 2])
    ensures
        (point[0] as int, point[1] as int) == closest_boundary_point(
            circle,
            square,
            half_w,
            half_h,
        ),
        -0x1_0000_0000_0000_0000 <= point[0] <= 0x1_0000_0000_0000_0000,
        -0x1_0000_0000_0000_0000 <= point[1] <= 0x1_0000_0000_0000_0000,
{
    let center: [i128; 2] = [square.x as i128, square.y as i128];
    let reach: [i128; 2] = [half_w as i128, half_h as i128];
    let low = vec2_sub(center, reach);
    let high = vec2_add(center, reach);
    let cx: i128 = circle.x as i128;
    let cy: i128 = circle.y as i128;
    let x: i128 = if cx > high[0] {
        high[0]
    } else if cx < low[0] {
        low[0]
    } else {
        cx
    };
    let y: i128 = if cy > high[1] {
        high[1]
    } else if cy < low[1] {
        low[1]
    } else {
        cy
    };
    if x != cx || y != cy {
        [x, y]
    } else {
        let to_left: i128 = cx - low[0];
        let to_right: i128 = high[0] - cx;
        let to_upper: i128 = cy - low[1];
        let to_lower: i128 = high[1] - cy;
        if to_left <= to_right && to_left <= to_upper && to_left <= to_lower {
            [low[0], y]
        } else if to_right <= to_upper && to_right <= to_lower {
            [high[0], y]
        } else if to_upper <= to_lower {
            [x, low[1]]
        } else {
            [x, high[1]]
        }
    }
}

/// Divides both components of a doubly scaled vector by `ONE`.
fn rescaled(v: [i128; 2]) -> (r: [i128; 2])
    ensures
        r[0] == quotient(v[0] as int, ONE as int),
        r[1] == quotient(v[1] as int, ONE as int),
{
    [v[0] / (ONE as i128), v[1] / (ONE as i128)]
}

/// Decides whether a circle touches a rectangle and, if it does, computes how
/// far the circle is pushed back, see [`contact_of`].
pub fn contact(
    circle: Position,
    radius: i64,
    square: Position,
    half_w: i64,
    half_h: i64,
) -> (pushed: Option<[i128; 2]>)
    ensures
        match pushed {
            Some(d) => contact_of(circle, radius, square, half_w, half_h) == Some(
                (d[0] as int, d[1] as int),
            ),
            None => contact_of(circle, radius, square, half_w, half_h) is None,
        },
        pushed matches Some(d) ==> -0x100_0000_0000_0000_0000 <= d[0] <= 0x100_0000_0000_0000_0000
            && -0x100_0000_0000_0000_0000 <= d[1] <= 0x100_0000_0000_0000_0000,
{
    let point = nearest_boundary_point(circle, square, half_w, half_h);
    let center: [i128; 2] = [circle.x as i128, circle.y as i128];
    let d = vec2_sub(point, center);
    let reach: i128 = if radius < 0 {
        -(radius as i128)
    } else {
        radius as i128
    };
    let dx: i128 = if d[0] < 0 {
        -d[0]
    } else {
        d[0]
    };
    let dy: i128 = if d[1] < 0 {
        -d[1]
    } else {
        d[1]
    };
    proof {
        lemma_square_of_opposite(radius as int);
        lemma_square_of_opposite(d[0] as int);
        lemma_square_of_opposite(d[1] as int);
        assert(reach * reach == radius * radius);
        assert(dx * dx == d[0] * d[0]);
        assert(dy * dy == d[1] * d[1]);
    }
    if dx >= reach || dy >= reach {
        proof {
            if dx >= reach {
                lemma_square_order(reach as int, dx as int);
            } else {
                lemma_square_order(reach as int, dy as int);
            }
        }
        return None;
    }
    proof {
        lemma_square_order(dx as int, reach - 1);
        lemma_square_order(dy as int, reach - 1);
        lemma_square_order(reach - 1, 0x7fff_ffff_ffff_ffff);
        lemma_square_order(reach as int, 0x8000_0000_0000_0000);
        assert(0x7fff_ffff_ffff_ffff * 0x7fff_ffff_ffff_ffff
            == 0x3fff_ffff_ffff_ffff_0000_0000_0000_0001);
        assert(0x8000_0000_0000_0000 * 0x8000_0000_0000_0000
            == 0x4000_0000_0000_0000_0000_0000_0000_0000);
    }
    let distance_squared: u128 = (dx * dx + dy * dy) as u128;
    let reach_squared: u128 = (reach * reach) as u128;
    if reach_squared <= distance_squared {
        return None;
    }
    let length: u128 = isqrt(distance_squared);
    proof {
        lemma_floor_sqrt_bounds(distance_squared as nat);
        // The length is no shorter than either component.
        if length < dx {
            lemma_square_order(length + 1, dx as int);
        }
        if length < dy {
            lemma_square_order(length + 1, dy as int);
        }
        // The length is shorter than the radius.
        if length >= reach {
            lemma_square_order(reach as int, length as int);
        }
    }
    let along: [i128; 2] = if length == 0 {
        [0, 0]
    } else {
        proof {
            lemma_product_bound(d[0] as int, ONE as int, dx as int, ONE as int);
            lemma_product_bound(d[1] as int, ONE as int, dy as int, ONE as int);
            lemma_product_bound(dx as int, ONE as int, 0x8000_0000_0000_0000, ONE as int);
            lemma_product_bound(dy as int, ONE as int, 0x8000_0000_0000_0000, ONE as int);
        }
        let stretched = vec2_scale(d, ONE as i128);
        proof {
            assert(dx * ONE <= length * ONE) by (nonlinear_arith)
                requires
                    dx <= length,
            ;
            assert(dy * ONE <= length * ONE) by (nonlinear_arith)
                requires
                    dy <= length,
            ;
            assert(ONE * length == length * ONE) by (nonlinear_arith);
            lemma_quotient_bound(stretched[0] as int, length as int, ONE as int);
            lemma_quotient_bound(stretched[1] as int, length as int, ONE as int);
        }
        [stretched[0] / (length as i128), stretched[1] / (length as i128)]
    };
    proof {
        lemma_product_bound(along[0] as int, radius as int, ONE as int, 0x8000_0000_0000_0000);
        lemma_product_bound(along[1] as int, radius as int, ONE as int, 0x8000_0000_0000_0000);
    }
    let aligned = rescaled(vec2_scale(along, radius as i128));
    proof {
        assert(ONE * 0x8000_0000_0000_0000 == 0x8000_0000_0000_0000 * ONE) by (nonlinear_arith);
        lemma_quotient_bound(
            along[0] * radius,
            ONE as int,
            0x8000_0000_0000_0000,
        );
        lemma_quotient_bound(
            along[1] * radius,
            ONE as int,
            0x8000_0000_0000_0000,
        );
    }
    let rim = vec2_add(center, aligned);
    let gap = vec2_sub(point, rim);
    proof {
        lemma_product_bound(
            gap[0] as int,
            DISP_FUDGE as int,
            0x2_0000_0000_0000_0000,
            DISP_FUDGE as int,
        );
        lemma_product_bound(
            gap[1] as int,
            DISP_FUDGE as int,
            0x2_0000_0000_0000_0000,
            DISP_FUDGE as int,
        );
    }
    let wide = vec2_scale(gap, DISP_FUDGE as i128);
    let pushed = rescaled(wide);
    proof {
        assert(0x100_0000_0000_0000_0000 * ONE >= 0x2_0000_0000_0000_0000 * DISP_FUDGE);
        lemma_quotient_bound(wide[0] as int, ONE as int, 0x100_0000_0000_0000_0000);
        lemma_quotient_bound(wide[1] as int, ONE as int, 0x100_0000_0000_0000_0000);
    }
    Some(pushed)
}

/// Whether two circles overlap: the distance between their centers is less
/// than the sum of their radii.
pub open spec fn circles_overlap(a: Position, radius_a: i64, b: Position, radius_b: i64) -> bool {
    (radius_a + radius_b) * (radius_a + radius_b) > (a.x - b.x) * (a.x - b.x) + (a.y - b.y) * (a.y
        - b.y)
}

/// Decides whether two circles overlap, see [`circles_overlap`].
pub fn overlap(a: Position, radius_a: i64, b: Position, radius_b: i64) -> (overlapping: bool)
    ensures
        overlapping == circles_overlap(a, radius_a, b, radius_b),
{
    let sum: i128 = radius_a as i128 + radius_b as i128;
    let reach: i128 = if sum < 0 {
        -sum
    } else {
        sum
    };
    let across: i128 = a.x as i128 - b.x as i128;
    let down: i128 = a.y as i128 - b.y as i128;
    let dx: i128 = if across < 0 {
        -across
    } else {
        across
    };
    let dy: i128 = if down < 0 {
        -down
    } else {
        down
    };
    proof {
        lemma_square_of_opposite(sum as int);
        lemma_square_of_opposite(across as int);
        lemma_square_of_opposite(down as int);
        assert(reach * reach == sum * sum);
        assert(dx * dx == across * across);
        assert(dy * dy == down * down);
    }
    if dx >= reach || dy >= reach {
        proof {
            if dx >= reach {
                lemma_square_order(reach as int, dx as int);
            } else {
                lemma_square_order(reach as int, dy as int);
            }
        }
        return false;
    }
    // The radii reach beyond the centers' distance exactly if the product of
    // `reach - dx` and `reach + dx` exceeds the square of `dy`.
    proof {
        lemma_square_order(dy as int, 0xffff_ffff_ffff_ffff);
        assert(0xffff_ffff_ffff_ffff * 0xffff_ffff_ffff_ffff
            == 0xffff_ffff_ffff_fffe_0000_0000_0000_0001);
    }
    let dy_squared: u128 = (dy as u128) * (dy as u128);
    let short: u128 = (reach - dx) as u128;
    let long: u128 = (reach + dx) as u128;
    proof {
        lemma_exceeds_by_quotient(short as int, long as int, dy_squared as int);
        assert(short * long == reach * reach - dx * dx) by (nonlinear_arith)
            requires
                short == reach - dx,
                long == reach + dx,
        ;
    }
    long > dy_squared / short
}

/// A product exceeds a number exactly if one factor exceeds the number's
/// quotient by the other.
proof fn lemma_exceeds_by_quotient(m: int, n: int, q: int)
    by (nonlinear_arith)
    requires
        m > 0,
        n >= 0,
        q >= 0,
    ensures
        m * n > q <==> n > q / m,
{
}

} // verus!
