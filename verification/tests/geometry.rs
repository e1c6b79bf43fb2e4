use pong::components::Position;
use pong::contact::{contact, nearest_boundary_point, overlap};
use pong::fixed::ONE;

fn at(x: i64, y: i64) -> Position {
    Position { x: x * ONE, y: y * ONE }
}

fn units(x: i128, y: i128) -> [i128; 2] {
    [x * ONE as i128, y * ONE as i128]
}

#[test]
fn outside_the_closest_point_is_the_clamped_center() {
    let square = at(100, 100);
    assert_eq!(nearest_boundary_point(at(112, 100), square, 5 * ONE, 40 * ONE), units(105, 100));
    assert_eq!(nearest_boundary_point(at(80, 90), square, 5 * ONE, 40 * ONE), units(95, 90));
    assert_eq!(nearest_boundary_point(at(100, 30), square, 5 * ONE, 40 * ONE), units(100, 60));
    assert_eq!(nearest_boundary_point(at(101, 150), square, 5 * ONE, 40 * ONE), units(101, 140));
    assert_eq!(nearest_boundary_point(at(108, 144), square, 5 * ONE, 40 * ONE), units(105, 140));
    assert_eq!(nearest_boundary_point(at(0, 0), square, 5 * ONE, 40 * ONE), units(95, 60));
}

#[test]
fn inside_the_closest_point_is_on_the_nearest_side() {
    let square = at(100, 100);
    assert_eq!(nearest_boundary_point(at(98, 100), square, 5 * ONE, 40 * ONE), units(95, 100));
    assert_eq!(nearest_boundary_point(at(103, 100), square, 5 * ONE, 40 * ONE), units(105, 100));
    assert_eq!(nearest_boundary_point(at(100, 61), square, 5 * ONE, 40 * ONE), units(100, 60));
    assert_eq!(nearest_boundary_point(at(100, 139), square, 5 * ONE, 40 * ONE), units(100, 140));
}

#[test]
fn among_equally_near_sides_the_left_comes_first() {
    let square = at(100, 100);
    assert_eq!(nearest_boundary_point(at(100, 100), square, 5 * ONE, 40 * ONE), units(95, 100));
    assert_eq!(nearest_boundary_point(at(100, 100), square, 40 * ONE, 5 * ONE), units(100, 95));
    assert_eq!(nearest_boundary_point(at(100, 100), square, 5 * ONE, 5 * ONE), units(95, 100));
}

#[test]
fn on_the_boundary_the_closest_point_is_the_center() {
    let square = at(100, 100);
    assert_eq!(nearest_boundary_point(at(105, 120), square, 5 * ONE, 40 * ONE), units(105, 120));
    assert_eq!(nearest_boundary_point(at(95, 60), square, 5 * ONE, 40 * ONE), units(95, 60));
}

#[test]
fn a_circle_beside_a_rectangle_is_pushed_by_five_times_its_depth() {
    // The circle reaches three units into the right side.
    let pushed = contact(at(112, 100), 10 * ONE, at(100, 100), 5 * ONE, 40 * ONE);
    assert_eq!(pushed, Some(units(15, 0)));
    // And three units into the upper side.
    let pushed = contact(at(100, 53), 10 * ONE, at(100, 100), 5 * ONE, 40 * ONE);
    assert_eq!(pushed, Some(units(0, -15)));
}

#[test]
fn a_circle_at_a_corner_is_pushed_along_the_diagonal() {
    // The corner is at (105, 140), five units from the center.
    let pushed = contact(at(108, 144), 10 * ONE, at(100, 100), 5 * ONE, 40 * ONE);
    assert_eq!(pushed, Some(units(15, 20)));
}

#[test]
fn a_circle_inside_a_rectangle_is_pushed_across_it() {
    let pushed = contact(at(100, 100), 10 * ONE, at(100, 100), 5 * ONE, 40 * ONE);
    assert_eq!(pushed, Some(units(25, 0)));
}

#[test]
fn a_circle_on_the_boundary_touches_and_stays() {
    let pushed = contact(at(105, 120), 10 * ONE, at(100, 100), 5 * ONE, 40 * ONE);
    assert_eq!(pushed, Some([0, 0]));
}

#[test]
fn a_circle_that_does_not_reach_is_not_in_contact() {
    assert_eq!(contact(at(115, 100), 10 * ONE, at(100, 100), 5 * ONE, 40 * ONE), None);
    assert_eq!(contact(at(200, 300), 10 * ONE, at(100, 100), 5 * ONE, 40 * ONE), None);
    // The corner is at (105, 140): six and eight away make ten.
    assert_eq!(contact(at(111, 148), 10 * ONE, at(100, 100), 5 * ONE, 40 * ONE), None);
    assert_eq!(contact(at(112, 100), 0, at(100, 100), 5 * ONE, 40 * ONE), None);
}

#[test]
fn contact_is_total_at_the_bounds() {
    let far = Position { x: i64::MIN, y: i64::MAX };
    let near = Position { x: i64::MAX, y: i64::MIN };
    assert_eq!(contact(far, i64::MAX, near, i64::MAX, i64::MAX), None);
    assert_eq!(contact(far, i64::MIN, far, i64::MIN, i64::MIN), None);
    let wide = 5 * (i64::MAX as i128 - 5 * ONE as i128);
    assert_eq!(contact(at(0, 0), i64::MAX, at(0, 0), 5 * ONE, 40 * ONE), Some([wide, 0]));
    let wide = 5 * (i64::MIN as i128 - 5 * ONE as i128);
    assert_eq!(contact(at(0, 0), i64::MIN, at(0, 0), 5 * ONE, 40 * ONE), Some([wide, 0]));
}

#[test]
fn circles_overlap_when_closer_than_their_radii() {
    assert!(overlap(at(0, 0), 10 * ONE, at(15, 0), 10 * ONE));
    assert!(!overlap(at(0, 0), 10 * ONE, at(20, 0), 10 * ONE));
    assert!(!overlap(at(0, 0), 10 * ONE, at(25, 0), 10 * ONE));
    assert!(overlap(at(0, 0), 3 * ONE, at(3, 4), 3 * ONE));
    assert!(!overlap(at(0, 0), 2 * ONE, at(3, 4), 3 * ONE));
    assert!(!overlap(at(0, 0), 0, at(0, 0), 0));
    let far = Position { x: i64::MIN, y: i64::MIN };
    let near = Position { x: i64::MAX, y: i64::MAX };
    assert!(!overlap(far, i64::MAX, near, i64::MAX));
    assert!(overlap(far, i64::MIN, far, i64::MIN));
}
