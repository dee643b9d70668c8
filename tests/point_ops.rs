use ellipse_fit::point::{isqrt, round_div, sq_dist, STEPS_PER_UNIT};
use ellipse_fit::{GeometryError, Nearby, Point};

#[test]
fn point_near_uses_squared_distance() {
    let a = Point::new(0, 0, 0);
    assert!(a.near(&Point::new(3, 4, 0), 5));
    assert!(!a.near(&Point::new(3, 4, 0), 4));
    assert!(a.near(&Point::new(3, 4, 0), -5));
    assert_eq!(sq_dist(&a, &Point::new(1, 2, 2)), 9);
}

#[test]
fn point_magnitude() {
    assert_eq!(Point::new(3, 4, 0).squared_mag(), 25);
    assert_eq!(Point::new(3, 4, 0).mag(), 5);
    assert_eq!(Point::new(1, 1, 0).mag(), 1);
    assert_eq!(Point::new(2, 3, 6).mag(), 7);
}

#[test]
fn point_normalize() {
    let u = Point::new(3_000_000, 0, 4_000_000).normalize().unwrap();
    assert_eq!(u, Point::new(600_000, 0, 800_000));
    let v = Point::new(0, -7, 0).normalize().unwrap();
    assert_eq!(v, Point::new(0, -STEPS_PER_UNIT, 0));
    assert_eq!(Point::new(0, 0, 0).normalize(), Err(GeometryError::ZeroMagnitude));
}

#[test]
fn point_normalize_rounds() {
    // (1, 1, 1) has length sqrt(3): each coordinate maps to 1 / sqrt(3) units.
    assert_eq!(Point::new(1, 1, 1).normalize().unwrap(), Point::new(577_350, 577_350, 577_350));
    assert_eq!(Point::new(-1, 1, 0).normalize().unwrap(), Point::new(-707_107, 707_107, 0));
    // (1, 2, 2) has length 3.
    assert_eq!(Point::new(1, 2, 2).normalize().unwrap(), Point::new(333_333, 666_667, 666_667));
}

#[test]
fn point_arithmetic() {
    let a = Point::new(1, 2, 3);
    let b = Point::new(-4, 5, 6);
    assert_eq!(a.plus(b), Point::new(-3, 7, 9));
    assert_eq!(a.minus(b), Point::new(5, -3, -3));
    assert_eq!(a.negated(), Point::new(-1, -2, -3));
    assert_eq!(a.times(-2), Point::new(-2, -4, -6));
    assert_eq!(a.dot(b), 24);
    assert_eq!(a.volume(), 6);
}

#[test]
fn point_cross_product() {
    let x = Point::new(1, 0, 0);
    let y = Point::new(0, 1, 0);
    assert_eq!(x.cross(y), Point::new(0, 0, 1));
    assert_eq!(y.cross(x), Point::new(0, 0, -1));
    assert_eq!(Point::new(1, 2, 3).cross(Point::new(4, 5, 6)), Point::new(-3, 6, -3));
}

#[test]
fn point_parallel() {
    assert!(Point::new(0, 1, 0).is_parallel(Point::new(0, -3, 0)));
    assert!(!Point::new(0, 1, 0).is_parallel(Point::new(0, 1, 1)));
    assert!(Point::new(0, 0, 0).is_parallel(Point::new(4, 5, 6)));
    assert!(Point::new(0, 0, 0).is_zero());
    assert!(!Point::new(0, 0, 1).is_zero());
}

#[test]
fn point_in_place_updates() {
    let mut p = Point::new(1, 2, 3);
    p.translate(Point::new(10, 20, 30));
    assert_eq!(p, Point::new(11, 22, 33));
    p.scale(-2);
    assert_eq!(p, Point::new(-22, -44, -66));
    p.update(Point::new(7, 8, 9));
    assert_eq!(p, Point::new(7, 8, 9));
}

#[test]
fn point_with_coordinates() {
    let p = Point::new(1, 2, 3);
    assert_eq!(p.with_x(9), Point::new(9, 2, 3));
    assert_eq!(p.with_y(9), Point::new(1, 9, 3));
    assert_eq!(p.with_z(9), Point::new(1, 2, 9));
}

#[test]
fn point_from_whole_units() {
    assert_eq!(Point::from((1, -2, 3)), Point::new(1_000_000, -2_000_000, 3_000_000));
}

#[test]
fn integer_square_root() {
    assert_eq!(isqrt(0), 0);
    assert_eq!(isqrt(15), 3);
    assert_eq!(isqrt(16), 4);
    assert_eq!(isqrt(u128::MAX), u64::MAX);
}

#[test]
fn rounding_division() {
    assert_eq!(round_div(5, 2), 3);
    assert_eq!(round_div(-5, 2), -2);
    assert_eq!(round_div(7, 3), 2);
    assert_eq!(round_div(-7, 3), -2);
    assert_eq!(round_div(-8, 3), -3);
}
