use ellipse_fit::circle::DEGENERATE_DETERMINANT;
use ellipse_fit::{fit_flat_circle, Circumcenter, GeometryError, Nearby, Point};

fn sq_dist_scaled(c: &Circumcenter, p: &Point) -> i128 {
    let dx = c.x_num - c.den * p.x as i128;
    let dy = c.y_num - c.den * p.y as i128;
    let dz = c.den * (c.z as i128 - p.z as i128);
    dx * dx + dy * dy + dz * dz
}

#[test]
fn circle_fit_1() {
    let a = Point::new(-8_800_000, 900_000, 0);
    let b = Point::new(2_500_000, -2_700_000, 0);
    let c = Point::new(8_300_000, 6_500_000, 0);
    assert!(fit_flat_circle(a, b, c).unwrap().nearest_point().unwrap().near(&Point::new(-1_000_000, 5_900_000, 0), 100_000));
}

#[test]
fn circle_fit_2() {
    let a = Point::new(-30_000_000, 900_000, 0);
    let b = Point::new(-19_000_000, 33_000_000, 0);
    let c = Point::new(8_300_000, 6_500_000, 0);
    assert!(fit_flat_circle(a, b, c).unwrap().nearest_point().unwrap().near(&Point::new(-12_200_000, 12_700_000, 0), 100_000));
}

#[test]
fn circle_fit_3() {
    let a = Point::new(-30_000_000, 900_000, 0);
    let b = Point::new(-19_000_000, 33_000_000, 0);
    let c = Point::new(-21_000_000, 16_000_000, 0);
    assert!(fit_flat_circle(a, b, c).unwrap().nearest_point().unwrap().near(&Point::new(-60_400_000, 29_300_000, 0), 100_000));
}

#[test]
fn circle_fit_4() {
    let a = Point::new(-30_000_000, 900_000, 0);
    let b = Point::new(-19_000_000, 33_000_000, 0);
    let c = Point::new(-31_200_000, -2_740_000, 0);
    assert!(fit_flat_circle(a, b, c).unwrap().nearest_point().unwrap().near(&Point::new(1_503_800_000, -506_800_000, 0), 100_000));
}

#[test]
fn circle_fit_keeps_height() {
    let a = Point::new(0, 0, 7_000_000);
    let b = Point::new(2_000_000, 0, 7_000_000);
    let c = Point::new(0, 2_000_000, 7_000_000);
    let center = fit_flat_circle(a, b, c).unwrap().nearest_point();
    assert_eq!(center, Some(Point::new(1_000_000, 1_000_000, 7_000_000)));
}

#[test]
fn circle_fit_rounds_to_nearest_step() {
    // The exact center is (15000.5, 15000.5); halves round up.
    let a = Point::new(0, 0, 0);
    let b = Point::new(30_001, 0, 0);
    let c = Point::new(0, 30_001, 0);
    assert_eq!(fit_flat_circle(a, b, c).unwrap().nearest_point(), Some(Point::new(15_001, 15_001, 0)));
}

#[test]
fn circumcenter_is_equidistant() {
    let a = Point::new(-88_000, 9_000, 3);
    let b = Point::new(25_000, -27_000, 3);
    let c = Point::new(83_000, 65_000, 3);
    let cc = fit_flat_circle(a, b, c).unwrap();
    assert!(cc.den > 0);
    assert_eq!(cc.z, 3);
    assert_eq!(sq_dist_scaled(&cc, &a), sq_dist_scaled(&cc, &b));
    assert_eq!(sq_dist_scaled(&cc, &b), sq_dist_scaled(&cc, &c));
}

#[test]
fn circumcenter_exact_value() {
    let a = Point::new(0, 0, 0);
    let b = Point::new(40_000, 0, 0);
    let c = Point::new(0, 30_000, 0);
    let cc = fit_flat_circle(a, b, c).unwrap();
    // Center (20000, 15000): x_num / den and y_num / den.
    assert_eq!(cc.x_num, 20_000 * cc.den);
    assert_eq!(cc.y_num, 15_000 * cc.den);
    assert_eq!(cc.den, 2 * 1_200_000_000);
}

#[test]
fn circle_fit_collinear_is_degenerate() {
    let a = Point::new(0, 0, 0);
    let b = Point::new(1_000_000, 1_000_000, 0);
    let c = Point::new(3_000_000, 3_000_000, 0);
    assert_eq!(fit_flat_circle(a, b, c), Err(GeometryError::DegenerateInput));
}

#[test]
fn circle_fit_coincident_is_degenerate() {
    let a = Point::new(5, 5, 0);
    assert_eq!(fit_flat_circle(a, a, Point::new(9, 1, 0)), Err(GeometryError::DegenerateInput));
}

#[test]
fn circle_fit_tolerance_boundary() {
    // Determinant exactly at the tolerance: degenerate.
    let a = Point::new(0, 0, 0);
    let b = Point::new(10_000, 0, 0);
    let c = Point::new(0, 10_000, 0);
    assert_eq!(DEGENERATE_DETERMINANT, 100_000_000);
    assert_eq!(fit_flat_circle(a, b, c), Err(GeometryError::DegenerateInput));
    // One step more: fitted.
    let c = Point::new(0, 10_001, 0);
    assert!(fit_flat_circle(a, b, c).is_ok());
}

#[test]
fn circle_fit_out_of_range() {
    let l: i64 = 1 << 40;
    let a = Point::new(-l, 0, 0);
    let b = Point::new(l, 0, 0);
    let c = Point::new(0, 1, 0);
    let center = fit_flat_circle(a, b, c).unwrap();
    assert_eq!(center.nearest_point(), None);
    // The exact center lies on the y axis, far beyond the coordinate range.
    assert_eq!(center.x_num, 0);
    assert!((center.y_num / center.den).abs() > i64::MAX as i128);
}

#[test]
fn circle_fit_small_circle_is_exact() {
    // A circle of radius under a hundredth of a unit: the exact center is equidistant,
    // its rounding to the step grid is not.
    let a = Point::new(-8_800, 900, 0);
    let b = Point::new(2_500, -2_700, 0);
    let c = Point::new(8_300, 6_500, 0);
    let cc = fit_flat_circle(a, b, c).unwrap();
    assert_eq!(sq_dist_scaled(&cc, &a), sq_dist_scaled(&cc, &b));
    assert_eq!(sq_dist_scaled(&cc, &b), sq_dist_scaled(&cc, &c));
    assert_eq!(cc.nearest_point(), Some(Point::new(-977, 5_920, 0)));
}
