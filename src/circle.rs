//! Closed-form circumcenter of three points that share a height.
use vstd::prelude::*;
use vstd::arithmetic::mul::lemma_mul_is_distributive_sub;
use crate::point::{
    in_i64, lemma_mul_bound, lemma_nearest_within_half, lemma_square_nonneg, nearest, round_div,
    GeometryError, Point,
};

verus! {

/// Largest in-plane coordinate magnitude accepted by the circle fit.
pub const FIT_LIMIT: i64 = 0x100_0000_0000;

/// Determinants at most this large in magnitude mark three points as collinear.
/// It is `1e-4` square units, in square steps.
pub const DEGENERATE_DETERMINANT: i128 = 100_000_000;

/// A point given by rational coordinates `x_num / den` and `y_num / den` at the
/// height `z`.
#[derive(Debug, Clone, Copy, PartialEq, Eq, Structural)]
pub struct Circumcenter {
    pub x_num: i128,
    pub y_num: i128,
    pub den: i128,
    pub z: i64,
}

impl Circumcenter {
    /// A positive denominator, and numerators small enough to be rounded.
    pub open spec fn wf(&self) -> bool {
        &&& 0 < self.den <= 0x2000_0000_0000_0000_0000_0000_0000_0000
        &&& -0x2000_0000_0000_0000_0000_0000_0000_0000 <= self.x_num
            <= 0x2000_0000_0000_0000_0000_0000_0000_0000
        &&& -0x2000_0000_0000_0000_0000_0000_0000_0000 <= self.y_num
            <= 0x2000_0000_0000_0000_0000_0000_0000_0000
    }

    /// The point of the step grid nearest to this one (halves rounded up), or `None`
    /// when it lies beyond the range of the coordinates.
    pub fn nearest_point(&self) -> (r: Option<Point>)
        requires
            self.wf(),
        ensures
            ({
                let x = nearest(self.x_num as int, self.den as int);
                let y = nearest(self.y_num as int, self.den as int);
                &&& r is Some <==> in_i64(x) && in_i64(y)
                &&& r matches Some(p) ==> p == (Point { x: x as i64, y: y as i64, z: self.z })
            }),
            r matches Some(p) ==> within_half_step(*self, p),
    {
        let x = round_div(self.x_num, self.den);
        let y = round_div(self.y_num, self.den);
        if x < i64::MIN as i128 || x > i64::MAX as i128 || y < i64::MIN as i128 || y
            > i64::MAX as i128 {
            return None;
        }
        proof {
            lemma_nearest_within_half(self.x_num as int, self.den as int);
            lemma_nearest_within_half(self.y_num as int, self.den as int);
        }
        Some(Point { x: x as i64, y: y as i64, z: self.z })
    }

    /// Squared distance to `p`, multiplied by `den * den`.
    pub open spec fn sq_dist_scaled(&self, p: Point) -> int {
        (self.x_num - self.den * p.x) * (self.x_num - self.den * p.x) + (self.y_num - self.den
            * p.y) * (self.y_num - self.den * p.y) + (self.den * (self.z - p.z)) * (self.den * (
        self.z - p.z))
    }
}

/// Each coordinate of `p` is within half a step of that of `cc`.
pub open spec fn within_half_step(cc: Circumcenter, p: Point) -> bool {
    &&& -cc.den <= 2 * (cc.den * p.x - cc.x_num) <= cc.den
    &&& -cc.den <= 2 * (cc.den * p.y - cc.y_num) <= cc.den
    &&& p.z == cc.z
}

/// The three points share a height and their in-plane coordinates are within `FIT_LIMIT`.
pub open spec fn fit_ready(a: Point, b: Point, c: Point) -> bool {
    &&& a.z == b.z
    &&& b.z == c.z
    &&& -FIT_LIMIT <= a.x <= FIT_LIMIT && -FIT_LIMIT <= a.y <= FIT_LIMIT
    &&& -FIT_LIMIT <= b.x <= FIT_LIMIT && -FIT_LIMIT <= b.y <= FIT_LIMIT
    &&& -FIT_LIMIT <= c.x <= FIT_LIMIT && -FIT_LIMIT <= c.y <= FIT_LIMIT
}

/// Squared length of the in-plane part of `p`.
pub open spec fn plane_sq(p: Point) -> int {
    p.x * p.x + p.y * p.y
}

/// Twice the signed area of the triangle `a b c`.
pub open spec fn det_spec(a: Point, b: Point, c: Point) -> int {
    (a.x - b.x) * (b.y - c.y) - (b.x - c.x) * (a.y - b.y)
}

pub open spec fn num_x_spec(a: Point, b: Point, c: Point) -> int {
    (plane_sq(a) - plane_sq(b)) * (b.y - c.y) - (plane_sq(b) - plane_sq(c)) * (a.y - b.y)
}

pub open spec fn num_y_spec(a: Point, b: Point, c: Point) -> int {
    (plane_sq(b) - plane_sq(c)) * (a.x - b.x) - (plane_sq(a) - plane_sq(b)) * (b.x - c.x)
}

/// The points are collinear, or too close to it for a fit.
pub open spec fn degenerate(a: Point, b: Point, c: Point) -> bool {
    -DEGENERATE_DETERMINANT <= det_spec(a, b, c) <= DEGENERATE_DETERMINANT
}

/// The center of the circle through `a`, `b` and `c`, with a positive denominator.
pub open spec fn circumcenter_spec(a: Point, b: Point, c: Point) -> Circumcenter {
    let det = det_spec(a, b, c);
    if det > 0 {
        Circumcenter {
            x_num: num_x_spec(a, b, c) as i128,
            y_num: num_y_spec(a, b, c) as i128,
            den: (2 * det) as i128,
            z: a.z,
        }
    } else {
        Circumcenter {
            x_num: (-num_x_spec(a, b, c)) as i128,
            y_num: (-num_y_spec(a, b, c)) as i128,
            den: (-2 * det) as i128,
            z: a.z,
        }
    }
}

/// The center of the circle through three points of equal height, exactly.
pub fn fit_flat_circle(a: Point, b: Point, c: Point) -> (r: Result<Circumcenter, GeometryError>)
    requires
        fit_ready(a, b, c),
    ensures
        degenerate(a, b, c) <==> r == Err::<Circumcenter, GeometryError>(
            GeometryError::DegenerateInput,
        ),
        !degenerate(a, b, c) ==> r == Ok::<Circumcenter, GeometryError>(
            circumcenter_spec(a, b, c),
        ),
        r matches Ok(cc) ==> {
            &&& cc.wf()
            &&& cc.z == a.z
            &&& cc.sq_dist_scaled(a) == cc.sq_dist_scaled(b)
            &&& cc.sq_dist_scaled(b) == cc.sq_dist_scaled(c)
        },
{
    let (ax, ay) = (a.x as i128, a.y as i128);
    let (bx, by) = (b.x as i128, b.y as i128);
    let (cx, cy) = (c.x as i128, c.y as i128);
    proof {
        lemma_fit_bounds(a, b, c);
    }
    let sa = ax * ax + ay * ay;
    let sb = bx * bx + by * by;
    let sc = cx * cx + cy * cy;
    let bc = sa - sb;
    let cd = sb - sc;
    let det = (ax - bx) * (by - cy) - (bx - cx) * (ay - by);
    if -DEGENERATE_DETERMINANT <= det && det <= DEGENERATE_DETERMINANT {
        return Err(GeometryError::DegenerateInput);
    }
    proof {
        assert(det == det_spec(a, b, c));
    }
    let nx = bc * (by - cy) - cd * (ay - by);
    let ny = cd * (ax - bx) - bc * (bx - cx);
    let cc = if det > 0 {
        Circumcenter { x_num: nx, y_num: ny, den: 2 * det, z: a.z }
    } else {
        Circumcenter { x_num: -nx, y_num: -ny, den: 2 * (0 - det), z: a.z }
    };
    proof {
        lemma_circumcenter_equidistant(a, b, c);
    }
    Ok(cc)
}

/// The circumcenter of three points of equal height that are not collinear is
/// equally far from all three.
pub proof fn lemma_circumcenter_equidistant(a: Point, b: Point, c: Point)
    requires
        fit_ready(a, b, c),
        !degenerate(a, b, c),
    ensures
        ({
            let cc = circumcenter_spec(a, b, c);
            &&& cc.den > 0
            &&& cc.sq_dist_scaled(a) == cc.sq_dist_scaled(b)
            &&& cc.sq_dist_scaled(b) == cc.sq_dist_scaled(c)
        }),
{
    lemma_fit_bounds(a, b, c);
    let det = det_spec(a, b, c);
    let p = plane_sq(a) - plane_sq(b);
    let q = plane_sq(b) - plane_sq(c);
    let nx = num_x_spec(a, b, c);
    let ny = num_y_spec(a, b, c);
    lemma_projections(
        p,
        q,
        a.x - b.x,
        a.y - b.y,
        b.x - c.x,
        b.y - c.y,
        nx,
        ny,
        det,
    );
    let cc = circumcenter_spec(a, b, c);
    let (x, y, d) = (cc.x_num as int, cc.y_num as int, cc.den as int);
    lemma_scale_projection(nx, ny, det, p, a.x - b.x, a.y - b.y, x, y, d);
    lemma_scale_projection(nx, ny, det, q, b.x - c.x, b.y - c.y, x, y, d);
    lemma_equal_distance(cc.x_num as int, cc.y_num as int, cc.den as int, a.x as int, a.y as int, b.x as int, b.y as int);
    lemma_equal_distance(cc.x_num as int, cc.y_num as int, cc.den as int, b.x as int, b.y as int, c.x as int, c.y as int);
}

/// The numerators project onto the triangle's sides as the determinant times the
/// differences of squared lengths.
proof fn lemma_projections(
    p: int,
    q: int,
    u1: int,
    v1: int,
    u2: int,
    v2: int,
    nx: int,
    ny: int,
    det: int,
)
    requires
        det == u1 * v2 - u2 * v1,
        nx == p * v2 - q * v1,
        ny == q * u1 - p * u2,
    ensures
        nx * u1 + ny * v1 == det * p,
        nx * u2 + ny * v2 == det * q,
{
    assert(nx * u1 + ny * v1 == det * p) by (nonlinear_arith)
        requires
            det == u1 * v2 - u2 * v1,
            nx == p * v2 - q * v1,
            ny == q * u1 - p * u2,
    ;
    assert(nx * u2 + ny * v2 == det * q) by (nonlinear_arith)
        requires
            det == u1 * v2 - u2 * v1,
            nx == p * v2 - q * v1,
            ny == q * u1 - p * u2,
    ;
}

proof fn lemma_scale_projection(
    nx: int,
    ny: int,
    det: int,
    p: int,
    u: int,
    v: int,
    x: int,
    y: int,
    d: int,
)
    requires
        nx * u + ny * v == det * p,
        (x == nx && y == ny && d == 2 * det) || (x == -nx && y == -ny && d == -2 * det),
    ensures
        2 * (x * u + y * v) == d * p,
{
    if x == nx && y == ny && d == 2 * det {
        assert(d * p == 2 * (det * p)) by (nonlinear_arith)
            requires
                d == 2 * det,
        ;
    } else {
        assert(x * u + y * v == -(nx * u + ny * v)) by (nonlinear_arith)
            requires
                x == -nx,
                y == -ny,
        ;
        assert(d * p == -2 * (det * p)) by (nonlinear_arith)
            requires
                d == -2 * det,
        ;
    }
}

/// The point `(x / d, y / d)` is as far from `(px, py)` as from `(qx, qy)` when it
/// lies on their perpendicular bisector.
proof fn lemma_equal_distance(x: int, y: int, d: int, px: int, py: int, qx: int, qy: int)
    requires
        2 * (x * (px - qx) + y * (py - qy)) == d * (px * px + py * py - qx * qx - qy * qy),
    ensures
        (x - d * px) * (x - d * px) + (y - d * py) * (y - d * py) == (x - d * qx) * (x - d * qx) + (
        y - d * qy) * (y - d * qy),
{
    lemma_square_difference(x, d, px, qx);
    lemma_square_difference(y, d, py, qy);
    let sx = d * (px * px - qx * qx) - 2 * x * (px - qx);
    let sy = d * (py * py - qy * qy) - 2 * y * (py - qy);
    assert(d * sx + d * sy == d * (sx + sy)) by (nonlinear_arith);
    assert(sx + sy == 0) by (nonlinear_arith)
        requires
            sx == d * (px * px - qx * qx) - 2 * x * (px - qx),
            sy == d * (py * py - qy * qy) - 2 * y * (py - qy),
            2 * (x * (px - qx) + y * (py - qy)) == d * (px * px + py * py - qx * qx - qy * qy),
    ;
}

proof fn lemma_square_difference(x: int, d: int, p: int, q: int)
    ensures
        (x - d * p) * (x - d * p) - (x - d * q) * (x - d * q) == d * (d * (p * p - q * q) - 2 * x
            * (p - q)),
{
    lemma_square_expand(x, d, p);
    lemma_square_expand(x, d, q);
    let (pp, qq, xp, xq) = (p * p, q * q, x * p, x * q);
    let m = pp - qq;
    let n = 2 * xp - 2 * xq;
    assert(2 * x * (p - q) == n) by (nonlinear_arith)
        requires
            xp == x * p,
            xq == x * q,
            n == 2 * xp - 2 * xq,
    ;
    lemma_mul_is_distributive_sub(d, d * m, n);
    lemma_mul_is_distributive_sub(d, pp, qq);
    lemma_mul_is_distributive_sub(d, d * pp, d * qq);
    lemma_mul_is_distributive_sub(d, 2 * xp, 2 * xq);
    assert(d * (2 * xp) == 2 * (d * xp) && d * (2 * xq) == 2 * (d * xq)) by (nonlinear_arith);
}

/// `(x - d * p)^2 == x^2 - 2 d (x p) + d (d p^2)`.
proof fn lemma_square_expand(x: int, d: int, p: int)
    ensures
        (x - d * p) * (x - d * p) == x * x - 2 * (d * (x * p)) + d * (d * (p * p)),
{
    let e = d * p;
    assert((x - e) * (x - e) == x * x - 2 * (x * e) + e * e) by (nonlinear_arith);
    assert(x * e == d * (x * p)) by (nonlinear_arith)
        requires
            e == d * p,
    ;
    assert(e * e == d * (d * (p * p))) by (nonlinear_arith)
        requires
            e == d * p,
    ;
}

/// Magnitude bounds on every intermediate value of the fit.
proof fn lemma_fit_bounds(a: Point, b: Point, c: Point)
    requires
        fit_ready(a, b, c),
    ensures
        0 <= a.x * a.x <= 0x1_0000_0000_0000_0000_0000,
        0 <= a.y * a.y <= 0x1_0000_0000_0000_0000_0000,
        0 <= b.x * b.x <= 0x1_0000_0000_0000_0000_0000,
        0 <= b.y * b.y <= 0x1_0000_0000_0000_0000_0000,
        0 <= c.x * c.x <= 0x1_0000_0000_0000_0000_0000,
        0 <= c.y * c.y <= 0x1_0000_0000_0000_0000_0000,
        -0x4_0000_0000_0000_0000_0000 <= (a.x - b.x) * (b.y - c.y) <= 0x4_0000_0000_0000_0000_0000,
        -0x4_0000_0000_0000_0000_0000 <= (b.x - c.x) * (a.y - b.y) <= 0x4_0000_0000_0000_0000_0000,
        -0x400_0000_0000_0000_0000_0000_0000_0000 <= (plane_sq(a) - plane_sq(b)) * (b.y - c.y)
            <= 0x400_0000_0000_0000_0000_0000_0000_0000,
        -0x400_0000_0000_0000_0000_0000_0000_0000 <= (plane_sq(b) - plane_sq(c)) * (a.y - b.y)
            <= 0x400_0000_0000_0000_0000_0000_0000_0000,
        -0x400_0000_0000_0000_0000_0000_0000_0000 <= (plane_sq(b) - plane_sq(c)) * (a.x - b.x)
            <= 0x400_0000_0000_0000_0000_0000_0000_0000,
        -0x400_0000_0000_0000_0000_0000_0000_0000 <= (plane_sq(a) - plane_sq(b)) * (b.x - c.x)
            <= 0x400_0000_0000_0000_0000_0000_0000_0000,
        -0x8_0000_0000_0000_0000_0000 <= det_spec(a, b, c) <= 0x8_0000_0000_0000_0000_0000,
        -0x800_0000_0000_0000_0000_0000_0000_0000 <= num_x_spec(a, b, c)
            <= 0x800_0000_0000_0000_0000_0000_0000_0000,
        -0x800_0000_0000_0000_0000_0000_0000_0000 <= num_y_spec(a, b, c)
            <= 0x800_0000_0000_0000_0000_0000_0000_0000,
{
    let k = FIT_LIMIT as int;
    lemma_mul_bound(a.x as int, a.x as int, k, k);
    lemma_mul_bound(a.y as int, a.y as int, k, k);
    lemma_mul_bound(b.x as int, b.x as int, k, k);
    lemma_mul_bound(b.y as int, b.y as int, k, k);
    lemma_mul_bound(c.x as int, c.x as int, k, k);
    lemma_mul_bound(c.y as int, c.y as int, k, k);
    lemma_square_nonneg(a.x as int);
    lemma_square_nonneg(a.y as int);
    lemma_square_nonneg(b.x as int);
    lemma_square_nonneg(b.y as int);
    lemma_square_nonneg(c.x as int);
    lemma_square_nonneg(c.y as int);
    lemma_mul_bound(a.x - b.x, b.y - c.y, 2 * k, 2 * k);
    lemma_mul_bound(b.x - c.x, a.y - b.y, 2 * k, 2 * k);
    let p = plane_sq(a) - plane_sq(b);
    let q = plane_sq(b) - plane_sq(c);
    let kp = 0x2_0000_0000_0000_0000_0000int;
    lemma_mul_bound(p, b.y - c.y, kp, 2 * k);
    lemma_mul_bound(q, a.y - b.y, kp, 2 * k);
    lemma_mul_bound(q, a.x - b.x, kp, 2 * k);
    lemma_mul_bound(p, b.x - c.x, kp, 2 * k);
}

} // verus!
