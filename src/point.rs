//! Points and vectors with fixed-point integer coordinates.
use vstd::prelude::*;

verus! {

/// Steps of a coordinate in one scene unit.
pub const STEPS_PER_UNIT: i64 = 1_000_000;

/// Largest coordinate magnitude for which sums of squared coordinates fit in 128 bits.
pub const COORD_LIMIT: i64 = 0x2000_0000_0000_0000;

/// Largest coordinate magnitude of a vector given a direction: `normalize` and the
/// roll decomposition compute with it exactly in 128 bits.
pub const DIRECTION_LIMIT: i64 = 0x100_0000_0000;

/// Conditions reported by the geometric operations of this crate.
#[derive(Debug, Clone, Copy, PartialEq, Eq, Structural)]
pub enum GeometryError {
    /// A zero vector was given where a direction is needed.
    ZeroMagnitude,
    /// A rotation was asked about a zero-length axis.
    DegenerateAxis,
    /// The three points of a circle fit are collinear or coincident.
    DegenerateInput,
    /// The up vector is parallel to the look vector.
    DegenerateUpVector,
    /// The exact result has no representation in the coordinate type.
    OutOfRange,
}

/// Whether `v` is representable as an `i64`.
pub open spec fn in_i64(v: int) -> bool {
    i64::MIN <= v <= i64::MAX
}

/// Whether `v` is representable as an `i128`.
pub open spec fn in_i128(v: int) -> bool {
    i128::MIN <= v <= i128::MAX
}

/// `n / d` rounded to the nearest integer, halves rounded up (for `d > 0`).
pub open spec fn nearest(n: int, d: int) -> int {
    (2 * n + d) / (2 * d)
}

/// `m` is the square root of `s`, rounded down.
pub open spec fn is_root(m: int, s: int) -> bool {
    m >= 0 && m * m <= s < (m + 1) * (m + 1)
}

/// The square root of `s >= 0`, rounded down.
pub open spec fn root(s: int) -> int {
    choose|m: int| is_root(m, s)
}

/// A rounded-down square root is the only one: `root(s) == m` for any root `m` of `s`.
pub proof fn lemma_root_unique(m: int, s: int)
    requires
        is_root(m, s),
    ensures
        root(s) == m,
{
    let r = root(s);
    assert(is_root(r, s));
    if r < m {
        assert((r + 1) * (r + 1) <= m * m) by (nonlinear_arith)
            requires
                0 <= r < m,
        ;
    } else if m < r {
        assert((m + 1) * (m + 1) <= r * r) by (nonlinear_arith)
            requires
                0 <= m < r,
        ;
    }
}

/// A point or vector in space.
#[derive(Debug, Clone, Copy, PartialEq, Eq, Structural)]
pub struct Point {
    pub x: i64,
    pub y: i64,
    pub z: i64,
}

impl Point {
    /// Every coordinate lies within `COORD_LIMIT` in magnitude.
    pub open spec fn bounded(&self) -> bool {
        &&& -COORD_LIMIT <= self.x <= COORD_LIMIT
        &&& -COORD_LIMIT <= self.y <= COORD_LIMIT
        &&& -COORD_LIMIT <= self.z <= COORD_LIMIT
    }

    pub open spec fn dot_spec(&self, o: Point) -> int {
        self.x * o.x + self.y * o.y + self.z * o.z
    }

    pub open spec fn sq_mag_spec(&self) -> int {
        self.dot_spec(*self)
    }

    /// Squared distance between two points.
    pub open spec fn sq_dist(&self, o: Point) -> int {
        (self.x - o.x) * (self.x - o.x) + (self.y - o.y) * (self.y - o.y) + (self.z - o.z) * (
        self.z - o.z)
    }

    pub fn new(x: i64, y: i64, z: i64) -> (r: Point)
        ensures
            r == (Point { x, y, z }),
    {
        Point { x, y, z }
    }

    pub fn squared_mag(&self) -> (r: i128)
        requires
            self.bounded(),
        ensures
            r == self.sq_mag_spec(),
    {
        self.dot(*self)
    }

    pub fn dot(&self, other: Point) -> (r: i128)
        requires
            self.bounded(),
            other.bounded(),
        ensures
            r == self.dot_spec(other),
    {
        proof {
            lemma_mul_bound(self.x as int, other.x as int, COORD_LIMIT as int, COORD_LIMIT as int);
            lemma_mul_bound(self.y as int, other.y as int, COORD_LIMIT as int, COORD_LIMIT as int);
            lemma_mul_bound(self.z as int, other.z as int, COORD_LIMIT as int, COORD_LIMIT as int);
        }
        (self.x as i128) * (other.x as i128) + (self.y as i128) * (other.y as i128) + (
        self.z as i128) * (other.z as i128)
    }

    /// Length of the vector, rounded down to a whole step.
    pub fn mag(&self) -> (r: i64)
        requires
            self.bounded(),
        ensures
            r == root(self.sq_mag_spec()),
            is_root(r as int, self.sq_mag_spec()),
    {
        let s = self.squared_mag();
        proof {
            lemma_mul_bound(self.x as int, self.x as int, COORD_LIMIT as int, COORD_LIMIT as int);
            lemma_mul_bound(self.y as int, self.y as int, COORD_LIMIT as int, COORD_LIMIT as int);
            lemma_mul_bound(self.z as int, self.z as int, COORD_LIMIT as int, COORD_LIMIT as int);
            lemma_square_nonneg(self.x as int);
            lemma_square_nonneg(self.y as int);
            lemma_square_nonneg(self.z as int);
        }
        let r = isqrt(s as u128);
        proof {
            lemma_root_bound(r as int, s as int);
            lemma_root_unique(r as int, s as int);
        }
        r as i64
    }

    /// Every coordinate lies within `DIRECTION_LIMIT` in magnitude.
    pub open spec fn direction_bounded(&self) -> bool {
        &&& -DIRECTION_LIMIT <= self.x <= DIRECTION_LIMIT
        &&& -DIRECTION_LIMIT <= self.y <= DIRECTION_LIMIT
        &&& -DIRECTION_LIMIT <= self.z <= DIRECTION_LIMIT
    }

    /// The unit vector in the direction of this one, in steps: each coordinate `c`
    /// becomes `c * STEPS_PER_UNIT / |self|` rounded to the nearest step (halves
    /// toward zero).
    pub fn normalize(&self) -> (r: Result<Point, GeometryError>)
        requires
            self.direction_bounded(),
        ensures
            r is Err <==> self.sq_mag_spec() == 0,
            r is Err ==> r == Err::<Point, GeometryError>(GeometryError::ZeroMagnitude),
            r matches Ok(u) ==> {
                &&& unit_coord_of(u.x as int, self.x as int, self.sq_mag_spec())
                &&& unit_coord_of(u.y as int, self.y as int, self.sq_mag_spec())
                &&& unit_coord_of(u.z as int, self.z as int, self.sq_mag_spec())
            },
    {
        proof {
            lemma_direction_square(self.x as int);
            lemma_direction_square(self.y as int);
            lemma_direction_square(self.z as int);
        }
        let (x, y, z) = (self.x as i128, self.y as i128, self.z as i128);
        let s = x * x + y * y + z * z;
        if s == 0 {
            return Err(GeometryError::ZeroMagnitude);
        }
        Ok(
            Point {
                x: unit_coord(self.x, s),
                y: unit_coord(self.y, s),
                z: unit_coord(self.z, s),
            },
        )
    }

    /// Adds `other` to this point in place.
    pub fn translate(&mut self, other: Point)
        requires
            in_i64(old(self).x + other.x),
            in_i64(old(self).y + other.y),
            in_i64(old(self).z + other.z),
        ensures
            *final(self) == old(self).plus_spec(other),
    {
        self.x = self.x + other.x;
        self.y = self.y + other.y;
        self.z = self.z + other.z;
    }

    /// Replaces every coordinate of this point by those of `other`.
    pub fn update(&mut self, other: Point)
        ensures
            *final(self) == other,
    {
        self.x = other.x;
        self.y = other.y;
        self.z = other.z;
    }

    /// Multiplies every coordinate by `k` in place.
    pub fn scale(&mut self, k: i64)
        requires
            in_i64(old(self).x * k),
            in_i64(old(self).y * k),
            in_i64(old(self).z * k),
        ensures
            *final(self) == old(self).times_spec(k as int),
    {
        self.x = self.x * k;
        self.y = self.y * k;
        self.z = self.z * k;
    }

    /// Product of the three coordinates.
    pub fn volume(&self) -> (r: i128)
        requires
            in_i128(self.x * self.y * self.z),
        ensures
            r == self.x * self.y * self.z,
    {
        proof {
            lemma_mul_bound(self.x as int, self.y as int, 0x8000_0000_0000_0000, 0x8000_0000_0000_0000);
        }
        (self.x as i128) * (self.y as i128) * (self.z as i128)
    }

    pub fn with_x(&self, x: i64) -> (r: Point)
        ensures
            r == (Point { x, ..*self }),
    {
        Point { x, y: self.y, z: self.z }
    }

    pub fn with_y(&self, y: i64) -> (r: Point)
        ensures
            r == (Point { y, ..*self }),
    {
        Point { x: self.x, y, z: self.z }
    }

    pub fn with_z(&self, z: i64) -> (r: Point)
        ensures
            r == (Point { z, ..*self }),
    {
        Point { x: self.x, y: self.y, z }
    }

    pub open spec fn plus_spec(&self, o: Point) -> Point {
        Point { x: (self.x + o.x) as i64, y: (self.y + o.y) as i64, z: (self.z + o.z) as i64 }
    }

    pub open spec fn minus_spec(&self, o: Point) -> Point {
        Point { x: (self.x - o.x) as i64, y: (self.y - o.y) as i64, z: (self.z - o.z) as i64 }
    }

    pub open spec fn times_spec(&self, k: int) -> Point {
        Point { x: (self.x * k) as i64, y: (self.y * k) as i64, z: (self.z * k) as i64 }
    }

    /// The coordinates of the cross product, as integers.
    pub open spec fn cross_x(&self, o: Point) -> int {
        self.y * o.z - self.z * o.y
    }

    pub open spec fn cross_y(&self, o: Point) -> int {
        self.z * o.x - self.x * o.z
    }

    pub open spec fn cross_z(&self, o: Point) -> int {
        self.x * o.y - self.y * o.x
    }

    /// Sum of two vectors.
    pub fn plus(&self, other: Point) -> (r: Point)
        requires
            in_i64(self.x + other.x),
            in_i64(self.y + other.y),
            in_i64(self.z + other.z),
        ensures
            r == self.plus_spec(other),
    {
        Point { x: self.x + other.x, y: self.y + other.y, z: self.z + other.z }
    }

    /// Difference of two vectors.
    pub fn minus(&self, other: Point) -> (r: Point)
        requires
            in_i64(self.x - other.x),
            in_i64(self.y - other.y),
            in_i64(self.z - other.z),
        ensures
            r == self.minus_spec(other),
    {
        Point { x: self.x - other.x, y: self.y - other.y, z: self.z - other.z }
    }

    /// The opposite vector.
    pub fn negated(&self) -> (r: Point)
        requires
            self.x > i64::MIN,
            self.y > i64::MIN,
            self.z > i64::MIN,
        ensures
            r == self.times_spec(-1),
    {
        Point { x: -self.x, y: -self.y, z: -self.z }
    }

    /// The vector multiplied by the scalar `k`.
    pub fn times(&self, k: i64) -> (r: Point)
        requires
            in_i64(self.x * k),
            in_i64(self.y * k),
            in_i64(self.z * k),
        ensures
            r == self.times_spec(k as int),
    {
        Point { x: self.x * k, y: self.y * k, z: self.z * k }
    }

    /// Vector product `self × other`.
    pub fn cross(&self, other: Point) -> (r: Point)
        requires
            self.bounded(),
            other.bounded(),
            in_i64(self.cross_x(other)),
            in_i64(self.cross_y(other)),
            in_i64(self.cross_z(other)),
        ensures
            r.x == self.cross_x(other),
            r.y == self.cross_y(other),
            r.z == self.cross_z(other),
    {
        let x = cross_term(self.y, other.z, self.z, other.y);
        let y = cross_term(self.z, other.x, self.x, other.z);
        let z = cross_term(self.x, other.y, self.y, other.x);
        Point { x: x as i64, y: y as i64, z: z as i64 }
    }

    /// Whether every coordinate lies within `COORD_LIMIT` in magnitude.
    pub fn is_bounded(&self) -> (r: bool)
        ensures
            r == self.bounded(),
    {
        -COORD_LIMIT <= self.x && self.x <= COORD_LIMIT && -COORD_LIMIT <= self.y && self.y
            <= COORD_LIMIT && -COORD_LIMIT <= self.z && self.z <= COORD_LIMIT
    }

    /// Whether every coordinate is zero.
    pub fn is_zero(&self) -> (r: bool)
        ensures
            r == (self.x == 0 && self.y == 0 && self.z == 0),
    {
        self.x == 0 && self.y == 0 && self.z == 0
    }

    /// Whether the two vectors are parallel: their cross product is zero (a zero
    /// vector is parallel to every vector).
    pub fn is_parallel(&self, other: Point) -> (r: bool)
        requires
            self.bounded(),
            other.bounded(),
        ensures
            r == (self.cross_x(other) == 0 && self.cross_y(other) == 0 && self.cross_z(other)
                == 0),
    {
        cross_term(self.y, other.z, self.z, other.y) == 0 && cross_term(
            self.z,
            other.x,
            self.x,
            other.z,
        ) == 0 && cross_term(self.x, other.y, self.y, other.x) == 0
    }
}

/// A point from whole-unit coordinates.
impl From<(i32, i32, i32)> for Point {
    fn from(v: (i32, i32, i32)) -> (r: Point) {
        proof {
            lemma_whole_units(v.0 as int);
            lemma_whole_units(v.1 as int);
            lemma_whole_units(v.2 as int);
        }
        Point {
            x: (v.0 as i64) * STEPS_PER_UNIT,
            y: (v.1 as i64) * STEPS_PER_UNIT,
            z: (v.2 as i64) * STEPS_PER_UNIT,
        }
    }
}

impl vstd::std_specs::convert::FromSpecImpl<(i32, i32, i32)> for Point {
    open spec fn obeys_from_spec() -> bool {
        true
    }

    open spec fn from_spec(v: (i32, i32, i32)) -> Point {
        Point {
            x: (v.0 * STEPS_PER_UNIT) as i64,
            y: (v.1 * STEPS_PER_UNIT) as i64,
            z: (v.2 * STEPS_PER_UNIT) as i64,
        }
    }
}

proof fn lemma_whole_units(v: int)
    requires
        i32::MIN <= v <= i32::MAX,
    ensures
        in_i64(v * STEPS_PER_UNIT),
{
    assert(in_i64(v * STEPS_PER_UNIT)) by (nonlinear_arith)
        requires
            -0x8000_0000 <= v <= 0x7fff_ffff,
    ;
}

/// Approximate equality of values.
pub trait Nearby: Sized {
    /// The values are within `thresh` of each other.
    spec fn near_spec(&self, other: &Self, thresh: int) -> bool;

    /// The values are small enough to be compared.
    spec fn comparable(&self, other: &Self) -> bool;

    fn near(&self, other: &Self, thresh: i64) -> (r: bool)
        requires
            self.comparable(other),
        ensures
            r == self.near_spec(other, thresh as int),
    ;
}

impl Nearby for Point {
    /// The squared distance is at most `thresh` squared.
    open spec fn near_spec(&self, other: &Point, thresh: int) -> bool {
        self.sq_dist(*other) <= thresh * thresh
    }

    open spec fn comparable(&self, other: &Point) -> bool {
        self.bounded() && other.bounded()
    }

    fn near(&self, other: &Point, thresh: i64) -> (r: bool) {
        let d = sq_dist(self, other);
        proof {
            lemma_mul_bound(thresh as int, thresh as int, 0x8000_0000_0000_0000, 0x8000_0000_0000_0000);
        }
        d <= (thresh as i128) * (thresh as i128)
    }
}

/// Squared distance between two bounded points.
pub fn sq_dist(a: &Point, b: &Point) -> (r: i128)
    requires
        a.bounded(),
        b.bounded(),
    ensures
        r == a.sq_dist(*b),
{
    let dx = (a.x as i128) - (b.x as i128);
    let dy = (a.y as i128) - (b.y as i128);
    let dz = (a.z as i128) - (b.z as i128);
    proof {
        let k = 2 * COORD_LIMIT as int;
        lemma_mul_bound(dx as int, dx as int, k, k);
        lemma_mul_bound(dy as int, dy as int, k, k);
        lemma_mul_bound(dz as int, dz as int, k, k);
    }
    dx * dx + dy * dy + dz * dz
}

/// `a * b - c * d` for bounded coordinates.
fn cross_term(a: i64, b: i64, c: i64, d: i64) -> (r: i128)
    requires
        -COORD_LIMIT <= a <= COORD_LIMIT,
        -COORD_LIMIT <= b <= COORD_LIMIT,
        -COORD_LIMIT <= c <= COORD_LIMIT,
        -COORD_LIMIT <= d <= COORD_LIMIT,
    ensures
        r == a * b - c * d,
{
    proof {
        lemma_mul_bound(a as int, b as int, COORD_LIMIT as int, COORD_LIMIT as int);
        lemma_mul_bound(c as int, d as int, COORD_LIMIT as int, COORD_LIMIT as int);
    }
    (a as i128) * (b as i128) - (c as i128) * (d as i128)
}

/// `u` is `c * STEPS_PER_UNIT / sqrt(s)` rounded to the nearest integer, halves
/// toward zero: `u` has the sign of `c`, and `|u|` is the least `m >= 0` with
/// `4 c^2 STEPS_PER_UNIT^2 <= (2m + 1)^2 s`, so that
/// `(2|u| - 1)^2 s < 4 c^2 STEPS_PER_UNIT^2 <= (2|u| + 1)^2 s`.
pub open spec fn unit_coord_of(u: int, c: int, s: int) -> bool {
    let t = 4 * (c * c) * (STEPS_PER_UNIT * STEPS_PER_UNIT);
    let m = if u >= 0 {
        u
    } else {
        -u
    };
    &&& c >= 0 ==> u >= 0
    &&& c <= 0 ==> u <= 0
    &&& t <= (2 * m + 1) * (2 * m + 1) * s
    &&& m > 0 ==> (2 * m - 1) * (2 * m - 1) * s < t
}

/// One coordinate of a unit vector: the least magnitude that reaches
/// `c * STEPS_PER_UNIT / sqrt(s)` within half a step, found by bisection.
fn unit_coord(c: i64, s: i128) -> (r: i64)
    requires
        -DIRECTION_LIMIT <= c <= DIRECTION_LIMIT,
        c * c <= s <= 3 * DIRECTION_LIMIT * DIRECTION_LIMIT,
        s > 0,
    ensures
        unit_coord_of(r as int, c as int, s as int),
{
    let a: i128 = if c >= 0 {
        c as i128
    } else {
        0 - (c as i128)
    };
    let scale = (STEPS_PER_UNIT as i128) * (STEPS_PER_UNIT as i128);
    proof {
        assert(a * a == c * c) by (nonlinear_arith)
            requires
                a == c || a == -c,
        ;
        lemma_mul_bound(a as int, a as int, DIRECTION_LIMIT as int, DIRECTION_LIMIT as int);
    }
    let t = 4 * (a * a) * scale;
    let mut lo: i128 = 0;
    let mut hi: i128 = STEPS_PER_UNIT as i128;
    proof {
        assert(t <= (2 * hi + 1) * (2 * hi + 1) * s) by (nonlinear_arith)
            requires
                t == 4 * (a * a) * scale,
                scale == 1_000_000_000_000,
                hi == 1_000_000,
                0 <= a * a <= s,
        ;
    }
    while lo < hi
        invariant
            0 <= lo <= hi <= STEPS_PER_UNIT,
            0 < s <= 3 * DIRECTION_LIMIT * DIRECTION_LIMIT,
            t == 4 * (c * c) * (STEPS_PER_UNIT * STEPS_PER_UNIT),
            t <= (2 * hi + 1) * (2 * hi + 1) * s,
            lo > 0 ==> (2 * lo - 1) * (2 * lo - 1) * s < t,
        decreases hi - lo,
    {
        let mid = lo + (hi - lo) / 2;
        let k = 2 * mid + 1;
        proof {
            lemma_mul_bound(k as int, k as int, 2_000_001, 2_000_001);
            lemma_square_nonneg(k as int);
            lemma_mul_bound(k * k, s as int, 4_000_004_000_001, 0x3_0000_0000_0000_0000_0000);
            assert(0 <= k * k * s) by (nonlinear_arith)
                requires
                    k * k >= 0,
                    s > 0,
            ;
        }
        if t <= k * k * s {
            hi = mid;
        } else {
            lo = mid + 1;
        }
    }
    if c >= 0 {
        lo as i64
    } else {
        (0 - lo) as i64
    }
}

/// `nearest(n, d)`, for `d > 0` and `|n| < 2^125`.
pub fn round_div(n: i128, d: i128) -> (r: i128)
    requires
        d > 0,
        -0x2000_0000_0000_0000_0000_0000_0000_0000 <= n <= 0x2000_0000_0000_0000_0000_0000_0000_0000,
        d <= 0x2000_0000_0000_0000_0000_0000_0000_0000,
    ensures
        r == nearest(n as int, d as int),
{
    let num = 2 * n + d;
    let den = 2 * d;
    match num.checked_div_euclid(den) {
        Some(q) => q,
        None => {
            proof {
                lemma_div_shrinks(num as int, den as int);
            }
            0
        },
    }
}

/// Integer square root: the largest `r` with `r * r <= s`.
pub fn isqrt(s: u128) -> (r: u64)
    ensures
        r == root(s as int),
        is_root(r as int, s as int),
{
    let mut lo: u128 = 0;
    let mut hi: u128 = 0x1_0000_0000_0000_0000;
    proof {
        assert(hi * hi == 0x1_0000_0000_0000_0000_0000_0000_0000_0000) by (nonlinear_arith)
            requires
                hi == 0x1_0000_0000_0000_0000,
        ;
    }
    while hi - lo > 1
        invariant
            lo < hi <= 0x1_0000_0000_0000_0000,
            lo * lo <= s < hi * hi,
        decreases hi - lo,
    {
        let mid = lo + (hi - lo) / 2;
        proof {
            lemma_square_below_u128(mid as int);
        }
        if mid * mid <= s {
            lo = mid;
        } else {
            hi = mid;
        }
    }
    proof {
        lemma_root_unique(lo as int, s as int);
    }
    lo as u64
}

proof fn lemma_square_below_u128(m: int)
    requires
        0 <= m < 0x1_0000_0000_0000_0000,
    ensures
        0 <= m * m <= u128::MAX,
{
    assert(0 <= m * m <= 0xffff_ffff_ffff_fffe_0000_0000_0000_0001) by (nonlinear_arith)
        requires
            0 <= m <= 0xffff_ffff_ffff_ffff,
    ;
}

pub(crate) proof fn lemma_square_nonneg(a: int)
    ensures
        a * a >= 0,
{
    assert(a * a >= 0) by (nonlinear_arith);
}

/// The root of a sum of three squares of bounded coordinates is below `2^62`.
proof fn lemma_root_bound(r: int, s: int)
    requires
        0 <= r,
        r * r <= s,
        s <= 0xc00_0000_0000_0000_0000_0000_0000_0000,
    ensures
        r < 0x4000_0000_0000_0000,
{
    assert(r < 0x4000_0000_0000_0000) by (nonlinear_arith)
        requires
            0 <= r,
            r * r <= s,
            s <= 0xc00_0000_0000_0000_0000_0000_0000_0000,
    ;
}

/// `nearest(n, d)` is within half of `d` of `n / d`: `|2 (d * nearest(n, d) - n)| <= d`.
pub proof fn lemma_nearest_within_half(n: int, d: int)
    requires
        d > 0,
    ensures
        -d <= 2 * (d * nearest(n, d) - n) <= d,
{
    vstd::arithmetic::div_mod::lemma_fundamental_div_mod(2 * n + d, 2 * d);
    let q = nearest(n, d);
    let rem = (2 * n + d) % (2 * d);
    assert(-d <= 2 * (d * q - n) <= d) by (nonlinear_arith)
        requires
            d > 0,
            2 * n + d == 2 * d * q + rem,
            0 <= rem < 2 * d,
    ;
}

/// `nearest(n, d)` stays within `[-k, k]` when `|n| <= k * d`.
pub(crate) proof fn lemma_nearest_bound(n: int, d: int, k: int)
    requires
        d > 0,
        k > 0,
        -k * d <= n <= k * d,
    ensures
        -k <= nearest(n, d) <= k,
{
    let q = nearest(n, d);
    vstd::arithmetic::div_mod::lemma_fundamental_div_mod(2 * n + d, 2 * d);
    let rem = (2 * n + d) % (2 * d);
    assert(0 <= rem < 2 * d);
    assert(-k <= q <= k) by (nonlinear_arith)
        requires
            d > 0,
            -k * d <= n <= k * d,
            2 * n + d == 2 * d * q + rem,
            0 <= rem < 2 * d,
    ;
}

/// A Euclidean quotient by `den >= 2` is no larger in magnitude than its numerator.
proof fn lemma_div_shrinks(num: int, den: int)
    requires
        den >= 2,
    ensures
        num >= 0 ==> 0 <= num / den <= num,
        num < 0 ==> num <= num / den < 0,
{
    vstd::arithmetic::div_mod::lemma_fundamental_div_mod(num, den);
    let q = num / den;
    let rem = num % den;
    assert((num >= 0 ==> 0 <= q <= num) && (num < 0 ==> num <= q < 0)) by (nonlinear_arith)
        requires
            den >= 2,
            num == den * q + rem,
            0 <= rem < den,
    ;
}

/// `|a * b| <= ka * kb` for `|a| <= ka` and `|b| <= kb`.
pub(crate) proof fn lemma_mul_bound(a: int, b: int, ka: int, kb: int)
    requires
        -ka <= a <= ka,
        -kb <= b <= kb,
    ensures
        -ka * kb <= a * b <= ka * kb,
{
    assert(-ka * kb <= a * b <= ka * kb) by (nonlinear_arith)
        requires
            -ka <= a <= ka,
            -kb <= b <= kb,
    ;
}

/// The square of a direction coordinate is at most `2^80`.
proof fn lemma_direction_square(c: int)
    requires
        -DIRECTION_LIMIT <= c <= DIRECTION_LIMIT,
    ensures
        0 <= c * c <= DIRECTION_LIMIT * DIRECTION_LIMIT,
{
    lemma_square_nonneg(c);
    lemma_mul_bound(c, c, DIRECTION_LIMIT as int, DIRECTION_LIMIT as int);
}

} // verus!
