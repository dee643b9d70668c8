//! Positions with an orientation, and their composition along a chain of frames.
use vstd::prelude::*;
use vstd::arithmetic::mul::lemma_mul_is_distributive_sub;
use crate::point::{
    in_i64, lemma_mul_bound, lemma_nearest_bound, nearest, round_div, GeometryError, Nearby, Point,
    COORD_LIMIT, DIRECTION_LIMIT,
};

verus! {

/// Steps of an angle in one radian.
pub const STEPS_PER_RADIAN: i64 = 1_000_000;

/// Fixed-point scale of the entries of a `Frame`: an entry of `FRAME_SCALE` stands for 1.
pub const FRAME_SCALE: i64 = 0x4000_0000;

/// The orientation of a pose as a basis: the directions, in the enclosing frame,
/// of the pose's own shift, distance and height axes, each in units of
/// `1 / FRAME_SCALE`.
#[derive(Debug, Clone, Copy, PartialEq, Eq, Structural)]
pub struct Frame {
    pub shift_axis: Point,
    pub dist_axis: Point,
    pub height_axis: Point,
}

/// An axis whose coordinates are within `FRAME_SCALE` in magnitude.
pub open spec fn unit_bounded(p: Point) -> bool {
    &&& -FRAME_SCALE <= p.x <= FRAME_SCALE
    &&& -FRAME_SCALE <= p.y <= FRAME_SCALE
    &&& -FRAME_SCALE <= p.z <= FRAME_SCALE
}

impl Frame {
    pub open spec fn wf(&self) -> bool {
        unit_bounded(self.shift_axis) && unit_bounded(self.dist_axis) && unit_bounded(
            self.height_axis,
        )
    }

    pub open spec fn identity_spec() -> Frame {
        Frame {
            shift_axis: Point { x: FRAME_SCALE, y: 0, z: 0 },
            dist_axis: Point { x: 0, y: FRAME_SCALE, z: 0 },
            height_axis: Point { x: 0, y: 0, z: FRAME_SCALE },
        }
    }

    /// The `x` coordinate of `p` mapped through the basis, rounded to the nearest step.
    pub open spec fn apply_x(&self, p: Point) -> int {
        nearest(
            self.shift_axis.x * p.x + self.dist_axis.x * p.y + self.height_axis.x * p.z,
            FRAME_SCALE as int,
        )
    }

    pub open spec fn apply_y(&self, p: Point) -> int {
        nearest(
            self.shift_axis.y * p.x + self.dist_axis.y * p.y + self.height_axis.y * p.z,
            FRAME_SCALE as int,
        )
    }

    pub open spec fn apply_z(&self, p: Point) -> int {
        nearest(
            self.shift_axis.z * p.x + self.dist_axis.z * p.y + self.height_axis.z * p.z,
            FRAME_SCALE as int,
        )
    }

    /// The basis of a pose that faces straight ahead with no roll.
    pub fn identity() -> (r: Frame)
        ensures
            r == Frame::identity_spec(),
            r.wf(),
    {
        Frame {
            shift_axis: Point { x: FRAME_SCALE, y: 0, z: 0 },
            dist_axis: Point { x: 0, y: FRAME_SCALE, z: 0 },
            height_axis: Point { x: 0, y: 0, z: FRAME_SCALE },
        }
    }

    /// A basis from its three axes, or `None` when a coordinate exceeds `FRAME_SCALE`
    /// in magnitude.
    pub fn new(shift_axis: Point, dist_axis: Point, height_axis: Point) -> (r: Option<Frame>)
        ensures
            r is Some <==> unit_bounded(shift_axis) && unit_bounded(dist_axis) && unit_bounded(
                height_axis,
            ),
            r matches Some(f) ==> f == (Frame { shift_axis, dist_axis, height_axis }),
    {
        if axis_in_unit(&shift_axis) && axis_in_unit(&dist_axis) && axis_in_unit(&height_axis) {
            Some(Frame { shift_axis, dist_axis, height_axis })
        } else {
            None
        }
    }

    /// Maps a vector given in this basis's local axes into the enclosing frame.
    pub fn apply(&self, p: Point) -> (r: Point)
        requires
            self.wf(),
            p.bounded(),
        ensures
            r.x == self.apply_x(p),
            r.y == self.apply_y(p),
            r.z == self.apply_z(p),
    {
        let x = combine(self.shift_axis.x, self.dist_axis.x, self.height_axis.x, &p);
        let y = combine(self.shift_axis.y, self.dist_axis.y, self.height_axis.y, &p);
        let z = combine(self.shift_axis.z, self.dist_axis.z, self.height_axis.z, &p);
        Point { x: x as i64, y: y as i64, z: z as i64 }
    }
}

fn axis_in_unit(p: &Point) -> (r: bool)
    ensures
        r == unit_bounded(*p),
{
    -FRAME_SCALE <= p.x && p.x <= FRAME_SCALE && -FRAME_SCALE <= p.y && p.y <= FRAME_SCALE
        && -FRAME_SCALE <= p.z && p.z <= FRAME_SCALE
}

/// `nearest(a * p.x + b * p.y + c * p.z, FRAME_SCALE)`.
fn combine(a: i64, b: i64, c: i64, p: &Point) -> (r: i128)
    requires
        -FRAME_SCALE <= a <= FRAME_SCALE,
        -FRAME_SCALE <= b <= FRAME_SCALE,
        -FRAME_SCALE <= c <= FRAME_SCALE,
        p.bounded(),
    ensures
        r == nearest(a * p.x + b * p.y + c * p.z, FRAME_SCALE as int),
        -3 * COORD_LIMIT <= r <= 3 * COORD_LIMIT,
{
    proof {
        lemma_mul_bound(a as int, p.x as int, FRAME_SCALE as int, COORD_LIMIT as int);
        lemma_mul_bound(b as int, p.y as int, FRAME_SCALE as int, COORD_LIMIT as int);
        lemma_mul_bound(c as int, p.z as int, FRAME_SCALE as int, COORD_LIMIT as int);
        assert(-3 * COORD_LIMIT * FRAME_SCALE <= a * p.x + b * p.y + c * p.z <= 3 * COORD_LIMIT
            * FRAME_SCALE);
        lemma_nearest_bound(
            a * p.x + b * p.y + c * p.z,
            FRAME_SCALE as int,
            3 * COORD_LIMIT,
        );
    }
    let n = (a as i128) * (p.x as i128) + (b as i128) * (p.y as i128) + (c as i128) * (
    p.z as i128);
    round_div(n, FRAME_SCALE as i128)
}

/// The horizontal axis to the right of the look vector `l`, perpendicular to it: the
/// `x` axis, scaled by `|l.z|`, when `l` is vertical.
pub open spec fn side_axis(l: Point) -> (int, int, int) {
    if l.x == 0 && l.y == 0 {
        (if l.z >= 0 { l.z as int } else { -l.z }, 0, 0)
    } else {
        (l.y as int, -l.x, 0)
    }
}

/// `side_axis(l) × l`: the axis above the look vector, perpendicular to it and to
/// the side axis.
pub open spec fn above_axis(l: Point) -> (int, int, int) {
    let (sx, sy, sz) = side_axis(l);
    (sy * l.z - sz * l.y, sz * l.x - sx * l.z, sx * l.y - sy * l.x)
}

pub open spec fn dot3(u: Point, v: (int, int, int)) -> int {
    u.x * v.0 + u.y * v.1 + u.z * v.2
}

/// The components of `up` along the side axis and the above axis of `look`. The roll
/// of a pose that looks along `look` with `up` as its up vector is
/// `atan2(|look| * side, above)`. `DegenerateUpVector` when `up` is parallel to
/// `look`, a zero `look` included.
pub fn roll_components(look: Point, up: Point) -> (r: Result<(i128, i128), GeometryError>)
    requires
        look.direction_bounded(),
        up.direction_bounded(),
    ensures
        r is Err <==> (up.cross_x(look) == 0 && up.cross_y(look) == 0 && up.cross_z(look) == 0),
        r is Err ==> r == Err::<(i128, i128), GeometryError>(GeometryError::DegenerateUpVector),
        r matches Ok((side, above)) ==> side == dot3(up, side_axis(look)) && above == dot3(
            up,
            above_axis(look),
        ),
{
    let (lx, ly, lz) = (look.x as i128, look.y as i128, look.z as i128);
    let (ux, uy, uz) = (up.x as i128, up.y as i128, up.z as i128);
    let (sx, sy) = if lx == 0 && ly == 0 {
        (if lz >= 0 { lz } else { -lz }, 0)
    } else {
        (ly, -lx)
    };
    proof {
        lemma_direction_products(look, up, sx as int, sy as int);
    }
    let (ax, ay, az) = (sy * lz, 0 - sx * lz, sx * ly - sy * lx);
    proof {
        let (k, k2) = (DIRECTION_LIMIT as int, 0x2_0000_0000_0000_0000_0000int);
        lemma_mul_bound(ux as int, ax as int, k, k2);
        lemma_mul_bound(uy as int, ay as int, k, k2);
        lemma_mul_bound(uz as int, az as int, k, k2);
    }
    let side = ux * sx + uy * sy;
    let above = ux * ax + uy * ay + uz * az;
    proof {
        assert(side_axis(look) == (sx as int, sy as int, 0int));
        lemma_components_vanish(look, up);
    }
    if side == 0 && above == 0 {
        Err(GeometryError::DegenerateUpVector)
    } else {
        Ok((side, above))
    }
}

/// The side axis, the look vector and the above axis are pairwise perpendicular,
/// and the side and above axes are zero only for a zero look vector.
pub proof fn lemma_roll_axes_orthogonal(l: Point)
    ensures
        dot3(l, side_axis(l)) == 0,
        dot3(l, above_axis(l)) == 0,
        ({
            let (sx, sy, sz) = side_axis(l);
            let (ax, ay, az) = above_axis(l);
            sx * ax + sy * ay + sz * az == 0
        }),
        side_axis(l) == (0int, 0int, 0int) <==> (l.x == 0 && l.y == 0 && l.z == 0),
        above_axis(l) == (0int, 0int, 0int) <==> (l.x == 0 && l.y == 0 && l.z == 0),
{
    let (x, y, z) = (l.x as int, l.y as int, l.z as int);
    let (sx, sy, sz) = side_axis(l);
    assert(sz == 0);
    let (ax, ay, az) = above_axis(l);
    assert(x * sx + y * sy == 0) by (nonlinear_arith)
        requires
            (x == 0 && y == 0) || (sx == y && sy == -x),
    ;
    assert(ax == sy * z && ay == -sx * z) by (nonlinear_arith)
        requires
            ax == sy * z - sz * y,
            ay == sz * x - sx * z,
            sz == 0,
    ;
    assert(x * ax + y * ay + z * az == 0 && sx * ax + sy * ay == 0) by (nonlinear_arith)
        requires
            ax == sy * z,
            ay == -sx * z,
            az == sx * y - sy * x,
            x * sx + y * sy == 0,
    ;
    if x == 0 && y == 0 {
        if z != 0 {
            assert(sx != 0);
            assert(ay != 0) by (nonlinear_arith)
                requires
                    ay == -sx * z,
                    sx != 0,
                    z != 0,
            ;
        }
    } else {
        assert(az == x * x + y * y) by (nonlinear_arith)
            requires
                az == sx * y - sy * x,
                sx == y,
                sy == -x,
        ;
        assert(az > 0) by (nonlinear_arith)
            requires
                az == x * x + y * y,
                x != 0 || y != 0,
        ;
    }
}

/// Both components vanish exactly when `up` is parallel to `look`.
proof fn lemma_components_vanish(look: Point, up: Point)
    ensures
        (dot3(up, side_axis(look)) == 0 && dot3(up, above_axis(look)) == 0) <==> (up.cross_x(look)
            == 0 && up.cross_y(look) == 0 && up.cross_z(look) == 0),
{
    let (lx, ly, lz) = (look.x as int, look.y as int, look.z as int);
    let (ux, uy, uz) = (up.x as int, up.y as int, up.z as int);
    let (cx, cy, cz) = (up.cross_x(look), up.cross_y(look), up.cross_z(look));
    let side = dot3(up, side_axis(look));
    let above = dot3(up, above_axis(look));
    if lx == 0 && ly == 0 {
        let m: int = if lz >= 0 { lz } else { -lz };
        assert(side == ux * m);
        assert(above == uy * (-m * lz)) by (nonlinear_arith)
            requires
                above == ux * (0 * lz) + uy * (0 - m * lz) + uz * (m * ly - 0 * lx),
                lx == 0,
                ly == 0,
        ;
        assert(cx == uy * lz && cy == -ux * lz && cz == 0) by (nonlinear_arith)
            requires
                cx == uy * lz - uz * ly,
                cy == uz * lx - ux * lz,
                cz == ux * ly - uy * lx,
                lx == 0,
                ly == 0,
        ;
        if lz != 0 {
            assert(m != 0);
            assert((ux * m == 0 && uy * (-m * lz) == 0) <==> (ux == 0 && uy == 0))
                by (nonlinear_arith)
                requires
                    m != 0,
                    lz != 0,
            ;
            assert((uy * lz == 0 && -ux * lz == 0) <==> (ux == 0 && uy == 0)) by (nonlinear_arith)
                requires
                    lz != 0,
            ;
        } else {
            assert(m == 0);
            assert(side == 0 && above == 0) by (nonlinear_arith)
                requires
                    side == ux * m,
                    above == uy * (-m * lz),
                    m == 0,
            ;
        }
    } else {
        assert(side == cz) by (nonlinear_arith)
            requires
                side == ux * ly + uy * (-lx) + uz * 0,
                cz == ux * ly - uy * lx,
        ;
        let (ax, ay, az) = above_axis(look);
        assert(ax == -lx * lz && ay == -ly * lz && az == lx * lx + ly * ly) by (nonlinear_arith)
            requires
                ax == (-lx) * lz - 0 * ly,
                ay == 0 * lx - ly * lz,
                az == ly * ly - (-lx) * lx,
        ;
        assert(ux * ax == -(lx * (ux * lz))) by (nonlinear_arith)
            requires
                ax == -lx * lz,
        ;
        assert(uy * ay == -(ly * (uy * lz))) by (nonlinear_arith)
            requires
                ay == -ly * lz,
        ;
        assert(uz * az == lx * (uz * lx) + ly * (uz * ly)) by (nonlinear_arith)
            requires
                az == lx * lx + ly * ly,
        ;
        lemma_mul_is_distributive_sub(lx, uz * lx, ux * lz);
        lemma_mul_is_distributive_sub(ly, uy * lz, uz * ly);
        assert(above == lx * cy - ly * cx);
        assert(lx * cx + ly * cy + lz * cz == 0) by (nonlinear_arith)
            requires
                cx == uy * lz - uz * ly,
                cy == uz * lx - ux * lz,
                cz == ux * ly - uy * lx,
        ;
        if side == 0 && above == 0 {
            lemma_perpendicular_in_plane(lx, ly, cx, cy);
        }
        if cx == 0 && cy == 0 && cz == 0 {
            assert(above == 0) by (nonlinear_arith)
                requires
                    above == lx * cy - ly * cx,
                    cx == 0,
                    cy == 0,
            ;
        }
    }
}

/// A vector `(cx, cy)` with `lx * cx + ly * cy == 0` and `lx * cy == ly * cx`, for a
/// non-zero `(lx, ly)`, is zero.
proof fn lemma_perpendicular_in_plane(lx: int, ly: int, cx: int, cy: int)
    requires
        lx != 0 || ly != 0,
        lx * cx + ly * cy == 0,
        lx * cy - ly * cx == 0,
    ensures
        cx == 0,
        cy == 0,
{
    let h = lx * lx + ly * ly;
    assert(h > 0) by (nonlinear_arith)
        requires
            h == lx * lx + ly * ly,
            lx != 0 || ly != 0,
    ;
    assert(h * cx == lx * (lx * cx + ly * cy) - ly * (lx * cy - ly * cx)) by (nonlinear_arith)
        requires
            h == lx * lx + ly * ly,
    ;
    assert(h * cy == ly * (lx * cx + ly * cy) + lx * (lx * cy - ly * cx)) by (nonlinear_arith)
        requires
            h == lx * lx + ly * ly,
    ;
    assert(cx == 0 && cy == 0) by (nonlinear_arith)
        requires
            h > 0,
            h * cx == 0,
            h * cy == 0,
    ;
}

/// Magnitude bounds on the products that `roll_components` computes.
proof fn lemma_direction_products(look: Point, up: Point, sx: int, sy: int)
    requires
        look.direction_bounded(),
        up.direction_bounded(),
        -DIRECTION_LIMIT <= sx <= DIRECTION_LIMIT,
        -DIRECTION_LIMIT <= sy <= DIRECTION_LIMIT,
    ensures
        -0x1_0000_0000_0000_0000_0000 <= sy * look.z <= 0x1_0000_0000_0000_0000_0000,
        -0x1_0000_0000_0000_0000_0000 <= sx * look.z <= 0x1_0000_0000_0000_0000_0000,
        -0x1_0000_0000_0000_0000_0000 <= sx * look.y <= 0x1_0000_0000_0000_0000_0000,
        -0x1_0000_0000_0000_0000_0000 <= sy * look.x <= 0x1_0000_0000_0000_0000_0000,
        -0x1_0000_0000_0000_0000_0000 <= up.x * sx <= 0x1_0000_0000_0000_0000_0000,
        -0x1_0000_0000_0000_0000_0000 <= up.y * sy <= 0x1_0000_0000_0000_0000_0000,
{
    let k = DIRECTION_LIMIT as int;
    lemma_mul_bound(sy, look.z as int, k, k);
    lemma_mul_bound(sx, look.z as int, k, k);
    lemma_mul_bound(sx, look.y as int, k, k);
    lemma_mul_bound(sy, look.x as int, k, k);
    lemma_mul_bound(up.x as int, sx, k, k);
    lemma_mul_bound(up.y as int, sy, k, k);
}

/// `|a - b|`.
pub open spec fn abs_diff(a: int, b: int) -> int {
    if a >= b {
        a - b
    } else {
        b - a
    }
}

/// A position with an orientation. Angles are in steps of `1 / STEPS_PER_RADIAN`
/// radian: yaw turns about the vertical axis away from the forward axis, pitch
/// raises the look vector above the horizontal plane, roll turns about the look
/// vector.
#[derive(Debug, Clone, Copy, PartialEq, Eq, Structural)]
pub struct Pose {
    pub pos: Point,
    pub yaw: i64,
    pub roll: i64,
    pub pitch: i64,
}

impl Pose {
    /// The pose at the origin that faces straight ahead with no roll.
    pub open spec fn identity_spec() -> Pose {
        Pose { pos: Point { x: 0, y: 0, z: 0 }, yaw: 0, roll: 0, pitch: 0 }
    }

    pub open spec fn scaled_spec(&self, k: int) -> Pose {
        Pose { pos: self.pos.times_spec(k), ..*self }
    }

    /// Positions within `eps` of each other, and each angle within `eps`.
    pub open spec fn like_spec(&self, other: Pose, eps: int) -> bool {
        &&& self.pos.sq_dist(other.pos) <= eps * eps
        &&& abs_diff(self.yaw as int, other.yaw as int) <= eps
        &&& abs_diff(self.roll as int, other.roll as int) <= eps
        &&& abs_diff(self.pitch as int, other.pitch as int) <= eps
    }

    /// The values of `chain` fit in the coordinate and angle types.
    pub open spec fn chain_ok(&self, next: Pose, frame: Frame) -> bool {
        &&& frame.wf()
        &&& next.pos.bounded()
        &&& in_i64(self.pos.x + frame.apply_x(next.pos))
        &&& in_i64(self.pos.y + frame.apply_y(next.pos))
        &&& in_i64(self.pos.z + frame.apply_z(next.pos))
        &&& in_i64(self.yaw + next.yaw)
        &&& in_i64(self.roll + next.roll)
        &&& in_i64(self.pitch + next.pitch)
    }

    /// `next`, given in the local frame of this pose, expressed in the frame that
    /// holds this pose: its position mapped through `frame` and moved by this
    /// pose's position, its angles added to this pose's angles.
    pub open spec fn chain_spec(&self, next: Pose, frame: Frame) -> Pose {
        Pose {
            pos: Point {
                x: (self.pos.x + frame.apply_x(next.pos)) as i64,
                y: (self.pos.y + frame.apply_y(next.pos)) as i64,
                z: (self.pos.z + frame.apply_z(next.pos)) as i64,
            },
            yaw: (self.yaw + next.yaw) as i64,
            roll: (self.roll + next.roll) as i64,
            pitch: (self.pitch + next.pitch) as i64,
        }
    }

    pub fn new(pos: Point, yaw: i64, roll: i64, pitch: i64) -> (r: Pose)
        ensures
            r == (Pose { pos, yaw, roll, pitch }),
    {
        Pose { pos, yaw, roll, pitch }
    }

    /// A pose from its distance, shift and height, and its angles.
    pub fn from_numbers(dist: i64, shift: i64, height: i64, yaw: i64, roll: i64, pitch: i64) -> (r:
        Pose)
        ensures
            r == (Pose { pos: Point { x: shift, y: dist, z: height }, yaw, roll, pitch }),
    {
        Pose::new(Point::new(shift, dist, height), yaw, roll, pitch)
    }

    /// A pose at `pos` that faces straight ahead with no roll.
    pub fn from_pos(pos: Point) -> (r: Pose)
        ensures
            r == (Pose { pos, yaw: 0, roll: 0, pitch: 0 }),
    {
        Pose::new(pos, 0, 0, 0)
    }

    /// The lateral (`x`) offset.
    pub fn shift(&self) -> (r: i64)
        ensures
            r == self.pos.x,
    {
        self.pos.x
    }

    /// The vertical (`z`) offset.
    pub fn height(&self) -> (r: i64)
        ensures
            r == self.pos.z,
    {
        self.pos.z
    }

    /// The forward (`y`) offset.
    pub fn dist(&self) -> (r: i64)
        ensures
            r == self.pos.y,
    {
        self.pos.y
    }

    /// The same orientation at another position.
    pub fn with_pos(&self, pos: Point) -> (r: Pose)
        ensures
            r == (Pose { pos, ..*self }),
    {
        Pose::new(pos, self.yaw, self.roll, self.pitch)
    }

    /// The same pose with another lateral offset.
    pub fn with_shift(&self, x: i64) -> (r: Pose)
        ensures
            r == (Pose { pos: Point { x, ..self.pos }, ..*self }),
    {
        self.with_pos(self.pos.with_x(x))
    }

    /// The same pose with another forward offset.
    pub fn with_dist(&self, y: i64) -> (r: Pose)
        ensures
            r == (Pose { pos: Point { y, ..self.pos }, ..*self }),
    {
        self.with_pos(self.pos.with_y(y))
    }

    /// The same pose with another vertical offset.
    pub fn with_height(&self, z: i64) -> (r: Pose)
        ensures
            r == (Pose { pos: Point { z, ..self.pos }, ..*self }),
    {
        self.with_pos(self.pos.with_z(z))
    }

    /// The same pose with another yaw.
    pub fn with_yaw(&self, theta: i64) -> (r: Pose)
        ensures
            r == (Pose { yaw: theta, ..*self }),
    {
        Pose::new(self.pos, theta, self.roll, self.pitch)
    }

    /// The same pose with another roll.
    pub fn with_roll(&self, theta: i64) -> (r: Pose)
        ensures
            r == (Pose { roll: theta, ..*self }),
    {
        Pose::new(self.pos, self.yaw, theta, self.pitch)
    }

    /// The same pose with another pitch.
    pub fn with_pitch(&self, theta: i64) -> (r: Pose)
        ensures
            r == (Pose { pitch: theta, ..*self }),
    {
        Pose::new(self.pos, self.yaw, self.roll, theta)
    }

    /// Whether the positions are within `eps` of each other and each angle is within
    /// `eps` of the other's.
    pub fn like(&self, other: &Pose, eps: i64) -> (r: bool)
        requires
            self.pos.bounded(),
            other.pos.bounded(),
        ensures
            r == self.like_spec(*other, eps as int),
    {
        self.pos.near(&other.pos, eps) && angle_within(self.yaw, other.yaw, eps) && angle_within(
            self.roll,
            other.roll,
            eps,
        ) && angle_within(self.pitch, other.pitch, eps)
    }

    /// The same orientation at `k` times the position.
    pub fn scaled(&self, k: i64) -> (r: Pose)
        requires
            in_i64(self.pos.x * k),
            in_i64(self.pos.y * k),
            in_i64(self.pos.z * k),
        ensures
            r == self.scaled_spec(k as int),
            r.pos.x == self.pos.x * k,
            r.pos.y == self.pos.y * k,
            r.pos.z == self.pos.z * k,
            r.yaw == self.yaw,
            r.roll == self.roll,
            r.pitch == self.pitch,
    {
        Pose::new(self.pos.times(k), self.yaw, self.roll, self.pitch)
    }

    /// `next`, given in the local frame of this pose, expressed in the frame that
    /// holds this pose. `frame` is this pose's basis.
    pub fn chain(&self, next: &Pose, frame: &Frame) -> (r: Pose)
        requires
            self.chain_ok(*next, *frame),
        ensures
            r == self.chain_spec(*next, *frame),
    {
        let moved = frame.apply(next.pos);
        Pose::new(
            self.pos.plus(moved),
            self.yaw + next.yaw,
            self.roll + next.roll,
            self.pitch + next.pitch,
        )
    }

    /// `chain` for any poses: `OutOfRange` when a coordinate or an angle of the
    /// result does not fit in an `i64`, or when `next` lies beyond `COORD_LIMIT`.
    pub fn try_chain(&self, next: &Pose, frame: &Frame) -> (r: Result<Pose, GeometryError>)
        requires
            frame.wf(),
        ensures
            r is Ok <==> self.chain_ok(*next, *frame),
            r matches Ok(p) ==> p == self.chain_spec(*next, *frame),
            r is Err ==> r == Err::<Pose, GeometryError>(GeometryError::OutOfRange),
    {
        if !next.pos.is_bounded() {
            return Err(GeometryError::OutOfRange);
        }
        let moved = frame.apply(next.pos);
        let fields = (
            add_checked(self.pos.x, moved.x),
            add_checked(self.pos.y, moved.y),
            add_checked(self.pos.z, moved.z),
            add_checked(self.yaw, next.yaw),
            add_checked(self.roll, next.roll),
            add_checked(self.pitch, next.pitch),
        );
        match fields {
            (Some(x), Some(y), Some(z), Some(yaw), Some(roll), Some(pitch)) => Ok(
                Pose::new(Point::new(x, y, z), yaw, roll, pitch),
            ),
            _ => Err(GeometryError::OutOfRange),
        }
    }
}

/// `a + b`, or `None` when it does not fit in an `i64`.
fn add_checked(a: i64, b: i64) -> (r: Option<i64>)
    ensures
        r is Some <==> in_i64(a + b),
        r matches Some(v) ==> v == a + b,
{
    let s = (a as i128) + (b as i128);
    if s < i64::MIN as i128 || s > i64::MAX as i128 {
        None
    } else {
        Some(s as i64)
    }
}

fn angle_within(a: i64, b: i64, eps: i64) -> (r: bool)
    ensures
        r == (abs_diff(a as int, b as int) <= eps),
{
    let d = if a >= b {
        (a as i128) - (b as i128)
    } else {
        (b as i128) - (a as i128)
    };
    d <= eps as i128
}

/// Chaining a pose onto the identity pose, whose basis is the identity, gives the
/// pose back.
pub proof fn lemma_chain_left_identity(p: Pose)
    requires
        p.pos.bounded(),
    ensures
        Pose::identity_spec().chain_ok(p, Frame::identity_spec()),
        Pose::identity_spec().chain_spec(p, Frame::identity_spec()) == p,
{
    let f = Frame::identity_spec();
    lemma_nearest_multiple(p.pos.x as int);
    lemma_nearest_multiple(p.pos.y as int);
    lemma_nearest_multiple(p.pos.z as int);
    let q = p.pos;
    lemma_pick(FRAME_SCALE as int, 0, 0, q.x as int, q.y as int, q.z as int);
    lemma_pick(0, FRAME_SCALE as int, 0, q.y as int, q.x as int, q.z as int);
    lemma_pick(0, 0, FRAME_SCALE as int, q.z as int, q.x as int, q.y as int);
    assert(f.apply_x(p.pos) == p.pos.x);
    assert(f.apply_y(p.pos) == p.pos.y);
    assert(f.apply_z(p.pos) == p.pos.z);
}

/// Chaining the identity pose onto a pose, whatever its basis, gives the pose back.
pub proof fn lemma_chain_right_identity(p: Pose, frame: Frame)
    requires
        frame.wf(),
    ensures
        p.chain_ok(Pose::identity_spec(), frame),
        p.chain_spec(Pose::identity_spec(), frame) == p,
{
    let z = Pose::identity_spec().pos;
    lemma_nearest_multiple(0);
    assert(frame.apply_x(z) == 0);
    assert(frame.apply_y(z) == 0);
    assert(frame.apply_z(z) == 0);
}

/// Scaling a pose by `k` multiplies each coordinate of its position by `k` and
/// keeps its angles.
pub proof fn lemma_scaled_keeps_orientation(p: Pose, k: int)
    requires
        in_i64(p.pos.x * k),
        in_i64(p.pos.y * k),
        in_i64(p.pos.z * k),
    ensures
        p.scaled_spec(k).pos.x == p.pos.x * k,
        p.scaled_spec(k).pos.y == p.pos.y * k,
        p.scaled_spec(k).pos.z == p.pos.z * k,
        p.scaled_spec(k).pos == p.pos.times_spec(k),
        p.scaled_spec(k).yaw == p.yaw,
        p.scaled_spec(k).roll == p.roll,
        p.scaled_spec(k).pitch == p.pitch,
{
}

/// Only the term whose coefficient is `FRAME_SCALE` is left of `a * u + b * v + c * w`.
proof fn lemma_pick(a: int, b: int, c: int, picked: int, v1: int, v2: int)
    requires
        (a == FRAME_SCALE && b == 0 && c == 0) || (a == 0 && b == FRAME_SCALE && c == 0) || (a == 0
            && b == 0 && c == FRAME_SCALE),
    ensures
        a == FRAME_SCALE ==> a * picked + b * v1 + c * v2 == picked * FRAME_SCALE,
        b == FRAME_SCALE ==> a * v1 + b * picked + c * v2 == picked * FRAME_SCALE,
        c == FRAME_SCALE ==> a * v1 + b * v2 + c * picked == picked * FRAME_SCALE,
{
    if a == FRAME_SCALE {
        assert(a * picked + b * v1 + c * v2 == picked * FRAME_SCALE) by (nonlinear_arith)
            requires
                a == 0x4000_0000,
                b == 0,
                c == 0,
        ;
    } else if b == FRAME_SCALE {
        assert(a * v1 + b * picked + c * v2 == picked * FRAME_SCALE) by (nonlinear_arith)
            requires
                a == 0,
                b == 0x4000_0000,
                c == 0,
        ;
    } else {
        assert(a * v1 + b * v2 + c * picked == picked * FRAME_SCALE) by (nonlinear_arith)
            requires
                a == 0,
                b == 0,
                c == 0x4000_0000,
        ;
    }
}

/// `nearest(v * FRAME_SCALE, FRAME_SCALE) == v`.
proof fn lemma_nearest_multiple(v: int)
    ensures
        nearest(v * FRAME_SCALE, FRAME_SCALE as int) == v,
{
    let s = FRAME_SCALE as int;
    vstd::arithmetic::div_mod::lemma_fundamental_div_mod(2 * (v * s) + s, 2 * s);
    let q = nearest(v * s, s);
    let rem = (2 * (v * s) + s) % (2 * s);
    assert(q == v) by (nonlinear_arith)
        requires
            s == 0x4000_0000,
            2 * (v * s) + s == 2 * s * q + rem,
            0 <= rem < 2 * s,
    ;
}

} // verus!
