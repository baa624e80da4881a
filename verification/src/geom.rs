//! Shoebox-room geometry on an exact integer grid.
//!
//! Positions are carried in millimetres as `i64` coordinates, so mirror
//! reflection across a room boundary and the Euclidean distance (by an
//! integer square root) are exact and every geometric rule can be proved.

use vstd::prelude::*;
use crate::ism::Reflected;

verus! {

/// Largest magnitude accepted for a coordinate or room dimension that
/// enters the library from outside, in millimetres (10 km).
pub const COORD_LIMIT_MM: i64 = 10_000_000;

/// A point or extent in room-local coordinates, in millimetres.
#[derive(Debug, Clone, Copy, PartialEq, Eq, Structural)]
pub struct Vec3 {
    pub x: i64,
    pub y: i64,
    pub z: i64,
}

impl Vec3 {
    pub fn new(x: i64, y: i64, z: i64) -> (r: Vec3)
        ensures
            r == (Vec3 { x, y, z }),
    {
        Vec3 { x, y, z }
    }

    /// All three coordinates lie within `limit` in magnitude.
    pub open spec fn bounded(self, limit: int) -> bool {
        -limit <= self.x <= limit && -limit <= self.y <= limit && -limit <= self.z <= limit
    }
}

/// Fixed-point scale of quaternion components: 1.0 is carried as 2^14.
pub const QUAT_ONE_Q14: i64 = 16384;

/// An orientation quaternion with components in Q14 fixed point.
#[derive(Debug, Clone, Copy, PartialEq, Eq, Structural)]
pub struct Quat {
    pub w: i64,
    pub x: i64,
    pub y: i64,
    pub z: i64,
}

impl Quat {
    pub fn new(w: i64, x: i64, y: i64, z: i64) -> (r: Quat)
        ensures
            r == (Quat { w, x, y, z }),
    {
        Quat { w, x, y, z }
    }

    /// The identity rotation.
    pub fn identity() -> (r: Quat)
        ensures
            r == (Quat { w: QUAT_ONE_Q14, x: 0i64, y: 0i64, z: 0i64 }),
            r.wf(),
    {
        Quat { w: QUAT_ONE_Q14, x: 0, y: 0, z: 0 }
    }

    /// Components of a unit quaternion never exceed one, so their Q14
    /// carriers stay within the scale.
    pub open spec fn wf(self) -> bool {
        &&& -QUAT_ONE_Q14 <= self.w <= QUAT_ONE_Q14
        &&& -QUAT_ONE_Q14 <= self.x <= QUAT_ONE_Q14
        &&& -QUAT_ONE_Q14 <= self.y <= QUAT_ONE_Q14
        &&& -QUAT_ONE_Q14 <= self.z <= QUAT_ONE_Q14
    }
}

/// A shoebox room; `dimension` holds width (x), height (y), length (z).
#[derive(Debug, Clone, Copy, PartialEq, Eq, Structural)]
pub struct Room {
    pub dimension: Vec3,
}

impl Room {
    pub fn new(width: i64, height: i64, length: i64) -> (r: Room)
        ensures
            r == (Room { dimension: Vec3 { x: width, y: height, z: length } }),
    {
        Room { dimension: Vec3 { x: width, y: height, z: length } }
    }

    /// Non-degenerate dimensions within the accepted range.
    pub open spec fn wf(self) -> bool {
        0 <= self.dimension.x <= COORD_LIMIT_MM
            && 0 <= self.dimension.y <= COORD_LIMIT_MM
            && 0 <= self.dimension.z <= COORD_LIMIT_MM
    }

    /// Length of the room diagonal in millimetres, rounded down: the
    /// longest straight path any reflection of first order can take.
    pub fn diagonal(&self) -> (d: i64)
        requires
            self.wf(),
        ensures
            d == dist_spec(self.dimension, Vec3 { x: 0i64, y: 0i64, z: 0i64 }),
            0 <= d <= 35 * COORD_LIMIT_MM as int,
    {
        calc_distance(&self.dimension, &Vec3 { x: 0, y: 0, z: 0 })
    }
}

/// The coordinate axis a boundary stands on: 0 for x, 1 for y, 2 for z.
pub open spec fn boundary_axis(b: Reflected) -> int {
    match b {
        Reflected::X0 | Reflected::X1 => 0,
        Reflected::Y0 | Reflected::Y1 => 1,
        Reflected::Z0 | Reflected::Z1 => 2,
        Reflected::No => 3,
    }
}

/// Plane reflection across boundary `b` of room `r`, x coordinate: the
/// lower boundary of an axis negates the coordinate, the upper one maps
/// it to twice the room extent minus the coordinate.
pub open spec fn mirror_x(p: Vec3, r: Room, b: Reflected) -> int {
    match b {
        Reflected::X0 => -p.x,
        Reflected::X1 => 2 * r.dimension.x - p.x,
        _ => p.x as int,
    }
}

/// Plane reflection, y coordinate.
pub open spec fn mirror_y(p: Vec3, r: Room, b: Reflected) -> int {
    match b {
        Reflected::Y0 => -p.y,
        Reflected::Y1 => 2 * r.dimension.y - p.y,
        _ => p.y as int,
    }
}

/// Plane reflection, z coordinate.
pub open spec fn mirror_z(p: Vec3, r: Room, b: Reflected) -> int {
    match b {
        Reflected::Z0 => -p.z,
        Reflected::Z1 => 2 * r.dimension.z - p.z,
        _ => p.z as int,
    }
}

/// `q` is the plane reflection of `p` across boundary `b` of room `r`.
pub open spec fn is_mirror_of(q: Vec3, p: Vec3, r: Room, b: Reflected) -> bool {
    q.x == mirror_x(p, r, b) && q.y == mirror_y(p, r, b) && q.z == mirror_z(p, r, b)
}

/// Image-source position: the source position mirrored across the named
/// room boundary.
pub fn calc_ism_position(source_position: &Vec3, r: &Room, b: &Reflected) -> (pos: Vec3)
    requires
        *b != Reflected::No,
        r.wf(),
        source_position.bounded(8 * COORD_LIMIT_MM as int),
    ensures
        is_mirror_of(pos, *source_position, *r, *b),
        pos.bounded(10 * COORD_LIMIT_MM as int),
{
    let mut position = *source_position;
    match b {
        Reflected::X0 => { position.x = -position.x },
        Reflected::X1 => { position.x = 2 * r.dimension.x - position.x },
        Reflected::Y0 => { position.y = -position.y },
        Reflected::Y1 => { position.y = 2 * r.dimension.y - position.y },
        Reflected::Z0 => { position.z = -position.z },
        Reflected::Z1 => { position.z = 2 * r.dimension.z - position.z },
        Reflected::No => { position = *source_position },
    }
    position
}

/// Mirroring across the same boundary twice gives the point back.
pub proof fn lemma_mirror_involution(p: Vec3, q1: Vec3, q2: Vec3, r: Room, b: Reflected)
    requires
        is_mirror_of(q1, p, r, b),
        is_mirror_of(q2, q1, r, b),
    ensures
        q2 == p,
{
}

/// Mirror maps across boundaries on different axes commute: the
/// second-order image does not depend on the order of the two
/// reflections.
pub proof fn lemma_mirror_commutes(
    p: Vec3,
    q1: Vec3,
    q12: Vec3,
    q2: Vec3,
    q21: Vec3,
    r: Room,
    b1: Reflected,
    b2: Reflected,
)
    requires
        boundary_axis(b1) != boundary_axis(b2),
        is_mirror_of(q1, p, r, b1),
        is_mirror_of(q12, q1, r, b2),
        is_mirror_of(q2, p, r, b2),
        is_mirror_of(q21, q2, r, b1),
    ensures
        q12 == q21,
{
}

/// Integer square root, binary-recursion form: the unique `r` with
/// `r * r <= n < (r + 1) * (r + 1)`.
pub open spec fn isqrt_spec(n: nat) -> nat
    decreases n,
{
    if n == 0 {
        0
    } else {
        let r = 2 * isqrt_spec(n / 4);
        if (r + 1) * (r + 1) <= n {
            r + 1
        } else {
            r
        }
    }
}

pub proof fn lemma_isqrt_bounds(n: nat)
    ensures
        isqrt_spec(n) * isqrt_spec(n) <= n,
        n < (isqrt_spec(n) + 1) * (isqrt_spec(n) + 1),
    decreases n,
{
    if n > 0 {
        lemma_isqrt_bounds(n / 4);
        let s = isqrt_spec(n / 4);
        assert(4 * (n / 4) <= n && n < 4 * (n / 4) + 4);
        assert((2 * s) * (2 * s) <= 4 * (n / 4)) by (nonlinear_arith)
            requires
                s * s <= n / 4,
        ;
        assert((2 * s + 2) * (2 * s + 2) >= 4 * (n / 4) + 4) by (nonlinear_arith)
            requires
                n / 4 < (s + 1) * (s + 1),
        ;
        let r = 2 * s;
        assert(r * r <= n);
        assert(n < (r + 2) * (r + 2));
        if (r + 1) * (r + 1) <= n {
            assert(isqrt_spec(n) == r + 1);
            assert(n < (isqrt_spec(n) + 1) * (isqrt_spec(n) + 1));
        } else {
            assert(isqrt_spec(n) == r);
            assert(isqrt_spec(n) * isqrt_spec(n) <= n);
        }
    } else {
        assert(isqrt_spec(n) == 0);
        assert(n < (isqrt_spec(n) + 1) * (isqrt_spec(n) + 1)) by (nonlinear_arith)
            requires
                n == 0,
                isqrt_spec(n) == 0,
        ;
    }
}

/// Executable integer square root of a non-negative 64-bit value.
pub fn isqrt(n: u64) -> (r: u64)
    ensures
        r == isqrt_spec(n as nat),
        r * r <= n,
        n < (r + 1) * (r + 1),
    decreases n,
{
    proof {
        lemma_isqrt_bounds(n as nat);
    }
    if n == 0 {
        0
    } else {
        let s = isqrt(n / 4);
        proof {
            assert(s < 0x80000000u64) by (nonlinear_arith)
                requires
                    s * s <= n as int / 4,
                    n as int / 4 < 0x4000000000000000,
            ;
        }
        let r = 2 * s;
        proof {
            lemma_isqrt_bounds((n / 4) as nat);
            assert((r + 1) * (r + 1) < 0x10000000000000000) by (nonlinear_arith)
                requires
                    0 <= r <= 0xfffffffe,
            ;
        }
        if (r + 1) * (r + 1) <= n {
            r + 1
        } else {
            r
        }
    }
}

/// The square of a value bounded by `m` in magnitude is non-negative
/// and at most `m * m`.
pub proof fn lemma_square_bound(a: int, m: int)
    requires
        -m <= a <= m,
    ensures
        0 <= a * a <= m * m,
{
    assert(0 <= a * a && a * a <= m * m) by (nonlinear_arith)
        requires
            -m <= a <= m,
    ;
}

/// Squared Euclidean distance between two points, as a mathematical value.
pub open spec fn dist_sq_spec(a: Vec3, b: Vec3) -> int {
    (a.x - b.x) * (a.x - b.x) + (a.y - b.y) * (a.y - b.y) + (a.z - b.z) * (a.z - b.z)
}

/// Euclidean distance between two points in millimetres, rounded down.
pub open spec fn dist_spec(a: Vec3, b: Vec3) -> int {
    isqrt_spec(dist_sq_spec(a, b) as nat) as int
}

/// Distance in millimetres between two bounded points.
pub fn calc_distance(v1: &Vec3, v2: &Vec3) -> (d: i64)
    requires
        v1.bounded(10 * COORD_LIMIT_MM as int),
        v2.bounded(10 * COORD_LIMIT_MM as int),
    ensures
        d == dist_spec(*v1, *v2),
        0 <= d <= 35 * COORD_LIMIT_MM as int,
{
    let dx = v1.x - v2.x;
    let dy = v1.y - v2.y;
    let dz = v1.z - v2.z;
    proof {
        lemma_square_bound(dx as int, 20 * COORD_LIMIT_MM as int);
        lemma_square_bound(dy as int, 20 * COORD_LIMIT_MM as int);
        lemma_square_bound(dz as int, 20 * COORD_LIMIT_MM as int);
    }
    let sq: u64 = (dx * dx) as u64 + (dy * dy) as u64 + (dz * dz) as u64;
    let d = isqrt(sq);
    proof {
        let lim: int = 35 * COORD_LIMIT_MM as int;
        assert(d <= lim) by (nonlinear_arith)
            requires
                d * d <= sq,
                sq <= 3 * ((20 * COORD_LIMIT_MM as int) * (20 * COORD_LIMIT_MM as int)),
                lim == 35 * COORD_LIMIT_MM as int,
                d >= 0,
        ;
    }
    d as i64
}

/// Squared quaternion scale: rotating scales twice by 2^14, so results
/// are brought back by dividing by 2^28.
pub const QUAT_SCALE_SQ: i64 = 0x1000_0000;

/// Division by the squared quaternion scale, truncated toward zero.
pub open spec fn div_scale_sq(num: int) -> int {
    if num >= 0 {
        num / (QUAT_SCALE_SQ as int)
    } else {
        -((-num) / (QUAT_SCALE_SQ as int))
    }
}

/// Executable truncated division by the squared quaternion scale.
pub fn div_scale_sq_exec(num: i64) -> (r: i64)
    requires
        -0x7fff_ffff_ffff_ffff <= num,
    ensures
        r == div_scale_sq(num as int),
        num >= 0 ==> 0 <= r <= num,
        num < 0 ==> num <= r <= 0,
{
    proof {
        if num >= 0 {
            assert(0 <= num as int / (QUAT_SCALE_SQ as int) <= num);
        } else {
            assert(0 <= (-num) as int / (QUAT_SCALE_SQ as int) <= -num);
        }
    }
    if num >= 0 {
        ((num as u64) / (QUAT_SCALE_SQ as u64)) as i64
    } else {
        -((((-num) as u64) / (QUAT_SCALE_SQ as u64)) as i64)
    }
}

/// Doubled cross product of the quaternion's vector part with `v`,
/// x component; the first half of the rotation formula.
pub open spec fn rot_tx(q: Quat, v: Vec3) -> int {
    2 * (q.y * v.z - q.z * v.y)
}

/// Doubled cross product, y component.
pub open spec fn rot_ty(q: Quat, v: Vec3) -> int {
    2 * (q.z * v.x - q.x * v.z)
}

/// Doubled cross product, z component.
pub open spec fn rot_tz(q: Quat, v: Vec3) -> int {
    2 * (q.x * v.y - q.y * v.x)
}

/// Scaled rotation offset, x component: `w * t + u x t`, still carrying
/// the squared quaternion scale.
pub open spec fn rot_delta_x(q: Quat, v: Vec3) -> int {
    q.w * rot_tx(q, v) + (q.y * rot_tz(q, v) - q.z * rot_ty(q, v))
}

/// Scaled rotation offset, y component.
pub open spec fn rot_delta_y(q: Quat, v: Vec3) -> int {
    q.w * rot_ty(q, v) + (q.z * rot_tx(q, v) - q.x * rot_tz(q, v))
}

/// Scaled rotation offset, z component.
pub open spec fn rot_delta_z(q: Quat, v: Vec3) -> int {
    q.w * rot_tz(q, v) + (q.x * rot_ty(q, v) - q.y * rot_tx(q, v))
}

/// `r` is `v` rotated by the unit quaternion `q` on the fixed-point
/// grid: `v + (w t + u x t) / 2^28` with `t = 2 (u x v)`, each
/// component truncated toward zero.
pub open spec fn is_rotated(q: Quat, v: Vec3, r: Vec3) -> bool {
    &&& r.x == v.x + div_scale_sq(rot_delta_x(q, v))
    &&& r.y == v.y + div_scale_sq(rot_delta_y(q, v))
    &&& r.z == v.z + div_scale_sq(rot_delta_z(q, v))
}

/// Magnitude bound of a product of bounded factors.
pub proof fn lemma_mul_bound(a: int, b: int, ma: int, mb: int)
    requires
        -ma <= a <= ma,
        -mb <= b <= mb,
        0 <= ma,
        0 <= mb,
    ensures
        -(ma * mb) <= a * b <= ma * mb,
{
    assert(-(ma * mb) <= a * b <= ma * mb) by (nonlinear_arith)
        requires
            -ma <= a <= ma,
            -mb <= b <= mb,
            0 <= ma,
            0 <= mb,
    ;
}

/// The conjugate of a quaternion: the vector part negated.  For a unit
/// quaternion it is the inverse rotation.
pub open spec fn quat_conj_spec(q: Quat) -> Quat {
    Quat { w: q.w, x: (-q.x) as i64, y: (-q.y) as i64, z: (-q.z) as i64 }
}

/// The conjugate, which for a unit quaternion is its inverse rotation.
pub fn quat_conjugate(q: &Quat) -> (r: Quat)
    requires
        q.wf(),
    ensures
        r.wf(),
        r == quat_conj_spec(*q),
{
    Quat { w: q.w, x: -q.x, y: -q.y, z: -q.z }
}

/// Rotate `v` by the unit quaternion `q`, exactly as `is_rotated`
/// states.
pub fn rotate_vector(q: &Quat, v: &Vec3) -> (r: Vec3)
    requires
        q.wf(),
        v.bounded(100_000_000),
    ensures
        is_rotated(*q, *v, r),
        r.bounded(2_000_000_000),
{
    let vb: i64 = 100_000_000;
    let tb: i64 = 4 * QUAT_ONE_Q14 * vb;
    proof {
        lemma_mul_bound(q.y as int, v.z as int, QUAT_ONE_Q14 as int, vb as int);
        lemma_mul_bound(q.z as int, v.y as int, QUAT_ONE_Q14 as int, vb as int);
        lemma_mul_bound(q.z as int, v.x as int, QUAT_ONE_Q14 as int, vb as int);
        lemma_mul_bound(q.x as int, v.z as int, QUAT_ONE_Q14 as int, vb as int);
        lemma_mul_bound(q.x as int, v.y as int, QUAT_ONE_Q14 as int, vb as int);
        lemma_mul_bound(q.y as int, v.x as int, QUAT_ONE_Q14 as int, vb as int);
    }
    let tx = 2 * (q.y * v.z - q.z * v.y);
    let ty = 2 * (q.z * v.x - q.x * v.z);
    let tz = 2 * (q.x * v.y - q.y * v.x);
    proof {
        lemma_mul_bound(q.w as int, tx as int, QUAT_ONE_Q14 as int, tb as int);
        lemma_mul_bound(q.w as int, ty as int, QUAT_ONE_Q14 as int, tb as int);
        lemma_mul_bound(q.w as int, tz as int, QUAT_ONE_Q14 as int, tb as int);
        lemma_mul_bound(q.y as int, tz as int, QUAT_ONE_Q14 as int, tb as int);
        lemma_mul_bound(q.z as int, ty as int, QUAT_ONE_Q14 as int, tb as int);
        lemma_mul_bound(q.z as int, tx as int, QUAT_ONE_Q14 as int, tb as int);
        lemma_mul_bound(q.x as int, tz as int, QUAT_ONE_Q14 as int, tb as int);
        lemma_mul_bound(q.x as int, ty as int, QUAT_ONE_Q14 as int, tb as int);
        lemma_mul_bound(q.y as int, tx as int, QUAT_ONE_Q14 as int, tb as int);
    }
    let dx = q.w * tx + (q.y * tz - q.z * ty);
    let dy = q.w * ty + (q.z * tx - q.x * tz);
    let dz = q.w * tz + (q.x * ty - q.y * tx);
    let ox = div_scale_sq_exec(dx);
    let oy = div_scale_sq_exec(dy);
    let oz = div_scale_sq_exec(dz);
    Vec3 { x: v.x + ox, y: v.y + oy, z: v.z + oz }
}

} // verus!
