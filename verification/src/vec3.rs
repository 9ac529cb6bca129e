//! Integer vectors on the fixed-point grid, with exact dot and cross
//! products computed through `i128` intermediates.

use vstd::prelude::*;
use crate::math::{iabs, isqrt, isqrt_spec, fdiv, clamp_spec, clamp64, UNIT};
use crate::ratio::lemma_mul_bound;

verus! {

#[derive(Clone, Copy, Debug, PartialEq, Eq, Structural)]
pub struct Vec3 {
    pub x: i64,
    pub y: i64,
    pub z: i64,
}

/// Every component has magnitude at most `m`.
pub open spec fn bounded(v: Vec3, m: int) -> bool {
    iabs(v.x as int) <= m && iabs(v.y as int) <= m && iabs(v.z as int) <= m
}

/// The exact dot product, over unbounded integers.
pub open spec fn dot3(a: Vec3, b: Vec3) -> int {
    a.x * b.x + a.y * b.y + a.z * b.z
}

/// The products in the dot product fit `i64` by absolute value, so the
/// `i128` computation cannot overflow and the result fits `i64`.
pub open spec fn dot_ok(a: Vec3, b: Vec3) -> bool {
    iabs(a.x * b.x) + iabs(a.y * b.y) + iabs(a.z * b.z) <= i64::MAX
}

pub proof fn lemma_dot_bound(a: Vec3, b: Vec3, ma: int, mb: int)
    requires
        bounded(a, ma),
        bounded(b, mb),
        0 <= ma,
        0 <= mb,
    ensures
        iabs(dot3(a, b)) <= 3 * ma * mb,
        iabs(a.x * b.x) + iabs(a.y * b.y) + iabs(a.z * b.z) <= 3 * ma * mb,
{
    lemma_mul_bound(a.x as int, b.x as int, ma, mb);
    lemma_mul_bound(a.y as int, b.y as int, ma, mb);
    lemma_mul_bound(a.z as int, b.z as int, ma, mb);
    assert(iabs(dot3(a, b)) <= 3 * ma * mb
        && iabs(a.x * b.x) + iabs(a.y * b.y) + iabs(a.z * b.z) <= 3 * ma * mb) by (nonlinear_arith)
        requires
            iabs(a.x * b.x) <= ma * mb,
            iabs(a.y * b.y) <= ma * mb,
            iabs(a.z * b.z) <= ma * mb,
            dot3(a, b) == a.x * b.x + a.y * b.y + a.z * b.z,
    ;
}

pub proof fn lemma_cross_bound(a: Vec3, b: Vec3, ma: int, mb: int)
    requires
        bounded(a, ma),
        bounded(b, mb),
        0 <= ma,
        0 <= mb,
    ensures
        iabs(a.y * b.z) + iabs(a.z * b.y) <= 2 * ma * mb,
        iabs(a.z * b.x) + iabs(a.x * b.z) <= 2 * ma * mb,
        iabs(a.x * b.y) + iabs(a.y * b.x) <= 2 * ma * mb,
        iabs(a.y * b.z - a.z * b.y) <= 2 * ma * mb,
        iabs(a.z * b.x - a.x * b.z) <= 2 * ma * mb,
        iabs(a.x * b.y - a.y * b.x) <= 2 * ma * mb,
{
    lemma_mul_bound(a.x as int, b.y as int, ma, mb);
    lemma_mul_bound(a.x as int, b.z as int, ma, mb);
    lemma_mul_bound(a.y as int, b.x as int, ma, mb);
    lemma_mul_bound(a.y as int, b.z as int, ma, mb);
    lemma_mul_bound(a.z as int, b.x as int, ma, mb);
    lemma_mul_bound(a.z as int, b.y as int, ma, mb);
    assert(iabs(a.y * b.z) + iabs(a.z * b.y) <= 2 * ma * mb
        && iabs(a.z * b.x) + iabs(a.x * b.z) <= 2 * ma * mb
        && iabs(a.x * b.y) + iabs(a.y * b.x) <= 2 * ma * mb) by (nonlinear_arith)
        requires
            iabs(a.x * b.y) <= ma * mb,
            iabs(a.x * b.z) <= ma * mb,
            iabs(a.y * b.x) <= ma * mb,
            iabs(a.y * b.z) <= ma * mb,
            iabs(a.z * b.x) <= ma * mb,
            iabs(a.z * b.y) <= ma * mb,
    ;
}

impl Vec3 {
    pub fn zero_vector() -> (r: Vec3)
        ensures
            r.x == 0 && r.y == 0 && r.z == 0,
    {
        Vec3 { x: 0, y: 0, z: 0 }
    }

    pub fn new(x: i64, y: i64, z: i64) -> (r: Vec3)
        ensures
            r.x == x && r.y == y && r.z == z,
    {
        Vec3 { x, y, z }
    }

    pub fn x(&self) -> (r: i64)
        ensures r == self.x,
    {
        self.x
    }

    pub fn y(&self) -> (r: i64)
        ensures r == self.y,
    {
        self.y
    }

    pub fn z(&self) -> (r: i64)
        ensures r == self.z,
    {
        self.z
    }

    pub fn add(&self, o: &Vec3) -> (r: Vec3)
        requires
            iabs(self.x + o.x) <= i64::MAX,
            iabs(self.y + o.y) <= i64::MAX,
            iabs(self.z + o.z) <= i64::MAX,
        ensures
            r.x == self.x + o.x,
            r.y == self.y + o.y,
            r.z == self.z + o.z,
    {
        Vec3 { x: self.x + o.x, y: self.y + o.y, z: self.z + o.z }
    }

    pub fn sub(&self, o: &Vec3) -> (r: Vec3)
        requires
            iabs(self.x - o.x) <= i64::MAX,
            iabs(self.y - o.y) <= i64::MAX,
            iabs(self.z - o.z) <= i64::MAX,
        ensures
            r.x == self.x - o.x,
            r.y == self.y - o.y,
            r.z == self.z - o.z,
    {
        Vec3 { x: self.x - o.x, y: self.y - o.y, z: self.z - o.z }
    }

    /// The exact dot product; the precondition keeps the `i128`
    /// intermediates and the result in range.
    pub fn dot(&self, o: &Vec3) -> (r: i64)
        requires
            dot_ok(*self, *o),
        ensures
            r == dot3(*self, *o),
    {
        let px = (self.x as i128) * (o.x as i128);
        let py = (self.y as i128) * (o.y as i128);
        let pz = (self.z as i128) * (o.z as i128);
        (px + py + pz) as i64
    }

    /// The exact cross product; the precondition keeps each component
    /// in `i64` range.
    pub fn cross(&self, o: &Vec3) -> (r: Vec3)
        requires
            iabs(self.y * o.z) + iabs(self.z * o.y) <= i64::MAX,
            iabs(self.z * o.x) + iabs(self.x * o.z) <= i64::MAX,
            iabs(self.x * o.y) + iabs(self.y * o.x) <= i64::MAX,
        ensures
            r.x == self.y * o.z - self.z * o.y,
            r.y == self.z * o.x - self.x * o.z,
            r.z == self.x * o.y - self.y * o.x,
    {
        let x = ((self.y as i128) * (o.z as i128) - (self.z as i128) * (o.y as i128)) as i64;
        let y = ((self.z as i128) * (o.x as i128) - (self.x as i128) * (o.z as i128)) as i64;
        let z = ((self.x as i128) * (o.y as i128) - (self.y as i128) * (o.x as i128)) as i64;
        Vec3 { x, y, z }
    }

    /// The squared euclidean length.
    pub fn squared_length(&self) -> (r: i64)
        requires
            dot_ok(*self, *self),
        ensures
            r == dot3(*self, *self),
            r >= 0,
    {
        proof {
            assert(dot3(*self, *self) >= 0) by (nonlinear_arith);
        }
        self.dot(self)
    }

    /// The euclidean length, rounded down to the grid.
    pub fn length(&self) -> (r: i64)
        requires
            dot_ok(*self, *self),
        ensures
            r as nat == isqrt_spec(dot3(*self, *self) as nat),
            r * r <= dot3(*self, *self),
            dot3(*self, *self) < (r + 1) * (r + 1),
            0 <= r,
    {
        let sq = self.squared_length();
        let r = isqrt(sq as u128);
        proof {
            assert(r < 0x1_0000_0000u128) by (nonlinear_arith)
                requires (r as int) * (r as int) <= sq as int, sq <= i64::MAX;
        }
        r as i64
    }

    /// Component-wise clamp into the box `[min, max]`.
    pub fn clamp(&self, min: Vec3, max: Vec3) -> (r: Vec3)
        requires
            min.x <= max.x && min.y <= max.y && min.z <= max.z,
        ensures
            r.x == clamp_spec(self.x as int, min.x as int, max.x as int),
            r.y == clamp_spec(self.y as int, min.y as int, max.y as int),
            r.z == clamp_spec(self.z as int, min.z as int, max.z as int),
    {
        Vec3 {
            x: clamp64(self.x, min.x, max.x),
            y: clamp64(self.y, min.y, max.y),
            z: clamp64(self.z, min.z, max.z),
        }
    }

    /// What `unit_vector` computes: each component scaled by `UNIT` and
    /// divided by the rounded length.
    pub open spec fn unit_spec(v: Vec3, c: int) -> int {
        let len = isqrt_spec(dot3(v, v) as nat);
        if len == 0 { 0 } else { (c * UNIT) / (len as int) }
    }

    /// The whole unit-scaled vector, as a value.
    pub open spec fn unit_spec3(v: Vec3) -> Vec3 {
        Vec3 {
            x: Self::unit_spec(v, v.x as int) as i64,
            y: Self::unit_spec(v, v.y as int) as i64,
            z: Self::unit_spec(v, v.z as int) as i64,
        }
    }

    /// Scales `v` to fixed-point unit length (rounded toward minus
    /// infinity); the zero vector stays zero.
    pub fn unit_vector(v: Vec3) -> (r: Vec3)
        requires
            dot_ok(v, v),
        ensures
            r.x == Self::unit_spec(v, v.x as int),
            r.y == Self::unit_spec(v, v.y as int),
            r.z == Self::unit_spec(v, v.z as int),
            r == Self::unit_spec3(v),
            bounded(r, 2 * UNIT),
    {
        let len = v.length();
        if len == 0 {
            Vec3 { x: 0, y: 0, z: 0 }
        } else {
            proof {
                assert(v.x as int * v.x as int <= dot3(v, v)
                    && v.y as int * v.y as int <= dot3(v, v)
                    && v.z as int * v.z as int <= dot3(v, v)) by (nonlinear_arith);
            }
            Vec3 {
                x: Self::unit_comp(v.x, len, Ghost(v)),
                y: Self::unit_comp(v.y, len, Ghost(v)),
                z: Self::unit_comp(v.z, len, Ghost(v)),
            }
        }
    }

    /// Rescales the vector in place to fixed-point unit length.
    pub fn normalize(&mut self)
        requires
            dot_ok(*old(self), *old(self)),
        ensures
            *final(self) == Self::unit_spec3(*old(self)),
            bounded(*final(self), 2 * UNIT),
    {
        *self = Self::unit_vector(*self);
    }

    fn unit_comp(c: i64, len: i64, v: Ghost<Vec3>) -> (r: i64)
        requires
            1 <= len,
            (len as nat) == isqrt_spec(dot3(v@, v@) as nat),
            len * len <= dot3(v@, v@) <= i64::MAX,
            dot3(v@, v@) < (len + 1) * (len + 1),
            (c as int) * (c as int) <= dot3(v@, v@),
        ensures
            r == Self::unit_spec(v@, c as int),
            iabs(r as int) <= 2 * UNIT,
    {
        proof {
            assert(iabs(c as int) <= len && len < 0x1_0000_0000) by (nonlinear_arith)
                requires
                    (c as int) * (c as int) <= dot3(v@, v@),
                    dot3(v@, v@) < (len + 1) * (len + 1),
                    len * len <= dot3(v@, v@) <= i64::MAX,
                    len >= 1,
            ;
            assert(iabs((c as int) * (UNIT as int)) <= (len as int) * 1024) by (nonlinear_arith)
                requires iabs(c as int) <= len as int, len >= 1, UNIT == 1024;
        }
        let q = fdiv((c as i128) * (UNIT as i128), len as i128);
        proof {
            let cu = (c as int) * (UNIT as int);
            assert(iabs(q as int) <= 2 * UNIT) by (nonlinear_arith)
                requires
                    (len as int) * (q as int) <= cu < (len as int) * (q as int + 1),
                    iabs(cu) <= (len as int) * 1024,
                    len >= 1,
                    UNIT == 1024,
            ;
        }
        q as i64
    }
}

} // verus!
