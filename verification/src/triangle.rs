//! Triangles: the Möller–Trumbore intersection carried out in exact
//! integer arithmetic, with sign-normalized barycentric tests.

use vstd::prelude::*;
use crate::aabb::{AABB, aabb_wf};
use crate::material::{Material, material_wf};
use crate::math::{iabs, CMAX, RMAX};
use crate::ratio::{Rat, rat_wf, lemma_mul_bound, in_open_range, check_open_range};
use crate::ray::{Ray, ray_wf, point_comp, t_in_window, lemma_window};
use crate::sphere::HitData;
use crate::vec3::{Vec3, bounded, dot3, lemma_dot_bound, lemma_cross_bound};

verus! {

pub struct Triangle {
    pub p1: Vec3,
    pub p2: Vec3,
    pub p3: Vec3,
    pub normal: Vec3,
    pub material: Material,
}

pub open spec fn triangle_wf(t: Triangle) -> bool {
    &&& bounded(t.p1, CMAX as int)
    &&& bounded(t.p2, CMAX as int)
    &&& bounded(t.p3, CMAX as int)
    &&& bounded(t.normal, 2048)
    &&& material_wf(t.material)
}

pub open spec fn imin3(a: int, b: int, c: int) -> int {
    if a <= b && a <= c { a } else if b <= c { b } else { c }
}

pub open spec fn imax3(a: int, b: int, c: int) -> int {
    if a >= b && a >= c { a } else if b >= c { b } else { c }
}

/// The accepted ray parameter as an exact rational `(num, den)`
/// (`den = |det|`): the Möller–Trumbore solution when the determinant is
/// non-zero, the barycentric coordinates lie in the triangle, and the
/// parameter is positive and inside the open window.
pub open spec fn tri_pick(t: Triangle, r: Ray, tmin: Rat, tmax: Rat) -> Option<(int, int)> {
    let e1x = t.p2.x - t.p1.x;
    let e1y = t.p2.y - t.p1.y;
    let e1z = t.p2.z - t.p1.z;
    let e2x = t.p3.x - t.p1.x;
    let e2y = t.p3.y - t.p1.y;
    let e2z = t.p3.z - t.p1.z;
    let hx = r.direction.y * e2z - r.direction.z * e2y;
    let hy = r.direction.z * e2x - r.direction.x * e2z;
    let hz = r.direction.x * e2y - r.direction.y * e2x;
    let a = e1x * hx + e1y * hy + e1z * hz;
    if a == 0 {
        None
    } else {
        let aa = if a > 0 { a } else { -a };
        let sx = r.origin.x - t.p1.x;
        let sy = r.origin.y - t.p1.y;
        let sz = r.origin.z - t.p1.z;
        let u0 = sx * hx + sy * hy + sz * hz;
        let un = if a > 0 { u0 } else { -u0 };
        if un < 0 || un > aa {
            None
        } else {
            let qx = sy * e1z - sz * e1y;
            let qy = sz * e1x - sx * e1z;
            let qz = sx * e1y - sy * e1x;
            let v0 = r.direction.x * qx + r.direction.y * qy + r.direction.z * qz;
            let vn = if a > 0 { v0 } else { -v0 };
            if vn < 0 || un + vn > aa {
                None
            } else {
                let t0 = e2x * qx + e2y * qy + e2z * qz;
                let tn = if a > 0 { t0 } else { -t0 };
                if tn > 0 && in_open_range(tn, aa, tmin, tmax) {
                    Some((tn, aa))
                } else {
                    None
                }
            }
        }
    }
}

/// The exact ray point at `(num, den)` lies strictly inside the padded
/// vertex extent of the triangle on every axis.
pub open spec fn tri_within(t: Triangle, r: Ray, num: int, den: int) -> bool {
    &&& (imin3(t.p1.x as int, t.p2.x as int, t.p3.x as int) - 1) * den
            < r.origin.x * den + num * r.direction.x
            < (imax3(t.p1.x as int, t.p2.x as int, t.p3.x as int) + 1) * den
    &&& (imin3(t.p1.y as int, t.p2.y as int, t.p3.y as int) - 1) * den
            < r.origin.y * den + num * r.direction.y
            < (imax3(t.p1.y as int, t.p2.y as int, t.p3.y as int) + 1) * den
    &&& (imin3(t.p1.z as int, t.p2.z as int, t.p3.z as int) - 1) * den
            < r.origin.z * den + num * r.direction.z
            < (imax3(t.p1.z as int, t.p2.z as int, t.p3.z as int) + 1) * den
}

/// Everything `Triangle::hit` can return: the stored face normal is
/// flipped to face the incoming ray backward.
pub open spec fn tri_hit_match(t: Triangle, r: Ray, tmin: Rat, tmax: Rat,
    res: Option<HitData>) -> bool {
    match tri_pick(t, r, tmin, tmax) {
        None => res is None,
        Some((num, den)) => {
            if tri_within(t, r, num, den) {
                &&& res is Some
                &&& {
                    let h = res->0;
                    let flip = dot3(r.direction, t.normal) >= 0;
                    &&& h.t.num == num
                    &&& h.t.den == den
                    &&& rat_wf(h.t)
                    &&& h.p.x == point_comp(r.origin.x as int, r.direction.x as int, h.t)
                    &&& h.p.y == point_comp(r.origin.y as int, r.direction.y as int, h.t)
                    &&& h.p.z == point_comp(r.origin.z as int, r.direction.z as int, h.t)
                    &&& h.normal.x == if flip { -t.normal.x as int } else { t.normal.x as int }
                    &&& h.normal.y == if flip { -t.normal.y as int } else { t.normal.y as int }
                    &&& h.normal.z == if flip { -t.normal.z as int } else { t.normal.z as int }
                }
            } else {
                res is None
            }
        },
    }
}

fn min3e(a: i64, b: i64, c: i64) -> (r: i64)
    ensures r == imin3(a as int, b as int, c as int),
{
    if a <= b && a <= c { a } else if b <= c { b } else { c }
}

fn max3e(a: i64, b: i64, c: i64) -> (r: i64)
    ensures r == imax3(a as int, b as int, c as int),
{
    if a >= b && a >= c { a } else if b >= c { b } else { c }
}

impl Triangle {
    pub fn new(p1: Vec3, p2: Vec3, p3: Vec3, normal: Vec3, material: Material) -> (t: Triangle)
        ensures
            t.p1 == p1 && t.p2 == p2 && t.p3 == p3 && t.normal == normal && t.material == material,
    {
        Triangle { p1, p2, p3, normal, material }
    }

    /// The vertex extent padded by one grid step on every face, so the
    /// flat box still passes the strict slab test.
    pub fn bounding_box(&self) -> (b: AABB)
        requires
            triangle_wf(*self),
        ensures
            aabb_wf(b),
            b.min.x == imin3(self.p1.x as int, self.p2.x as int, self.p3.x as int) - 1,
            b.min.y == imin3(self.p1.y as int, self.p2.y as int, self.p3.y as int) - 1,
            b.min.z == imin3(self.p1.z as int, self.p2.z as int, self.p3.z as int) - 1,
            b.max.x == imax3(self.p1.x as int, self.p2.x as int, self.p3.x as int) + 1,
            b.max.y == imax3(self.p1.y as int, self.p2.y as int, self.p3.y as int) + 1,
            b.max.z == imax3(self.p1.z as int, self.p2.z as int, self.p3.z as int) + 1,
    {
        AABB {
            min: Vec3 {
                x: min3e(self.p1.x, self.p2.x, self.p3.x) - 1,
                y: min3e(self.p1.y, self.p2.y, self.p3.y) - 1,
                z: min3e(self.p1.z, self.p2.z, self.p3.z) - 1,
            },
            max: Vec3 {
                x: max3e(self.p1.x, self.p2.x, self.p3.x) + 1,
                y: max3e(self.p1.y, self.p2.y, self.p3.y) + 1,
                z: max3e(self.p1.z, self.p2.z, self.p3.z) + 1,
            },
        }
    }

    /// Möller–Trumbore over exact integers: determinant, barycentric
    /// numerators and parameter numerator, all sign-normalized by the
    /// determinant's sign; the accepted point is checked against the
    /// padded extent.
    pub fn hit(&self, t_min: &Rat, t_max: &Rat, r: &Ray) -> (res: Option<HitData>)
        requires
            triangle_wf(*self),
            ray_wf(*r),
            rat_wf(*t_min),
            rat_wf(*t_max),
            t_in_window(*t_min),
            t_in_window(*t_max),
        ensures
            tri_hit_match(*self, *r, *t_min, *t_max, res),
            res is Some ==> crate::sphere::hitdata_wf(res->0)
                && tri_within(*self, *r, (res->0).t.num as int, (res->0).t.den as int)
                && in_open_range((res->0).t.num as int, (res->0).t.den as int, *t_min, *t_max),
    {
        let e1 = Vec3 {
            x: self.p2.x - self.p1.x,
            y: self.p2.y - self.p1.y,
            z: self.p2.z - self.p1.z,
        };
        let e2 = Vec3 {
            x: self.p3.x - self.p1.x,
            y: self.p3.y - self.p1.y,
            z: self.p3.z - self.p1.z,
        };
        proof {
            lemma_cross_bound(r.direction, e2, 8192, 262144);
        }
        let h = (&r.direction).cross(&e2);
        proof {
            lemma_dot_bound(e1, h, 262144, 4294967296);
        }
        let a = e1.dot(&h);
        if a == 0 {
            return None;
        }
        let s = Vec3 {
            x: r.origin.x - self.p1.x,
            y: r.origin.y - self.p1.y,
            z: r.origin.z - self.p1.z,
        };
        proof {
            lemma_dot_bound(s, h, 2228224, 4294967296);
        }
        let un0 = s.dot(&h);
        let aa = if a > 0 { a } else { -a };
        let un = if a > 0 { un0 } else { -un0 };
        if un < 0 || un > aa {
            return None;
        }
        proof {
            lemma_cross_bound(s, e1, 2228224, 262144);
        }
        let q = s.cross(&e1);
        proof {
            lemma_dot_bound(r.direction, q, 8192, 1168231104512);
        }
        let vn0 = (&r.direction).dot(&q);
        let vn = if a > 0 { vn0 } else { -vn0 };
        if vn < 0 || un + vn > aa {
            return None;
        }
        proof {
            lemma_dot_bound(e2, q, 262144, 1168231104512);
        }
        let tn0 = e2.dot(&q);
        let tn = if a > 0 { tn0 } else { -tn0 };
        if !(tn > 0 && check_open_range(tn, aa, t_min, t_max)) {
            return None;
        }
        let t = Rat { num: tn, den: aa };
        proof {
            lemma_window(*t_min, *t_max, t.num as int, t.den as int);
        }
        let b = self.bounding_box();
        if !crate::aabb::inside_box(&b, r, &t) {
            return None;
        }
        let p = r.point_at_parameter(&t);
        proof {
            lemma_dot_bound(r.direction, self.normal, 8192, 2048);
        }
        let dn = (&r.direction).dot(&self.normal);
        let n = if dn >= 0 {
            Vec3 { x: -self.normal.x, y: -self.normal.y, z: -self.normal.z }
        } else {
            self.normal
        };
        Some(HitData { t, p, normal: n })
    }
}

} // verus!
