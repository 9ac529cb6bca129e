//! Spheres: the quadratic ray intersection over exact integers, with the
//! discriminant's square root rounded down to the grid.

use vstd::prelude::*;
use crate::aabb::{AABB, aabb_wf};
use crate::material::{Material, material_wf};
use crate::math::{clamp_spec, clamp64, fdiv, iabs, isqrt, isqrt_spec, CMAX, PMAX, RMAX};
use crate::ratio::{Rat, rat_wf, lemma_mul_bound, in_open_range, check_open_range};
use crate::ray::{Ray, ray_wf, point_comp, t_in_window};
use crate::vec3::{Vec3, bounded, dot3, lemma_dot_bound};

verus! {

pub struct Sphere {
    pub center: Vec3,
    pub radius: i64,
    pub material: Material,
}

pub open spec fn sphere_wf(s: Sphere) -> bool {
    &&& bounded(s.center, CMAX as int)
    &&& iabs(s.radius as int) <= CMAX
    &&& material_wf(s.material)
}

/// The accepted root of `|o + t d - c|^2 = r^2` as an exact rational
/// `(num, den)`: the nearer root if it lies in the open window, else the
/// farther one, else nothing. The square root of the discriminant is
/// rounded down to an integer.
pub open spec fn sphere_pick(s: Sphere, r: Ray, tmin: Rat, tmax: Rat) -> Option<(int, int)> {
    let ocx = r.origin.x - s.center.x;
    let ocy = r.origin.y - s.center.y;
    let ocz = r.origin.z - s.center.z;
    let a = dot3(r.direction, r.direction);
    let b = ocx * r.direction.x + ocy * r.direction.y + ocz * r.direction.z;
    let c = ocx * ocx + ocy * ocy + ocz * ocz - s.radius * s.radius;
    let disc = b * b - a * c;
    if a > 0 && disc > 0 && s.radius != 0 {
        let sq = isqrt_spec(disc as nat) as int;
        if in_open_range(-b - sq, a, tmin, tmax) {
            Some((-b - sq, a))
        } else if in_open_range(-b + sq, a, tmin, tmax) {
            Some((-b + sq, a))
        } else {
            None
        }
    } else {
        None
    }
}

/// The exact ray point at `(num, den)` lies strictly inside the padded
/// extent of the sphere on every axis.
pub open spec fn sphere_within(s: Sphere, r: Ray, num: int, den: int) -> bool {
    &&& (s.center.x - iabs(s.radius as int) - 1) * den < r.origin.x * den + num * r.direction.x
            < (s.center.x + iabs(s.radius as int) + 1) * den
    &&& (s.center.y - iabs(s.radius as int) - 1) * den < r.origin.y * den + num * r.direction.y
            < (s.center.y + iabs(s.radius as int) + 1) * den
    &&& (s.center.z - iabs(s.radius as int) - 1) * den < r.origin.z * den + num * r.direction.z
            < (s.center.z + iabs(s.radius as int) + 1) * den
}

/// One component of the outward normal `(p - c) / radius`, scaled to
/// `UNIT` length and clamped; a negative radius flips it inward.
pub open spec fn sphere_normal_comp(p_i: int, c_i: int, radius: int) -> int {
    let base = ((p_i - c_i) * 1024) / iabs(radius);
    clamp_spec(if radius < 0 { -base } else { base }, -2048, 2048)
}

/// Everything `Sphere::hit` can return: `None` exactly when no root is
/// accepted or the accepted point escapes the padded extent; otherwise
/// the accepted root with the rounded point and the scaled normal.
pub open spec fn sphere_hit_match(s: Sphere, r: Ray, tmin: Rat, tmax: Rat,
    res: Option<HitData>) -> bool {
    match sphere_pick(s, r, tmin, tmax) {
        None => res is None,
        Some((num, den)) => {
            if sphere_within(s, r, num, den) {
                &&& res is Some
                &&& {
                    let h = res->0;
                    &&& h.t.num == num
                    &&& h.t.den == den
                    &&& rat_wf(h.t)
                    &&& h.p.x == point_comp(r.origin.x as int, r.direction.x as int, h.t)
                    &&& h.p.y == point_comp(r.origin.y as int, r.direction.y as int, h.t)
                    &&& h.p.z == point_comp(r.origin.z as int, r.direction.z as int, h.t)
                    &&& h.normal.x == sphere_normal_comp(h.p.x as int, s.center.x as int, s.radius as int)
                    &&& h.normal.y == sphere_normal_comp(h.p.y as int, s.center.y as int, s.radius as int)
                    &&& h.normal.z == sphere_normal_comp(h.p.z as int, s.center.z as int, s.radius as int)
                }
            } else {
                res is None
            }
        },
    }
}

/// A transient intersection: the ray parameter, the grid point, and the
/// `UNIT`-scaled normal.
#[derive(Clone, Copy, Debug, PartialEq, Eq, Structural)]
pub struct HitData {
    pub t: Rat,
    pub p: Vec3,
    pub normal: Vec3,
}

pub open spec fn hitdata_wf(h: HitData) -> bool {
    &&& rat_wf(h.t)
    &&& bounded(h.p, 18874369)
    &&& bounded(h.normal, 2048)
}

impl Sphere {
    pub fn new(center: Vec3, radius: i64, material: Material) -> (s: Sphere)
        ensures
            s.center == center,
            s.radius == radius,
            s.material == material,
    {
        Sphere { center, radius, material }
    }

    /// The padded axis-aligned extent `[c - |r| - 1, c + |r| + 1]`.
    pub fn bounding_box(&self) -> (b: AABB)
        requires
            sphere_wf(*self),
        ensures
            aabb_wf(b),
            b.min.x == self.center.x - iabs(self.radius as int) - 1,
            b.min.y == self.center.y - iabs(self.radius as int) - 1,
            b.min.z == self.center.z - iabs(self.radius as int) - 1,
            b.max.x == self.center.x + iabs(self.radius as int) + 1,
            b.max.y == self.center.y + iabs(self.radius as int) + 1,
            b.max.z == self.center.z + iabs(self.radius as int) + 1,
    {
        let ra = if self.radius < 0 { -self.radius } else { self.radius };
        AABB {
            min: Vec3 {
                x: self.center.x - ra - 1,
                y: self.center.y - ra - 1,
                z: self.center.z - ra - 1,
            },
            max: Vec3 {
                x: self.center.x + ra + 1,
                y: self.center.y + ra + 1,
                z: self.center.z + ra + 1,
            },
        }
    }

    /// Solves the sphere quadratic exactly and reports the nearest root
    /// in the open window, with the point checked against the padded
    /// extent.
    pub fn hit(&self, t_min: &Rat, t_max: &Rat, r: &Ray) -> (res: Option<HitData>)
        requires
            sphere_wf(*self),
            ray_wf(*r),
            rat_wf(*t_min),
            rat_wf(*t_max),
            t_in_window(*t_min),
            t_in_window(*t_max),
        ensures
            sphere_hit_match(*self, *r, *t_min, *t_max, res),
            res is Some ==> hitdata_wf(res->0) && sphere_within(*self, *r, (res->0).t.num as int,
                (res->0).t.den as int) && in_open_range((res->0).t.num as int,
                (res->0).t.den as int, *t_min, *t_max),
    {
        let oc = Vec3 {
            x: r.origin.x - self.center.x,
            y: r.origin.y - self.center.y,
            z: r.origin.z - self.center.z,
        };
        proof {
            lemma_dot_bound(r.direction, r.direction, 8192, 8192);
            lemma_dot_bound(oc, r.direction, 2228224, 8192);
            lemma_dot_bound(oc, oc, 2228224, 2228224);
        }
        let a = (&r.direction).dot(&r.direction);
        let b = oc.dot(&r.direction);
        let c0 = oc.dot(&oc);
        proof {
            lemma_mul_bound(self.radius as int, self.radius as int, 131072, 131072);
            lemma_mul_bound(b as int, b as int, 54760833024, 54760833024);
            lemma_mul_bound(a as int, (c0 as int) - (self.radius as int) * (self.radius as int),
                201326592, 14912126451712);
        }
        let c = c0 - self.radius * self.radius;
        let disc = (b as i128) * (b as i128) - (a as i128) * (c as i128);
        if a > 0 && disc > 0 && self.radius != 0 {
            let sq128 = isqrt(disc as u128);
            proof {
                assert(disc < 0x400_0000_0000_0000_0000i128);
                assert((sq128 as int) * (sq128 as int) < 0x400_0000_0000_0000_0000int) by (nonlinear_arith)
                    requires
                        sq128 * sq128 <= (disc as u128),
                        (disc as u128) < 0x400_0000_0000_0000_0000u128,
                ;
                assert((sq128 as int) < 0x20_0000_0000int) by (nonlinear_arith)
                    requires
                        (sq128 as int) * (sq128 as int) < 0x400_0000_0000_0000_0000int,
                        (sq128 as int) >= 0,
                ;
            }
            let sq = sq128 as i64;
            let num1 = -b - sq;
            let t1 = Rat { num: num1, den: a };
            if self.in_range(&t1, t_min, t_max) {
                proof {
                    crate::ray::lemma_window(*t_min, *t_max, t1.num as int, t1.den as int);
                }
                self.finish(t1, r)
            } else {
                let num2 = -b + sq;
                let t2 = Rat { num: num2, den: a };
                if self.in_range(&t2, t_min, t_max) {
                    proof {
                        crate::ray::lemma_window(*t_min, *t_max, t2.num as int, t2.den as int);
                    }
                    self.finish(t2, r)
                } else {
                    None
                }
            }
        } else {
            None
        }
    }

    /// Decides the open-window test for a candidate root.
    fn in_range(&self, t: &Rat, t_min: &Rat, t_max: &Rat) -> (res: bool)
        requires
            rat_wf(*t_min),
            rat_wf(*t_max),
            -RMAX <= t.num <= RMAX,
            0 < t.den <= RMAX,
        ensures
            res == in_open_range(t.num as int, t.den as int, *t_min, *t_max),
    {
        check_open_range(t.num, t.den, t_min, t_max)
    }

    /// Builds the hit record for an accepted root, or refuses it when
    /// the rounded point escapes the padded extent.
    fn finish(&self, t: Rat, r: &Ray) -> (res: Option<HitData>)
        requires
            sphere_wf(*self),
            self.radius != 0,
            ray_wf(*r),
            rat_wf(t),
            t_in_window(t),
        ensures
            match res {
                None => !sphere_within(*self, *r, t.num as int, t.den as int),
                Some(h) => {
                    &&& sphere_within(*self, *r, t.num as int, t.den as int)
                    &&& h.t == t
                    &&& hitdata_wf(h)
                    &&& h.p.x == point_comp(r.origin.x as int, r.direction.x as int, t)
                    &&& h.p.y == point_comp(r.origin.y as int, r.direction.y as int, t)
                    &&& h.p.z == point_comp(r.origin.z as int, r.direction.z as int, t)
                    &&& h.normal.x == sphere_normal_comp(h.p.x as int, self.center.x as int, self.radius as int)
                    &&& h.normal.y == sphere_normal_comp(h.p.y as int, self.center.y as int, self.radius as int)
                    &&& h.normal.z == sphere_normal_comp(h.p.z as int, self.center.z as int, self.radius as int)
                },
            },
    {
        let b = self.bounding_box();
        if !crate::aabb::inside_box(&b, r, &t) {
            return None;
        }
        let p = r.point_at_parameter(&t);
        let n = Vec3 {
            x: self.normal_comp(p.x, self.center.x),
            y: self.normal_comp(p.y, self.center.y),
            z: self.normal_comp(p.z, self.center.z),
        };
        Some(HitData { t, p, normal: n })
    }

    fn normal_comp(&self, p_i: i64, c_i: i64) -> (n: i64)
        requires
            sphere_wf(*self),
            self.radius != 0,
            iabs(p_i as int) <= 18874369,
            iabs(c_i as int) <= CMAX,
        ensures
            n == sphere_normal_comp(p_i as int, c_i as int, self.radius as int),
            iabs(n as int) <= 2048,
    {
        let ra = if self.radius < 0 { -self.radius } else { self.radius };
        proof {
            lemma_mul_bound((p_i - c_i) as int, 1024, 19005441, 1024);
        }
        let base = fdiv(((p_i - c_i) as i128) * 1024, ra as i128);
        proof {
            assert(iabs(base as int) <= 19461571584) by (nonlinear_arith)
                requires
                    (ra as int) * (base as int) <= ((p_i - c_i) as int) * 1024
                        < (ra as int) * (base as int + 1),
                    iabs(((p_i - c_i) as int) * 1024) <= 19461571584,
                    ra >= 1,
            ;
        }
        let signed = if self.radius < 0 { -(base as i64) } else { base as i64 };
        clamp64(signed, -2048, 2048)
    }
}
} // verus!
