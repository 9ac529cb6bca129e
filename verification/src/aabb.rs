//! Axis-aligned bounding boxes with an exact slab test: each axis narrows
//! the running ray-parameter interval by the two slab crossings, and the
//! box is hit exactly when the interval survives all three axes.

use vstd::prelude::*;
use crate::math::{iabs, BMAX, DMAX, PMAX, RMAX};
use crate::ratio::{Rat, rat_wf, rat_le, rat_lt};
use crate::ray::{Ray, ray_wf};
use crate::vec3::{Vec3, bounded};

verus! {

#[derive(Clone, Copy, Debug, PartialEq, Eq, Structural)]
pub struct AABB {
    pub min: Vec3,
    pub max: Vec3,
}

pub open spec fn aabb_wf(b: AABB) -> bool {
    &&& bounded(b.min, BMAX as int)
    &&& bounded(b.max, BMAX as int)
    &&& b.min.x <= b.max.x
    &&& b.min.y <= b.max.y
    &&& b.min.z <= b.max.z
}

/// `outer` contains `inner` on every axis.
pub open spec fn box_contains(outer: AABB, inner: AABB) -> bool {
    &&& outer.min.x <= inner.min.x && inner.max.x <= outer.max.x
    &&& outer.min.y <= inner.min.y && inner.max.y <= outer.max.y
    &&& outer.min.z <= inner.min.z && inner.max.z <= outer.max.z
}

/// One axis of the slab test over exact rationals written as
/// numerator-denominator pairs with positive denominators: intersect the
/// running interval `[lo, hi]` with the crossing interval of the slab
/// `[mn, mx]`, or report the interval empty (`None`). A ray parallel to
/// the slab passes unchanged iff its origin lies within the slab.
pub open spec fn axis_narrow(lo: (int, int), hi: (int, int), o: int, d: int, mn: int, mx: int)
    -> Option<((int, int), (int, int))> {
    if d == 0 {
        if o < mn || o > mx {
            None
        } else {
            Some((lo, hi))
        }
    } else {
        let clo = if d > 0 { (mn - o, d) } else { (o - mx, -d) };
        let chi = if d > 0 { (mx - o, d) } else { (o - mn, -d) };
        let nlo = if lo.0 * clo.1 < clo.0 * lo.1 { clo } else { lo };
        let nhi = if chi.0 * hi.1 < hi.0 * chi.1 { chi } else { hi };
        if nhi.0 * nlo.1 <= nlo.0 * nhi.1 {
            None
        } else {
            Some((nlo, nhi))
        }
    }
}

pub open spec fn rat_view(t: Rat) -> (int, int) {
    (t.num as int, t.den as int)
}

/// The exact slab test: the ray-parameter interval `[tmin, tmax]`,
/// narrowed by the slab crossings of all three axes, stays non-empty.
pub open spec fn slab_hit(b: AABB, r: Ray, tmin: Rat, tmax: Rat) -> bool {
    match axis_narrow(rat_view(tmin), rat_view(tmax), r.origin.x as int, r.direction.x as int,
        b.min.x as int, b.max.x as int) {
        None => false,
        Some((lo1, hi1)) => match axis_narrow(lo1, hi1, r.origin.y as int, r.direction.y as int,
            b.min.y as int, b.max.y as int) {
            None => false,
            Some((lo2, hi2)) => axis_narrow(lo2, hi2, r.origin.z as int, r.direction.z as int,
                b.min.z as int, b.max.z as int) is Some,
        },
    }
}

/// The exact point `origin + t * direction` lies strictly inside the box
/// on every axis (all comparisons multiplied through by `t.den > 0`).
pub open spec fn strictly_inside(b: AABB, r: Ray, t: Rat) -> bool {
    &&& b.min.x * t.den < r.origin.x * t.den + t.num * r.direction.x < b.max.x * t.den
    &&& b.min.y * t.den < r.origin.y * t.den + t.num * r.direction.y < b.max.y * t.den
    &&& b.min.z * t.den < r.origin.z * t.den + t.num * r.direction.z < b.max.z * t.den
}

/// The tightest box containing both inputs.
pub fn surrounding_bbox(box0: AABB, box1: AABB) -> (r: AABB)
    requires
        aabb_wf(box0),
        aabb_wf(box1),
    ensures
        aabb_wf(r),
        box_contains(r, box0),
        box_contains(r, box1),
        r.min.x == if box0.min.x < box1.min.x { box0.min.x } else { box1.min.x },
        r.min.y == if box0.min.y < box1.min.y { box0.min.y } else { box1.min.y },
        r.min.z == if box0.min.z < box1.min.z { box0.min.z } else { box1.min.z },
        r.max.x == if box0.max.x > box1.max.x { box0.max.x } else { box1.max.x },
        r.max.y == if box0.max.y > box1.max.y { box0.max.y } else { box1.max.y },
        r.max.z == if box0.max.z > box1.max.z { box0.max.z } else { box1.max.z },
{
    let small = Vec3 {
        x: if box0.min.x < box1.min.x { box0.min.x } else { box1.min.x },
        y: if box0.min.y < box1.min.y { box0.min.y } else { box1.min.y },
        z: if box0.min.z < box1.min.z { box0.min.z } else { box1.min.z },
    };
    let big = Vec3 {
        x: if box0.max.x > box1.max.x { box0.max.x } else { box1.max.x },
        y: if box0.max.y > box1.max.y { box0.max.y } else { box1.max.y },
        z: if box0.max.z > box1.max.z { box0.max.z } else { box1.max.z },
    };
    AABB { min: small, max: big }
}

/// One axis of the slab test, executed on exact rationals.
pub fn check_one_direction(ray_direction: i64, ray_origin: i64, min_axis: i64, max_axis: i64,
    tmin: Rat, tmax: Rat) -> (res: Option<(Rat, Rat)>)
    requires
        rat_wf(tmin),
        rat_wf(tmax),
        iabs(ray_direction as int) <= DMAX,
        iabs(ray_origin as int) <= PMAX,
        iabs(min_axis as int) <= BMAX,
        iabs(max_axis as int) <= BMAX,
    ensures
        match (axis_narrow(rat_view(tmin), rat_view(tmax), ray_origin as int, ray_direction as int,
            min_axis as int, max_axis as int), res) {
            (None, opt) => opt is None,
            (Some(n), Some(p)) => {
                &&& rat_view(p.0) == n.0
                &&& rat_view(p.1) == n.1
                &&& rat_wf(p.0)
                &&& rat_wf(p.1)
            },
            (Some(n), None) => false,
        },
{
    if ray_direction == 0 {
        if ray_origin < min_axis || ray_origin > max_axis {
            None
        } else {
            Some((tmin, tmax))
        }
    } else {
        let clo: Rat = if ray_direction > 0 {
            Rat { num: min_axis - ray_origin, den: ray_direction }
        } else {
            Rat { num: ray_origin - max_axis, den: -ray_direction }
        };
        let chi: Rat = if ray_direction > 0 {
            Rat { num: max_axis - ray_origin, den: ray_direction }
        } else {
            Rat { num: ray_origin - min_axis, den: -ray_direction }
        };
        let nlo = if tmin.lt(&clo) { clo } else { tmin };
        let nhi = if chi.lt(&tmax) { chi } else { tmax };
        if nhi.le(&nlo) {
            None
        } else {
            Some((nlo, nhi))
        }
    }
}

impl AABB {
    pub fn new(min: Vec3, max: Vec3) -> (r: AABB)
        ensures
            r.min == min,
            r.max == max,
    {
        AABB { min, max }
    }

    pub fn min(&self) -> (r: Vec3)
        ensures r == self.min,
    {
        self.min
    }

    pub fn max(&self) -> (r: Vec3)
        ensures r == self.max,
    {
        self.max
    }

    /// The slab test, narrowing the running interval axis by axis
    /// exactly as `slab_hit` states.
    pub fn hit(&self, r: &Ray, tmin: &Rat, tmax: &Rat) -> (res: bool)
        requires
            aabb_wf(*self),
            ray_wf(*r),
            rat_wf(*tmin),
            rat_wf(*tmax),
        ensures
            res == slab_hit(*self, *r, *tmin, *tmax),
    {
        match check_one_direction(r.direction.x, r.origin.x, self.min.x, self.max.x, *tmin, *tmax) {
            None => false,
            Some((lo1, hi1)) => {
                match check_one_direction(r.direction.y, r.origin.y, self.min.y, self.max.y, lo1, hi1) {
                    None => false,
                    Some((lo2, hi2)) => {
                        match check_one_direction(r.direction.z, r.origin.z, self.min.z, self.max.z, lo2, hi2) {
                            None => false,
                            Some(_) => true,
                        }
                    },
                }
            },
        }
    }
}

/// One axis of the containment argument: if the exact point at `t` lies
/// strictly between the two slab planes and `t` lies strictly inside the
/// running interval, the narrowed interval still strictly contains `t`.
proof fn lemma_axis_keeps(lo: (int, int), hi: (int, int), o: int, d: int, mn: int, mx: int,
    t: Rat)
    requires
        rat_wf(t),
        lo.1 > 0,
        hi.1 > 0,
        lo.0 * t.den < t.num * lo.1,
        t.num * hi.1 < hi.0 * t.den,
        mn * t.den < o * t.den + t.num * d < mx * t.den,
    ensures
        axis_narrow(lo, hi, o, d, mn, mx) is Some,
        ({
            let nar = axis_narrow(lo, hi, o, d, mn, mx)->0;
            let nlo = nar.0;
            let nhi = nar.1;
            &&& nlo.1 > 0
            &&& nhi.1 > 0
            &&& nlo.0 * t.den < t.num * nlo.1
            &&& t.num * nhi.1 < nhi.0 * t.den
        }),
{
    if d == 0 {
        assert(mn < o && o < mx) by (nonlinear_arith)
            requires mn * t.den < o * t.den + t.num * 0 < mx * t.den, t.den > 0;
    } else {
        let clo = if d > 0 { (mn - o, d) } else { (o - mx, -d) };
        let chi = if d > 0 { (mx - o, d) } else { (o - mn, -d) };
        assert(clo.0 * t.den < t.num * clo.1 && t.num * chi.1 < chi.0 * t.den) by (nonlinear_arith)
            requires
                mn * t.den < o * t.den + t.num * d < mx * t.den,
                t.den > 0,
                d != 0,
                clo == (if d > 0 { (mn - o, d) } else { (o - mx, -d) }),
                chi == (if d > 0 { (mx - o, d) } else { (o - mn, -d) }),
        ;
        let nlo = if lo.0 * clo.1 < clo.0 * lo.1 { clo } else { lo };
        let nhi = if chi.0 * hi.1 < hi.0 * chi.1 { chi } else { hi };
        assert(nlo.0 * t.den < t.num * nlo.1);
        assert(t.num * nhi.1 < nhi.0 * t.den);
        assert(nlo.0 * nhi.1 < nhi.0 * nlo.1) by (nonlinear_arith)
            requires
                nlo.0 * t.den < t.num * nlo.1,
                t.num * nhi.1 < nhi.0 * t.den,
                nlo.1 > 0,
                nhi.1 > 0,
                t.den > 0,
        ;
    }
}

/// A ray parameter strictly inside `(tmin, tmax)` whose exact point lies
/// strictly inside the box makes the slab test succeed: a bounding box
/// can never prune away a surviving hit.
pub proof fn lemma_inside_slab(b: AABB, r: Ray, tmin: Rat, tmax: Rat, t: Rat)
    requires
        rat_wf(tmin),
        rat_wf(tmax),
        rat_wf(t),
        rat_lt(tmin, t),
        rat_lt(t, tmax),
        strictly_inside(b, r, t),
    ensures
        slab_hit(b, r, tmin, tmax),
{
    let lo0 = rat_view(tmin);
    let hi0 = rat_view(tmax);
    lemma_axis_keeps(lo0, hi0, r.origin.x as int, r.direction.x as int, b.min.x as int,
        b.max.x as int, t);
    let s1 = axis_narrow(lo0, hi0, r.origin.x as int, r.direction.x as int, b.min.x as int,
        b.max.x as int)->0;
    lemma_axis_keeps(s1.0, s1.1, r.origin.y as int, r.direction.y as int, b.min.y as int,
        b.max.y as int, t);
    let s2 = axis_narrow(s1.0, s1.1, r.origin.y as int, r.direction.y as int, b.min.y as int,
        b.max.y as int)->0;
    lemma_axis_keeps(s2.0, s2.1, r.origin.z as int, r.direction.z as int, b.min.z as int,
        b.max.z as int, t);
}

/// Strict containment in a box survives enlarging the box.
pub proof fn lemma_inside_mono(outer: AABB, inner: AABB, r: Ray, t: Rat)
    requires
        rat_wf(t),
        box_contains(outer, inner),
        strictly_inside(inner, r, t),
    ensures
        strictly_inside(outer, r, t),
{
    assert(outer.min.x * t.den <= inner.min.x * t.den
        && outer.min.y * t.den <= inner.min.y * t.den
        && outer.min.z * t.den <= inner.min.z * t.den
        && inner.max.x * t.den <= outer.max.x * t.den
        && inner.max.y * t.den <= outer.max.y * t.den
        && inner.max.z * t.den <= outer.max.z * t.den) by (nonlinear_arith)
        requires
            t.den > 0,
            outer.min.x <= inner.min.x && inner.max.x <= outer.max.x,
            outer.min.y <= inner.min.y && inner.max.y <= outer.max.y,
            outer.min.z <= inner.min.z && inner.max.z <= outer.max.z,
    ;
}

/// Decides `strictly_inside` exactly, in `i128` arithmetic.
pub fn inside_box(b: &AABB, r: &Ray, t: &Rat) -> (res: bool)
    requires
        aabb_wf(*b),
        ray_wf(*r),
        rat_wf(*t),
    ensures
        res == strictly_inside(*b, *r, *t),
{
    let den = t.den as i128;
    let num = t.num as i128;
    proof {
        crate::ratio::lemma_mul_bound(r.origin.x as int, t.den as int, PMAX as int, RMAX as int);
        crate::ratio::lemma_mul_bound(r.origin.y as int, t.den as int, PMAX as int, RMAX as int);
        crate::ratio::lemma_mul_bound(r.origin.z as int, t.den as int, PMAX as int, RMAX as int);
        crate::ratio::lemma_mul_bound(t.num as int, r.direction.x as int, RMAX as int, DMAX as int);
        crate::ratio::lemma_mul_bound(t.num as int, r.direction.y as int, RMAX as int, DMAX as int);
        crate::ratio::lemma_mul_bound(t.num as int, r.direction.z as int, RMAX as int, DMAX as int);
        crate::ratio::lemma_mul_bound(b.min.x as int, t.den as int, BMAX as int, RMAX as int);
        crate::ratio::lemma_mul_bound(b.min.y as int, t.den as int, BMAX as int, RMAX as int);
        crate::ratio::lemma_mul_bound(b.min.z as int, t.den as int, BMAX as int, RMAX as int);
        crate::ratio::lemma_mul_bound(b.max.x as int, t.den as int, BMAX as int, RMAX as int);
        crate::ratio::lemma_mul_bound(b.max.y as int, t.den as int, BMAX as int, RMAX as int);
        crate::ratio::lemma_mul_bound(b.max.z as int, t.den as int, BMAX as int, RMAX as int);
    }
    let px = (r.origin.x as i128) * den + num * (r.direction.x as i128);
    let py = (r.origin.y as i128) * den + num * (r.direction.y as i128);
    let pz = (r.origin.z as i128) * den + num * (r.direction.z as i128);
    (b.min.x as i128) * den < px && px < (b.max.x as i128) * den
        && (b.min.y as i128) * den < py && py < (b.max.y as i128) * den
        && (b.min.z as i128) * den < pz && pz < (b.max.z as i128) * den
}

} // verus!
