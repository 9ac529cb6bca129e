//! Rays: an integer origin and an integer direction, with points along the
//! ray evaluated exactly in rational arithmetic and rounded to the grid.

use vstd::prelude::*;
use crate::math::{iabs, fdiv, DMAX, PMAX};
use crate::ratio::{Rat, rat_wf, lemma_mul_bound};
use crate::vec3::{Vec3, bounded};

verus! {

#[derive(Clone, Copy, Debug, PartialEq, Eq, Structural)]
pub struct Ray {
    pub origin: Vec3,
    pub direction: Vec3,
}

/// A ray the tracer works on: origin inside the world region, direction
/// components bounded and not all zero.
pub open spec fn ray_wf(r: Ray) -> bool {
    &&& bounded(r.origin, PMAX as int)
    &&& bounded(r.direction, DMAX as int)
    &&& !(r.direction.x == 0 && r.direction.y == 0 && r.direction.z == 0)
}

/// Ray parameters handed to intersection queries stay in this range
/// (plus or minus 2048 world units), so points along the ray fit `i64`.
pub open spec fn t_in_window(t: Rat) -> bool {
    iabs(t.num as int) <= 2048 * (t.den as int)
}

/// The exact coordinate `o + t * d` floor-rounded to the grid.
pub open spec fn point_comp(o: int, d: int, t: Rat) -> int {
    o + (t.num * d) / (t.den as int)
}

/// A parameter strictly inside a window of windowed bounds is itself
/// windowed.
pub proof fn lemma_window(tmin: Rat, tmax: Rat, num: int, den: int)
    requires
        rat_wf(tmin),
        rat_wf(tmax),
        t_in_window(tmin),
        t_in_window(tmax),
        den > 0,
        tmin.num * den < num * tmin.den,
        num * tmax.den < tmax.num * den,
    ensures
        iabs(num) <= 2048 * den,
{
    assert(iabs(num) <= 2048 * den) by (nonlinear_arith)
        requires
            tmin.num * den < num * tmin.den,
            num * tmax.den < tmax.num * den,
            iabs(tmin.num as int) <= 2048 * (tmin.den as int),
            iabs(tmax.num as int) <= 2048 * (tmax.den as int),
            tmin.den > 0,
            tmax.den > 0,
            den > 0,
    ;
}

impl Ray {
    pub fn new(origin: Vec3, direction: Vec3) -> (r: Ray)
        ensures
            r.origin == origin,
            r.direction == direction,
    {
        Ray { origin, direction }
    }

    pub fn origin(&self) -> (r: Vec3)
        ensures r == self.origin,
    {
        self.origin
    }

    pub fn direction(&self) -> (r: Vec3)
        ensures r == self.direction,
    {
        self.direction
    }

    /// The point `origin + t * direction`, each coordinate rounded toward
    /// minus infinity onto the grid.
    pub fn point_at_parameter(&self, t: &Rat) -> (p: Vec3)
        requires
            ray_wf(*self),
            rat_wf(*t),
            t_in_window(*t),
        ensures
            p.x == point_comp(self.origin.x as int, self.direction.x as int, *t),
            p.y == point_comp(self.origin.y as int, self.direction.y as int, *t),
            p.z == point_comp(self.origin.z as int, self.direction.z as int, *t),
            bounded(p, 18874369),
    {
        Vec3 {
            x: Self::comp(self.origin.x, self.direction.x, t),
            y: Self::comp(self.origin.y, self.direction.y, t),
            z: Self::comp(self.origin.z, self.direction.z, t),
        }
    }

    fn comp(o: i64, d: i64, t: &Rat) -> (p: i64)
        requires
            rat_wf(*t),
            t_in_window(*t),
            iabs(o as int) <= PMAX,
            iabs(d as int) <= DMAX,
        ensures
            p == point_comp(o as int, d as int, *t),
            iabs(p as int) <= 18874369,
    {
        proof {
            lemma_mul_bound(t.num as int, d as int, 2048 * (t.den as int), DMAX as int);
        }
        let q = fdiv((t.num as i128) * (d as i128), t.den as i128);
        proof {
            assert(iabs(q as int) <= 16777217) by (nonlinear_arith)
                requires
                    (t.den as int) * (q as int) <= (t.num as int) * (d as int) < (t.den as int) * (q as int + 1),
                    iabs((t.num as int) * (d as int)) <= 2048 * (t.den as int) * DMAX,
                    t.den >= 1,
                    DMAX == 8192,
            ;
        }
        o + (q as i64)
    }
}

} // verus!
